//! The shapes of the model's parameters and of what runs through it: how heads
//! are split and shared, how rotary positions pair channels, how the audio
//! embeddings line up with the prompt's placeholders.

use vstd::arithmetic::div_mod::{lemma_fundamental_div_mod, lemma_fundamental_div_mod_converse};
use vstd::prelude::*;

use crate::checkpoint::Dtype;
use crate::config::{EncoderConfig, TextConfig, VoxtralConfig};
use crate::text::{decimal, decimal_of};

verus! {

/// A linear layer: from `d_in` values to `d_out`.
#[derive(Debug, Clone, Copy, PartialEq, Eq, Structural)]
pub struct LinearShape {
    pub d_in: usize,
    pub d_out: usize,
    pub bias: bool,
}

/// The projections of an attention layer, and its heads.
#[derive(Debug, Clone, Copy, PartialEq, Eq, Structural)]
pub struct AttentionShape {
    pub q: LinearShape,
    pub k: LinearShape,
    pub v: LinearShape,
    pub o: LinearShape,
    pub heads: usize,
    pub kv_heads: usize,
    pub head_dim: usize,
}

/// The projections of a gated feed-forward layer.
#[derive(Debug, Clone, Copy, PartialEq, Eq, Structural)]
pub struct MlpShape {
    pub gate: LinearShape,
    pub up: LinearShape,
    pub down: LinearShape,
}

/// The attention of a decoder layer: the key and value projections only have
/// the heads the groups of query heads share.
pub fn decoder_attention(cfg: &TextConfig) -> (res: AttentionShape)
    requires
        cfg.has_heads(),
        cfg.num_attention_heads * cfg.head_width() <= usize::MAX,
        cfg.num_key_value_heads * cfg.head_width() <= usize::MAX,
    ensures
        res.head_dim == cfg.head_width(),
        res.heads == cfg.num_attention_heads,
        res.kv_heads == cfg.num_key_value_heads,
        res.q.d_in == cfg.hidden_size,
        res.q.d_out == cfg.num_attention_heads * cfg.head_width(),
        res.k.d_in == cfg.hidden_size,
        res.k.d_out == cfg.num_key_value_heads * cfg.head_width(),
        res.v == res.k,
        res.o.d_in == res.q.d_out,
        res.o.d_out == cfg.hidden_size,
        res.q.bias == cfg.attention_bias,
        res.k.bias == cfg.attention_bias,
        res.o.bias == cfg.attention_bias,
{
    let head_dim: usize = cfg.head_dim();
    let wide: usize = cfg.num_attention_heads * head_dim;
    let narrow: usize = cfg.num_key_value_heads * head_dim;
    let bias = cfg.attention_bias;
    AttentionShape {
        q: LinearShape { d_in: cfg.hidden_size, d_out: wide, bias },
        k: LinearShape { d_in: cfg.hidden_size, d_out: narrow, bias },
        v: LinearShape { d_in: cfg.hidden_size, d_out: narrow, bias },
        o: LinearShape { d_in: wide, d_out: cfg.hidden_size, bias },
        heads: cfg.num_attention_heads,
        kv_heads: cfg.num_key_value_heads,
        head_dim,
    }
}

/// The attention of an audio tower layer. The key projection alone has no
/// bias.
pub fn encoder_attention(cfg: &EncoderConfig) -> (res: AttentionShape)
    requires
        cfg.num_attention_heads > 0,
    ensures
        res.head_dim == cfg.hidden_size as nat / cfg.num_attention_heads as nat,
        res.heads == cfg.num_attention_heads,
        res.kv_heads == cfg.num_attention_heads,
        res.q == (LinearShape { d_in: cfg.hidden_size, d_out: cfg.hidden_size, bias: true }),
        res.k == (LinearShape { d_in: cfg.hidden_size, d_out: cfg.hidden_size, bias: false }),
        res.v == res.q,
        res.o == res.q,
{
    let d: usize = cfg.hidden_size;
    let biased = LinearShape { d_in: d, d_out: d, bias: true };
    AttentionShape {
        q: biased,
        k: LinearShape { d_in: d, d_out: d, bias: false },
        v: biased,
        o: biased,
        heads: cfg.num_attention_heads,
        kv_heads: cfg.num_attention_heads,
        head_dim: d / cfg.num_attention_heads,
    }
}

/// The feed-forward layer of a decoder layer, which has no bias.
pub fn decoder_mlp(cfg: &TextConfig) -> (res: MlpShape)
    ensures
        res.gate == (LinearShape {
            d_in: cfg.hidden_size,
            d_out: cfg.intermediate_size,
            bias: false,
        }),
        res.up == res.gate,
        res.down == (LinearShape {
            d_in: cfg.intermediate_size,
            d_out: cfg.hidden_size,
            bias: false,
        }),
{
    let widen = LinearShape { d_in: cfg.hidden_size, d_out: cfg.intermediate_size, bias: false };
    MlpShape {
        gate: widen,
        up: widen,
        down: LinearShape { d_in: cfg.intermediate_size, d_out: cfg.hidden_size, bias: false },
    }
}

/// The two layers of the feed-forward part of an audio tower layer.
pub fn encoder_mlp(cfg: &EncoderConfig) -> (res: (LinearShape, LinearShape))
    ensures
        res.0 == (LinearShape {
            d_in: cfg.hidden_size,
            d_out: cfg.intermediate_size,
            bias: true,
        }),
        res.1 == (LinearShape {
            d_in: cfg.intermediate_size,
            d_out: cfg.hidden_size,
            bias: true,
        }),
{
    (
        LinearShape { d_in: cfg.hidden_size, d_out: cfg.intermediate_size, bias: true },
        LinearShape { d_in: cfg.intermediate_size, d_out: cfg.hidden_size, bias: true },
    )
}

/// The two layers of the projector: from the frames folded into one embedding
/// to the decoder's width.
pub fn projector(cfg: &VoxtralConfig) -> (res: (LinearShape, LinearShape))
    ensures
        res.0 == (LinearShape {
            d_in: cfg.audio_config.intermediate_size,
            d_out: cfg.text_config.hidden_size,
            bias: false,
        }),
        res.1 == (LinearShape {
            d_in: cfg.text_config.hidden_size,
            d_out: cfg.text_config.hidden_size,
            bias: false,
        }),
{
    let hidden: usize = cfg.text_config.hidden_size;
    (
        LinearShape { d_in: cfg.audio_config.intermediate_size, d_out: hidden, bias: false },
        LinearShape { d_in: hidden, d_out: hidden, bias: false },
    )
}

/// The output head, or `None` when it reuses the token embeddings.
pub fn lm_head(cfg: &TextConfig) -> (res: Option<LinearShape>)
    ensures
        res == if cfg.tie_word_embeddings {
            None::<LinearShape>
        } else {
            Some(LinearShape { d_in: cfg.hidden_size, d_out: cfg.vocab_size, bias: false })
        },
{
    if cfg.tie_word_embeddings {
        None
    } else {
        Some(LinearShape { d_in: cfg.hidden_size, d_out: cfg.vocab_size, bias: false })
    }
}

/// How many query heads share a key/value head.
pub open spec fn group_size(heads: nat, kv_heads: nat) -> nat {
    heads / kv_heads
}

/// The shape keys or values of the shape `dims` are expanded to, each head
/// `n_rep` times, and the one that is then read as.
pub fn repeated(dims: [usize; 4], n_rep: usize) -> (res: ([usize; 5], [usize; 4]))
    requires
        dims@[1] * n_rep <= usize::MAX,
    ensures
        res.0@ == seq![dims@[0], dims@[1], n_rep, dims@[2], dims@[3]],
        res.1@ == seq![dims@[0], (dims@[1] * n_rep) as usize, dims@[2], dims@[3]],
{
    let b: usize = dims[0];
    let h: usize = dims[1];
    let l: usize = dims[2];
    let d: usize = dims[3];
    let expanded: [usize; 5] = [b, h, n_rep, l, d];
    let folded: [usize; 4] = [b, h * n_rep, l, d];
    assert(expanded@ =~= seq![dims@[0], dims@[1], n_rep, dims@[2], dims@[3]]);
    assert(folded@ =~= seq![dims@[0], (dims@[1] * n_rep) as usize, dims@[2], dims@[3]]);
    (expanded, folded)
}

/// How many query heads share a key/value head.
pub fn groups(heads: usize, kv_heads: usize) -> (res: usize)
    requires
        kv_heads > 0,
    ensures
        res == group_size(heads as nat, kv_heads as nat),
{
    heads / kv_heads
}

/// The shape the one query of a decoding step is grouped to: its heads by the
/// key/value head they share.
pub fn grouped(batch: usize, heads: usize, kv_heads: usize, head_dim: usize) -> (res: [usize; 4])
    requires
        kv_heads > 0,
    ensures
        res@ == seq![
            batch,
            kv_heads,
            group_size(heads as nat, kv_heads as nat) as usize,
            head_dim,
        ],
{
    let dims: [usize; 4] = [batch, kv_heads, groups(heads, kv_heads), head_dim];
    assert(dims@ =~= seq![
        batch,
        kv_heads,
        group_size(heads as nat, kv_heads as nat) as usize,
        head_dim,
    ]);
    dims
}

/// Where the element at `a`, `b` of two axes, the second of length `n`, stands
/// when the two are read as one.
pub open spec fn fused(a: int, b: int, n: int) -> int {
    a * n + b
}

/// The prefill and the decoding steps agree on which key/value head a query
/// head reads. Expanding each key/value head to its group puts copy `r` of
/// head `g` where query head `g * groups + r` reads it; grouping the query
/// heads puts that one at `(g, r)`. Every query head has exactly one place.
pub proof fn law_grouping_is_repeating(heads: nat, kv_heads: nat, head: int)
    requires
        kv_heads > 0,
        heads % kv_heads == 0,
        0 <= head < heads,
    ensures
        ({
            let groups = group_size(heads, kv_heads) as int;
            let g = head / groups;
            let r = head % groups;
            &&& 0 <= g < kv_heads
            &&& 0 <= r < groups
            &&& fused(g, r, groups) == head
            &&& forall|g2: int, r2: int|
                0 <= r2 < groups && #[trigger] fused(g2, r2, groups) == head ==> g2 == g && r2 == r
            &&& kv_heads * groups == heads
        }),
{
    let groups = group_size(heads, kv_heads) as int;
    lemma_fundamental_div_mod(heads as int, kv_heads as int);
    assert(groups > 0) by (nonlinear_arith)
        requires
            heads == kv_heads * groups,
            heads > 0,
            kv_heads > 0,
    ;
    lemma_fundamental_div_mod(head, groups);
    let g = head / groups;
    assert(groups * g == g * groups) by (nonlinear_arith);
    assert(g < kv_heads) by (nonlinear_arith)
        requires
            g * groups <= head,
            head < kv_heads * groups,
            groups > 0,
    ;
    assert forall|g2: int, r2: int|
        0 <= r2 < groups && #[trigger] fused(g2, r2, groups) == head implies g2 == g && r2 == head
        % groups by {
        lemma_fundamental_div_mod_converse(head, groups, g2, r2);
    }
}

/// The channel that channel `i` of a head of `dim` channels is rotated with:
/// the one half a head away.
pub open spec fn partner(i: int, dim: int) -> int {
    if i < dim / 2 {
        i + dim / 2
    } else {
        i - dim / 2
    }
}

/// The frequency that channel `i` of a head of `dim` channels turns with: both
/// halves see the same.
pub open spec fn frequency(i: int, dim: int) -> int {
    if i < dim / 2 {
        i
    } else {
        i - dim / 2
    }
}

/// Whether channel `i` of a head of `dim` channels subtracts its partner: the
/// first half does.
pub open spec fn subtracts(i: int, dim: int) -> bool {
    i < dim / 2
}

/// The channel each channel of a head of `dim` channels is rotated with.
pub fn rotate_indices(dim: usize) -> (res: Vec<i64>)
    requires
        dim % 2 == 0,
        dim <= i64::MAX,
    ensures
        res@ == Seq::new(dim as nat, |i: int| partner(i, dim as int) as i64),
{
    let half: usize = dim / 2;
    let mut res: Vec<i64> = Vec::new();
    let mut i: usize = 0;
    while i < dim
        invariant
            i <= dim,
            half == dim / 2,
            dim % 2 == 0,
            dim <= i64::MAX,
            res@.len() == i,
            forall|j: int| 0 <= j < i ==> res@[j] == partner(j, dim as int) as i64,
        decreases dim - i,
    {
        if i < half {
            res.push((i + half) as i64);
        } else {
            res.push((i - half) as i64);
        }
        i = i + 1;
    }
    assert(res@ =~= Seq::new(dim as nat, |i: int| partner(i, dim as int) as i64));
    res
}

/// The exponent of each frequency of a head of `dim` channels, in `dim`ths:
/// every even number below it.
pub fn frequency_numerators(dim: usize) -> (res: Vec<usize>)
    requires
        dim % 2 == 0,
    ensures
        res@ == Seq::new((dim / 2) as nat, |k: int| (2 * k) as usize),
{
    let mut res: Vec<usize> = Vec::new();
    let mut k: usize = 0;
    while k < dim / 2
        invariant
            k <= dim / 2,
            dim % 2 == 0,
            res@.len() == k,
            forall|j: int| 0 <= j < k ==> res@[j] == (2 * j) as usize,
        decreases dim / 2 - k,
    {
        res.push(2 * k);
        k = k + 1;
    }
    assert(res@ =~= Seq::new((dim / 2) as nat, |k: int| (2 * k) as usize));
    res
}

/// Appends to `table` the row of a head whose first half is `first` and whose
/// second is `second`.
pub fn push_row<T: Copy>(table: &mut Vec<T>, first: &Vec<T>, second: &Vec<T>)
    requires
        first@.len() == second@.len(),
    ensures
        final(table)@ == old(table)@ + Seq::new(
            2 * first@.len(),
            |i: int|
                if subtracts(i, 2 * first@.len() as int) {
                    first@[frequency(i, 2 * first@.len() as int)]
                } else {
                    second@[frequency(i, 2 * first@.len() as int)]
                },
        ),
{
    let ghost before = table@;
    let ghost row = Seq::new(
        2 * first@.len(),
        |i: int|
            if subtracts(i, 2 * first@.len() as int) {
                first@[frequency(i, 2 * first@.len() as int)]
            } else {
                second@[frequency(i, 2 * first@.len() as int)]
            },
    );
    let mut i: usize = 0;
    assert(table@ =~= before + row.take(0));
    while i < first.len()
        invariant
            i <= first@.len(),
            row.len() == 2 * first@.len(),
            forall|j: int| 0 <= j < first@.len() ==> row[j] == first@[j],
            table@ == before + row.take(i as int),
        decreases first@.len() - i,
    {
        table.push(first[i]);
        i = i + 1;
        assert(table@ =~= before + row.take(i as int));
    }
    let mut k: usize = 0;
    while k < second.len()
        invariant
            k <= second@.len(),
            first@.len() == second@.len(),
            row.len() == 2 * first@.len(),
            forall|j: int| 0 <= j < second@.len() ==> row[first@.len() + j] == second@[j],
            table@ == before + row.take(first@.len() + k),
        decreases second@.len() - k,
    {
        table.push(second[k]);
        k = k + 1;
        assert(table@ =~= before + row.take(first@.len() + k));
    }
    assert(row.take(row.len() as int) =~= row);
}

/// The rotation pairs the channels of a head: each is its partner's partner,
/// the two turn with the same frequency, and exactly one of them subtracts the
/// other.
pub proof fn law_rotation_pairs_channels(i: int, dim: int)
    requires
        dim % 2 == 0,
        0 <= i < dim,
    ensures
        0 <= partner(i, dim) < dim,
        partner(i, dim) != i,
        partner(partner(i, dim), dim) == i,
        frequency(partner(i, dim), dim) == frequency(i, dim),
        0 <= frequency(i, dim) < dim / 2,
        subtracts(partner(i, dim), dim) != subtracts(i, dim),
{
}

/// The shape of the keys and of the values a decoder layer keeps, for a
/// sequence of at most `capacity` tokens.
pub fn cache_dims(cfg: &TextConfig, capacity: usize) -> (res: [usize; 4])
    requires
        cfg.has_heads(),
    ensures
        res@ == seq![1usize, cfg.num_key_value_heads, capacity, cfg.head_width() as usize],
{
    let dims: [usize; 4] = [1, cfg.num_key_value_heads, capacity, cfg.head_dim()];
    assert(dims@ =~= seq![1usize, cfg.num_key_value_heads, capacity, cfg.head_width() as usize]);
    dims
}

/// Where a pass of `len` tokens from `offset` on writes its keys and values,
/// and how far it attends: the position past the last it writes. Or what is
/// wrong, when the caches are too short.
pub fn prefill_end(offset: usize, len: usize, capacity: usize) -> (res: Result<usize, String>)
    requires
        offset + len <= usize::MAX,
    ensures
        match res {
            Ok(end) => end == offset + len && end <= capacity,
            Err(e) => offset + len > capacity && e@ == "positions "@ + decimal(offset as nat)
                + ".."@ + decimal((offset + len) as nat) + " are past the "@ + decimal(
                capacity as nat,
            ) + " the state holds"@,
        },
{
    if offset + len <= capacity {
        Ok(offset + len)
    } else {
        let mut e = "positions ".to_string();
        e.append(&decimal_of(offset as u64));
        e.append("..");
        e.append(&decimal_of((offset + len) as u64));
        e.append(" are past the ");
        e.append(&decimal_of(capacity as u64));
        e.append(" the state holds");
        Err(e)
    }
}

/// Whether an audio tower layer clamps its output: in half precision, where an
/// activation past the type's range would become an infinity and poison the
/// attention of every layer after it. The other types have the range.
pub fn clamps(dtype: Dtype) -> (res: bool)
    ensures
        res == (dtype == Dtype::F16),
{
    dtype == Dtype::F16
}

/// Token ids as the numbers an embedding is looked up by.
pub fn lookup_ids(ids: &[u32]) -> (res: Vec<i64>)
    ensures
        res@ == Seq::new(ids@.len(), |i: int| ids@[i] as i64),
{
    let mut res: Vec<i64> = Vec::new();
    let mut i: usize = 0;
    while i < ids.len()
        invariant
            i <= ids@.len(),
            res@.len() == i,
            forall|j: int| 0 <= j < i ==> res@[j] == ids@[j] as i64,
        decreases ids@.len() - i,
    {
        res.push(ids[i] as i64);
        i = i + 1;
    }
    assert(res@ =~= Seq::new(ids@.len(), |i: int| ids@[i] as i64));
    res
}

/// How many embeddings the projector makes of `elements` values when it folds
/// `fold` of them into each, or `None` when they do not come out even.
pub fn projected_rows(elements: usize, fold: usize) -> (res: Option<usize>)
    requires
        fold > 0,
    ensures
        match res {
            Some(rows) => rows * fold == elements,
            None => elements % fold != 0,
        },
{
    let rows: usize = elements / fold;
    proof {
        lemma_fundamental_div_mod(elements as int, fold as int);
        assert(rows * fold == fold * rows) by (nonlinear_arith);
    }
    if elements % fold == 0 {
        Some(rows)
    } else {
        None
    }
}

/// How many placeholders the prompt of `chunks` chunks of audio has.
pub open spec fn placeholders(cfg: VoxtralConfig, chunks: nat) -> nat {
    chunks * (cfg.audio_config.max_source_positions as nat / cfg.fold())
}

/// How many placeholders the prompt of `chunks` chunks of audio has.
pub fn audio_tokens(cfg: &VoxtralConfig, chunks: usize) -> (res: usize)
    requires
        cfg.audio_config.hidden_size > 0,
        cfg.fold() > 0,
        placeholders(*cfg, chunks as nat) <= usize::MAX,
    ensures
        res == placeholders(*cfg, chunks as nat),
{
    chunks * cfg.audio_tokens_per_chunk()
}

/// The audio has an embedding for every placeholder of its prompt: what the
/// audio tower makes of `chunks` chunks is folded into exactly as many rows.
/// A chunk's frames come out even over its embeddings.
pub proof fn law_the_audio_fills_its_placeholders(cfg: VoxtralConfig, chunks: nat, rows: nat)
    requires
        cfg.problem() is None,
        cfg.fold() > 0,
        cfg.audio_config.max_source_positions as nat % cfg.fold() == 0,
        rows * cfg.audio_config.intermediate_size == chunks * cfg.audio_config.max_source_positions
            * cfg.audio_config.hidden_size,
    ensures
        rows == placeholders(cfg, chunks),
{
    let wide = cfg.audio_config.intermediate_size as int;
    let d = cfg.audio_config.hidden_size as int;
    let frames = cfg.audio_config.max_source_positions as int;
    let fold = cfg.fold() as int;
    lemma_fundamental_div_mod(wide, d);
    lemma_fundamental_div_mod(frames, fold);
    let each = frames / fold;
    let n = chunks as int;
    let r = rows as int;
    assert(r == n * each) by (nonlinear_arith)
        requires
            wide == d * fold,
            frames == fold * each,
            r * wide == n * frames * d,
            d > 0,
            fold > 0,
    {
        assert(r * (d * fold) == n * (fold * each) * d);
        assert(n * (fold * each) * d == (n * each) * (d * fold)) by (nonlinear_arith);
        assert(d * fold > 0) by (nonlinear_arith)
            requires
                d > 0,
                fold > 0,
        ;
        assert(r == n * each) by (nonlinear_arith)
            requires
                r * (d * fold) == (n * each) * (d * fold),
                d * fold > 0,
        ;
    }
}

/// A channel of the first half of a head turns with the channel half a head
/// on, at the frequency of its own number, and subtracts it; the other one
/// turns with it, at the same frequency, and adds it.
pub proof fn law_the_two_halves_of_a_head_turn_together(i: int, half: int)
    requires
        0 <= i < half,
    ensures
        partner(i, 2 * half) == i + half,
        partner(i + half, 2 * half) == i,
        frequency(i, 2 * half) == i,
        frequency(i + half, 2 * half) == i,
        subtracts(i, 2 * half),
        !subtracts(i + half, 2 * half),
{
}

/// The groups of query heads are as large as they come out over the key/value
/// heads, and a query head's place in its group goes by its number.
pub proof fn law_groups_share_out_the_query_heads(kv_heads: nat, size: nat, g: int, r: int)
    requires
        kv_heads > 0,
    ensures
        group_size(kv_heads * size, kv_heads) == size,
        fused(g, r, size as int) == g * size + r,
{
    assert(kv_heads * size == size * kv_heads) by (nonlinear_arith);
    vstd::arithmetic::div_mod::lemma_fundamental_div_mod_converse(
        (kv_heads * size) as int,
        kv_heads as int,
        size as int,
        0,
    );
}

/// A clip has as many placeholders for each of its chunks.
pub proof fn law_each_chunk_has_its_placeholders(cfg: VoxtralConfig, a: nat, b: nat)
    ensures
        placeholders(cfg, a + b) == placeholders(cfg, a) + placeholders(cfg, b),
        placeholders(cfg, 1) == cfg.audio_config.max_source_positions as nat / cfg.fold(),
        placeholders(cfg, 0) == 0,
{
    let each = cfg.audio_config.max_source_positions as nat / cfg.fold();
    assert((a + b) * each == a * each + b * each) by (nonlinear_arith);
    assert(1 * each == each && 0 * each == 0) by (nonlinear_arith);
}

} // verus!
