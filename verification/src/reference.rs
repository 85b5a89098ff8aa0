//! The tool that dumps every layer of candle's own Voxtral over one clip, for
//! a comparison layer by layer: its arguments, its inputs and its settings.

use vstd::prelude::*;

use crate::checkpoint::Dtype;
use crate::config::Activation;
use crate::prompt::{hint, hint_fits, prompt, prompted};
use crate::protocol::chars;
use crate::text::{
    concat, debug_option, decimal, decimal_of, same_text, shown_option, texts,
};
use crate::tokenizer::{encodes, recipe_of, TotalTokenizer, MAX_TEXT};

verus! {

/// What the tool is asked to do.
#[derive(Debug)]
pub struct Arguments {
    /// Where the checkpoint is, the clip, and where the dump goes.
    pub paths: Vec<String>,
    pub dtype: Dtype,
    pub lang: String,
}

/// `Arguments` with their texts as sequences of characters.
pub struct ArgumentsView {
    pub paths: Seq<Seq<char>>,
    pub dtype: Dtype,
    pub lang: Seq<char>,
}

impl View for Arguments {
    type V = ArgumentsView;

    open spec fn view(&self) -> ArgumentsView {
        ArgumentsView { paths: texts(self.paths@), dtype: self.dtype, lang: self.lang@ }
    }
}

/// The type called `name`.
pub open spec fn dtype_named(name: Option<Seq<char>>) -> Option<Dtype> {
    match name {
        Some(n) => if n == "f32"@ {
            Some(Dtype::F32)
        } else if n == "f16"@ {
            Some(Dtype::F16)
        } else if n == "bf16"@ {
            Some(Dtype::BF16)
        } else {
            None
        },
        None => None,
    }
}

/// What is read from `args` behind what was read `so_far`.
pub open spec fn read_args(args: Seq<Seq<char>>, so_far: ArgumentsView) -> Result<
    ArgumentsView,
    Seq<char>,
>
    decreases args.len(),
{
    if args.len() == 0 {
        Ok(so_far)
    } else if args[0] == "--dtype"@ {
        let name = if args.len() > 1 {
            Some(args[1])
        } else {
            None
        };
        match dtype_named(name) {
            Some(dtype) => read_args(args.skip(2), ArgumentsView { dtype, ..so_far }),
            None => Err("--dtype takes f32, f16 or bf16, not "@ + debug_option(name)),
        }
    } else if args[0] == "--lang"@ {
        if args.len() > 1 {
            read_args(args.skip(2), ArgumentsView { lang: args[1], ..so_far })
        } else {
            Err("--lang takes a code"@)
        }
    } else {
        read_args(args.skip(1), ArgumentsView { paths: so_far.paths.push(args[0]), ..so_far })
    }
}

/// What is read before the first argument.
pub open spec fn no_arguments() -> ArgumentsView {
    ArgumentsView { paths: seq![], dtype: Dtype::F32, lang: "en"@ }
}

/// What the tool says of arguments that are not three paths.
pub open spec fn usage() -> Seq<char> {
    "usage: voxtral-candle-reference <model-dir> <clip.wav> <out.safetensors> [--dtype f32|f16|bf16] [--lang en]"@
}

/// What `args` ask for, or what is wrong with them.
pub open spec fn parsed_args(args: Seq<Seq<char>>) -> Result<ArgumentsView, Seq<char>> {
    match read_args(args, no_arguments()) {
        Ok(read) => if read.paths.len() == 3 {
            Ok(read)
        } else {
            Err(usage())
        },
        Err(e) => Err(e),
    }
}

/// The type called `name`.
fn dtype_of(name: &Option<String>) -> (res: Option<Dtype>)
    ensures
        res == dtype_named(chars(*name)),
{
    match name {
        Some(n) => if same_text(n, "f32") {
            Some(Dtype::F32)
        } else if same_text(n, "f16") {
            Some(Dtype::F16)
        } else if same_text(n, "bf16") {
            Some(Dtype::BF16)
        } else {
            None
        },
        None => None,
    }
}

/// What `args` ask for, or what is wrong with them.
pub fn parse_args(args: &Vec<String>) -> (res: Result<Arguments, String>)
    ensures
        match res {
            Ok(read) => parsed_args(texts(args@)) == Ok::<ArgumentsView, Seq<char>>(read@),
            Err(e) => parsed_args(texts(args@)) == Err::<ArgumentsView, Seq<char>>(e@),
        },
{
    let ghost all = texts(args@);
    let mut read = Arguments { paths: Vec::new(), dtype: Dtype::F32, lang: "en".to_string() };
    let mut i: usize = 0;
    proof {
        assert(texts(read.paths@) =~= seq![]);
        assert(all.skip(0) =~= all);
    }
    while i < args.len()
        invariant
            i <= args@.len(),
            all == texts(args@),
            read_args(all, no_arguments()) == read_args(all.skip(i as int), read@),
        decreases args@.len() - i,
    {
        let ghost rest = all.skip(i as int);
        let ghost before = read@;
        assert(rest[0] == args@[i as int]@);
        if same_text(&args[i], "--dtype") {
            let name: Option<String> = if i + 1 < args.len() {
                Some(args[i + 1].clone())
            } else {
                None
            };
            assert(rest.len() > 1 ==> rest[1] == args@[i + 1]@);
            match dtype_of(&name) {
                Some(dtype) => {
                    read.dtype = dtype;
                },
                None => {
                    return Err(
                        concat("--dtype takes f32, f16 or bf16, not ", &shown_option(&name)),
                    );
                },
            }
            assert(rest.skip(2) =~= all.skip(i + 2));
            assert(read@ == (ArgumentsView { dtype: read.dtype, ..before }));
            i = i + 2;
        } else if same_text(&args[i], "--lang") {
            if i + 1 >= args.len() {
                return Err("--lang takes a code".to_string());
            }
            read.lang = args[i + 1].clone();
            assert(rest[1] == args@[i + 1]@);
            assert(rest.skip(2) =~= all.skip(i + 2));
            i = i + 2;
        } else {
            let ghost paths = read.paths@;
            read.paths.push(args[i].clone());
            assert(texts(read.paths@) =~= texts(paths).push(args@[i as int]@));
            assert(rest.skip(1) =~= all.skip(i + 1));
            i = i + 1;
        }
    }
    if read.paths.len() != 3 {
        return Err(
            "usage: voxtral-candle-reference <model-dir> <clip.wav> <out.safetensors> [--dtype f32|f16|bf16] [--lang en]".to_string(),
        );
    }
    Ok(read)
}

/// Whether the clip at `shown` can be dumped: one channel, at the rate the
/// backend is sent audio in.
pub fn check_wav(shown: &str, channels: u16, sample_rate: u32) -> (res: Result<(), String>)
    ensures
        match res {
            Ok(()) => channels == 1 && sample_rate == 16_000,
            Err(e) => if channels != 1 {
                e@ == shown@ + " is not mono"@
            } else {
                sample_rate != 16_000 && e@ == shown@ + " is "@ + decimal(sample_rate as nat)
                    + " Hz; the backend is sent 16000 Hz"@
            },
        },
{
    if channels != 1 {
        return Err(concat(shown, " is not mono"));
    }
    if sample_rate != 16_000 {
        let mut e = concat(shown, " is ");
        e.append(&decimal_of(sample_rate as u64));
        e.append(" Hz; the backend is sent 16000 Hz");
        return Err(e);
    }
    Ok(())
}

/// Placeholder tokens one chunk of audio fills in candle's prompt.
pub const TOKENS_PER_CHUNK: usize = 375;

/// The prompt of a clip of `chunks` chunks. The placeholder's id has to be a
/// token's. The tokenizer has tokens for the hint.
pub fn reference_prompt(
    tokenizer: &tekken::Tekkenizer,
    chunks: usize,
    audio_token_id: usize,
    lang: &str,
) -> (res: Result<Vec<u32>, String>)
    requires
        chunks * TOKENS_PER_CHUNK <= usize::MAX,
        audio_token_id <= u32::MAX ==> encodes(recipe_of(*tokenizer), hint(lang@)),
    ensures
        match res {
            Ok(tokens) => audio_token_id <= u32::MAX && tokens@ == prompted(
                recipe_of(*tokenizer),
                (chunks * TOKENS_PER_CHUNK) as nat,
                audio_token_id as u32,
                lang@,
            ),
            Err(e) => audio_token_id > u32::MAX && e@
                == "out of range integral type conversion attempted"@,
        },
{
    if audio_token_id as u64 > 0xFFFF_FFFF {
        return Err("out of range integral type conversion attempted".to_string());
    }
    prompt(tokenizer, chunks * TOKENS_PER_CHUNK, audio_token_id as u32, lang)
}

/// `reference_prompt` with a tokenizer that is known to be total, or `None`
/// where the hint is too long to know.
pub fn checked_reference_prompt(
    tokenizer: &TotalTokenizer,
    chunks: usize,
    audio_token_id: usize,
    lang: &str,
) -> (res: Option<Result<Vec<u32>, String>>)
    requires
        chunks * TOKENS_PER_CHUNK <= usize::MAX,
    ensures
        match res {
            Some(Ok(tokens)) => hint(lang@).len() <= MAX_TEXT && audio_token_id <= u32::MAX
                && tokens@ == prompted(
                tokenizer@,
                (chunks * TOKENS_PER_CHUNK) as nat,
                audio_token_id as u32,
                lang@,
            ),
            Some(Err(e)) => hint(lang@).len() <= MAX_TEXT && audio_token_id > u32::MAX && e@
                == "out of range integral type conversion attempted"@,
            None => hint(lang@).len() > MAX_TEXT,
        },
{
    if hint_fits(lang) {
        Some(reference_prompt(tokenizer.inner(), chunks, audio_token_id, lang))
    } else {
        None
    }
}

/// The activation candle has under `name`.
pub fn activation(name: &str) -> (res: Result<Activation, String>)
    ensures
        match res {
            Ok(a) => (a == Activation::Gelu && name@ == "gelu"@) || (a == Activation::Relu && name@
                == "relu"@),
            Err(e) => name@ != "gelu"@ && name@ != "relu"@ && e@ == "unsupported activation "@
                + name@,
        },
{
    if same_text(name, "gelu") {
        Ok(Activation::Gelu)
    } else if same_text(name, "relu") {
        Ok(Activation::Relu)
    } else {
        Err(concat("unsupported activation ", name))
    }
}

/// Which keys are hidden from the queries of `seq_len` tokens behind
/// `index_pos` others, row by row: a `1` for each key after the query's own.
pub open spec fn causal(seq_len: nat, index_pos: nat) -> Seq<u8> {
    let kv_len = (index_pos + seq_len) as int;
    Seq::new(
        seq_len * (index_pos + seq_len),
        |c: int|
            if c % kv_len > index_pos + c / kv_len {
                1u8
            } else {
                0u8
            },
    )
}

/// The mask of `seq_len` tokens behind `index_pos` others.
fn causal_mask(seq_len: usize, index_pos: usize) -> (res: Vec<u8>)
    requires
        seq_len * (index_pos + seq_len) <= usize::MAX,
        index_pos + seq_len <= usize::MAX,
    ensures
        res@ == causal(seq_len as nat, index_pos as nat),
{
    let kv_len: usize = index_pos + seq_len;
    let mut res: Vec<u8> = Vec::new();
    let mut i: usize = 0;
    while i < seq_len
        invariant
            i <= seq_len,
            kv_len == index_pos + seq_len,
            res@.len() == i * kv_len,
            forall|c: int|
                0 <= c < res@.len() ==> #[trigger] res@[c] == (if c % kv_len as int > index_pos + c
                    / kv_len as int {
                    1u8
                } else {
                    0u8
                }),
        decreases seq_len - i,
    {
        let mut j: usize = 0;
        while j < kv_len
            invariant
                i < seq_len,
                j <= kv_len,
                kv_len == index_pos + seq_len,
                res@.len() == i * kv_len + j,
                forall|c: int|
                    0 <= c < res@.len() ==> #[trigger] res@[c] == (if c % kv_len as int > index_pos
                        + c / kv_len as int {
                        1u8
                    } else {
                        0u8
                    }),
            decreases kv_len - j,
        {
            proof {
                vstd::arithmetic::div_mod::lemma_fundamental_div_mod_converse(
                    res@.len() as int,
                    kv_len as int,
                    i as int,
                    j as int,
                );
            }
            if j > index_pos + i {
                res.push(1);
            } else {
                res.push(0);
            }
            j = j + 1;
        }
        i = i + 1;
        assert(i * kv_len == (i - 1) * kv_len + kv_len) by (nonlinear_arith);
    }
    assert(res@ =~= causal(seq_len as nat, index_pos as nat));
    res
}

/// The masks that were built, by the number of queries and of keys.
#[derive(Debug)]
pub struct Masks {
    built: Vec<(usize, usize, Vec<u8>)>,
}

impl Masks {
    /// The pairs there are masks of: a number of queries and one of keys, in
    /// the order they were built.
    pub closed spec fn pairs(&self) -> Seq<(usize, usize)> {
        Seq::new(self.built@.len(), |m: int| (self.built@[m].0, self.built@[m].1))
    }

    /// Every mask is the one its numbers of queries and keys give.
    pub closed spec fn wf(&self) -> bool {
        forall|m: int|
            0 <= m < self.built@.len() ==> (#[trigger] self.built@[m]).0 <= self.built@[m].1
                && self.built@[m].2@ == causal(
                self.built@[m].0 as nat,
                (self.built@[m].1 - self.built@[m].0) as nat,
            )
    }

    /// No masks yet.
    pub fn new() -> (res: Self)
        ensures
            res.wf(),
            res.pairs() == Seq::<(usize, usize)>::empty(),
    {
        let res = Masks { built: Vec::new() };
        assert(res.pairs() =~= Seq::<(usize, usize)>::empty());
        res
    }

    /// The mask of `seq_len` tokens behind `index_pos` others. It is built
    /// once for every pair of a number of queries and a number of keys.
    pub fn mask(&mut self, seq_len: usize, index_pos: usize) -> (res: Vec<u8>)
        requires
            old(self).wf(),
            seq_len * (index_pos + seq_len) <= usize::MAX,
            index_pos + seq_len <= usize::MAX,
        ensures
            final(self).wf(),
            res@ == causal(seq_len as nat, index_pos as nat),
            ({
                let pair = (seq_len, (index_pos + seq_len) as usize);
                if old(self).pairs().contains(pair) {
                    *final(self) == *old(self)
                } else {
                    final(self).pairs() == old(self).pairs().push(pair)
                }
            }),
    {
        let kv_len: usize = index_pos + seq_len;
        let ghost before = *self;
        let mut m: usize = 0;
        while m < self.built.len()
            invariant
                m <= self.built@.len(),
                *self == before,
                before == *old(self),
                self.wf(),
                kv_len == index_pos + seq_len,
                forall|j: int| 0 <= j < m ==> #[trigger] before.pairs()[j] != (seq_len, kv_len),
            decreases self.built@.len() - m,
        {
            if self.built[m].0 == seq_len && self.built[m].1 == kv_len {
                assert(before.pairs()[m as int] == (seq_len, kv_len));
                return copied(&self.built[m].2);
            }
            m = m + 1;
        }
        let mask: Vec<u8> = causal_mask(seq_len, index_pos);
        self.built.push((seq_len, kv_len, copied(&mask)));
        assert(self.pairs() =~= before.pairs().push((seq_len, kv_len)));
        mask
    }
}

/// The bytes of `bytes`.
fn copied(bytes: &Vec<u8>) -> (res: Vec<u8>)
    ensures
        res@ == bytes@,
{
    let mut res: Vec<u8> = Vec::new();
    let mut i: usize = 0;
    while i < bytes.len()
        invariant
            i <= bytes@.len(),
            res@ == bytes@.take(i as int),
        decreases bytes@.len() - i,
    {
        res.push(bytes[i]);
        i = i + 1;
        assert(res@ =~= bytes@.take(i as int));
    }
    assert(bytes@.take(bytes@.len() as int) =~= bytes@);
    res
}

/// A query sees the keys up to its own and no other: of the keys before the
/// tokens every one, of the tokens' own those up to it.
pub proof fn law_a_query_sees_the_keys_up_to_its_own(
    seq_len: nat,
    index_pos: nat,
    query: int,
    key: int,
)
    requires
        0 <= query < seq_len,
        0 <= key < index_pos + seq_len,
    ensures
        ({
            let c = query * (index_pos + seq_len) + key;
            &&& 0 <= c < causal(seq_len, index_pos).len()
            &&& causal(seq_len, index_pos)[c] == 0 <==> key <= index_pos + query
        }),
{
    let kv_len = (index_pos + seq_len) as int;
    let c = query * kv_len + key;
    vstd::arithmetic::div_mod::lemma_fundamental_div_mod_converse(c, kv_len, query, key);
    assert(0 <= c < seq_len * kv_len) by (nonlinear_arith)
        requires
            c == query * kv_len + key,
            0 <= query < seq_len,
            0 <= key < kv_len,
    ;
    assert(seq_len * (index_pos + seq_len) == seq_len * kv_len);
}

/// Arguments are read from left to right: an option takes the one behind it,
/// the last of a kind counts, and anything else is a path, in the order given.
pub proof fn law_arguments_are_read_from_left_to_right(
    path: Seq<char>,
    value: Seq<char>,
    rest: Seq<Seq<char>>,
    so_far: ArgumentsView,
)
    requires
        path != "--dtype"@,
        path != "--lang"@,
    ensures
        read_args(Seq::empty(), so_far) == Ok::<ArgumentsView, Seq<char>>(so_far),
        read_args(seq![path] + rest, so_far) == read_args(
            rest,
            ArgumentsView { paths: so_far.paths.push(path), ..so_far },
        ),
        read_args(seq!["--lang"@, value] + rest, so_far) == read_args(
            rest,
            ArgumentsView { lang: value, ..so_far },
        ),
        value == "f32"@ ==> read_args(seq!["--dtype"@, value] + rest, so_far) == read_args(
            rest,
            ArgumentsView { dtype: Dtype::F32, ..so_far },
        ),
        value == "f16"@ ==> read_args(seq!["--dtype"@, value] + rest, so_far) == read_args(
            rest,
            ArgumentsView { dtype: Dtype::F16, ..so_far },
        ),
        value == "bf16"@ ==> read_args(seq!["--dtype"@, value] + rest, so_far) == read_args(
            rest,
            ArgumentsView { dtype: Dtype::BF16, ..so_far },
        ),
        value != "f32"@ && value != "f16"@ && value != "bf16"@ ==> read_args(
            seq!["--dtype"@, value] + rest,
            so_far,
        ) == Err::<ArgumentsView, Seq<char>>(
            "--dtype takes f32, f16 or bf16, not "@ + debug_option(Some(value)),
        ),
        read_args(seq!["--dtype"@], so_far) == Err::<ArgumentsView, Seq<char>>(
            "--dtype takes f32, f16 or bf16, not "@ + debug_option(None),
        ),
        read_args(seq!["--lang"@], so_far) == Err::<ArgumentsView, Seq<char>>(
            "--lang takes a code"@,
        ),
{
    reveal_strlit("--dtype");
    reveal_strlit("--lang");
    reveal_strlit("f32");
    reveal_strlit("f16");
    reveal_strlit("bf16");
    assert("--dtype"@.len() != "--lang"@.len());
    assert("f32"@[1] == '3' && "f16"@[1] == '1');
    assert("bf16"@.len() == 4);
    assert((seq![path] + rest).skip(1) =~= rest);
    assert((seq!["--lang"@, value] + rest).skip(2) =~= rest);
    assert((seq!["--dtype"@, value] + rest).skip(2) =~= rest);
}

/// The tool takes three paths, in single precision and English where it is not
/// told otherwise, and says how it is used where it gets any other number.
pub proof fn law_the_tool_takes_three_paths(args: Seq<Seq<char>>, a: Arguments)
    ensures
        ({
            let start = ArgumentsView { paths: seq![], dtype: Dtype::F32, lang: "en"@ };
            parsed_args(args) == (match read_args(args, start) {
                Ok(read) => if read.paths.len() == 3 {
                    Ok(read)
                } else {
                    Err(
                        "usage: voxtral-candle-reference <model-dir> <clip.wav> <out.safetensors> [--dtype f32|f16|bf16] [--lang en]"@,
                    )
                },
                Err(e) => Err(e),
            })
        }),
        a@.paths == texts(a.paths@) && a@.dtype == a.dtype && a@.lang == a.lang@,
{
}

/// A mask has a row for every query and a column for every key, and hides a key
/// with a one.
pub proof fn law_a_mask_hides_with_ones(seq_len: nat, index_pos: nat, query: int, key: int)
    requires
        0 <= query < seq_len,
        0 <= key < index_pos + seq_len,
    ensures
        causal(seq_len, index_pos).len() == seq_len * (index_pos + seq_len),
        causal(seq_len, index_pos)[query * (index_pos + seq_len) + key] == (if key > index_pos
            + query {
            1u8
        } else {
            0u8
        }),
{
    law_a_query_sees_the_keys_up_to_its_own(seq_len, index_pos, query, key);
}

} // verus!
