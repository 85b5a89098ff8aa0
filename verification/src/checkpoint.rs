//! Loading a sharded checkpoint: what its tensors are called, which of them
//! are cast on every core, and whether the shards together filled the model.

use vstd::prelude::*;

use crate::arith::{ceil_div, div_ceil, lemma_ceil_div};
use crate::text::{
    begins_with, between, chars_of, debug_list, decimal, decimal_of, has_prefix, has_text,
    join_texts, joined_texts, same_text, shown_list, text_of, texts,
};

verus! {

/// The types a tensor's values come in here.
#[derive(Debug, Clone, Copy, PartialEq, Eq, Structural)]
pub enum Dtype {
    /// IEEE 754 half precision.
    F16,
    /// The upper half of an IEEE 754 single.
    BF16,
    /// IEEE 754 single precision.
    F32,
    /// Anything else.
    Other,
}

/// Maps the checkpoint's parameter names onto the modules'. The normalization
/// layers call theirs `gamma` and `beta`, the checkpoint `weight` and `bias`;
/// the linear weights keep both their names and their layout.
#[derive(Debug, Clone, Copy)]
pub struct CheckpointAdapter;

/// Whether a module of this type is a normalization layer.
pub open spec fn is_normalization(module_type: Seq<char>) -> bool {
    ||| module_type == "Struct:BatchNorm"@
    ||| module_type == "Struct:LayerNorm"@
    ||| module_type == "Struct:GroupNorm"@
    ||| module_type == "Struct:RmsNorm"@
}

/// The index at which the last segment of a dotted name begins.
pub open spec fn last_segment(name: Seq<char>) -> int
    decreases name.len(),
{
    if name.len() == 0 || name.last() == '.' {
        name.len() as int
    } else {
        last_segment(name.drop_last())
    }
}

/// What a normalization layer calls the parameter the checkpoint calls `own`.
pub open spec fn norm_name(own: Seq<char>) -> Option<Seq<char>> {
    if own == "weight"@ {
        Some("gamma"@)
    } else if own == "bias"@ {
        Some("beta"@)
    } else {
        None
    }
}

/// The name of the tensor `name`, found in a module of type `module_type`,
/// once it is adapted.
pub open spec fn adapted(name: Seq<char>, module_type: Option<Seq<char>>) -> Seq<char> {
    let start = last_segment(name);
    match module_type {
        Some(t) if is_normalization(t) => match norm_name(name.skip(start)) {
            Some(renamed) => name.take(start) + renamed,
            None => name,
        },
        _ => name,
    }
}

/// The name the checkpoint has for a parameter that a module of type
/// `module_type` calls `name`, where it is another one.
pub open spec fn alternative(name: Seq<char>, module_type: Seq<char>) -> Option<Seq<char>> {
    if !is_normalization(module_type) {
        None
    } else if name == "gamma"@ {
        Some("weight"@)
    } else if name == "beta"@ {
        Some("bias"@)
    } else {
        None
    }
}

/// The characters of a text that may be absent.
pub open spec fn borrowed(text: Option<&str>) -> Option<Seq<char>> {
    match text {
        Some(s) => Some(s@),
        None => None,
    }
}

proof fn lemma_last_segment_of(before: Seq<char>, own: Seq<char>)
    requires
        before.len() == 0 || before.last() == '.',
        forall|i: int| 0 <= i < own.len() ==> own[i] != '.',
    ensures
        last_segment(before + own) == before.len(),
    decreases own.len(),
{
    let whole = before + own;
    if own.len() == 0 {
        assert(whole =~= before);
    } else {
        assert(whole.last() == own.last());
        assert(whole.drop_last() =~= before + own.drop_last());
        lemma_last_segment_of(before, own.drop_last());
    }
}

impl CheckpointAdapter {
    /// Whether a module of this type is a normalization layer.
    pub fn is_normalization_layer(module_type: &str) -> (res: bool)
        ensures
            res == is_normalization(module_type@),
    {
        same_text(module_type, "Struct:BatchNorm") || same_text(module_type, "Struct:LayerNorm")
            || same_text(module_type, "Struct:GroupNorm") || same_text(
            module_type,
            "Struct:RmsNorm",
        )
    }

    /// The name of the tensor `name`, found in a module of type `module_type`,
    /// once it is adapted.
    pub fn adapt(&self, name: &str, module_type: Option<&str>) -> (res: String)
        ensures
            res@ == adapted(name@, borrowed(module_type)),
    {
        let normalization = match module_type {
            Some(t) => Self::is_normalization_layer(t),
            None => false,
        };
        if !normalization {
            return name.to_string();
        }
        let all: Vec<char> = chars_of(name);
        let mut start: usize = all.len();
        assert(all@.take(start as int) =~= all@);
        while start > 0 && all[start - 1] != '.'
            invariant
                start <= all@.len(),
                last_segment(all@) == last_segment(all@.take(start as int)),
            decreases start,
        {
            assert(all@.take(start as int).drop_last() =~= all@.take(start - 1));
            start = start - 1;
        }
        assert(start == last_segment(all@));
        assert(all@.skip(start as int) =~= all@.subrange(start as int, all@.len() as int));
        assert(all@.take(start as int) =~= all@.subrange(0, start as int));
        let own = text_of(&between(&all, start, all.len()));
        let mut renamed = text_of(&between(&all, 0, start));
        if same_text(&own, "weight") {
            renamed.append("gamma");
        } else if same_text(&own, "bias") {
            renamed.append("beta");
        } else {
            return name.to_string();
        }
        renamed
    }

    /// The name the checkpoint has for a parameter that a module of type
    /// `module_type` calls `param_name`, where it is another one.
    pub fn get_alternative_param_name(&self, param_name: &str, module_type: &str) -> (res: Option<
        String,
    >)
        ensures
            crate::protocol::chars(res) == alternative(param_name@, module_type@),
    {
        if !Self::is_normalization_layer(module_type) {
            return None;
        }
        if same_text(param_name, "gamma") {
            Some("weight".to_string())
        } else if same_text(param_name, "beta") {
            Some("bias".to_string())
        } else {
            None
        }
    }
}

/// The adapter's two directions agree: what it renames a normalization
/// layer's parameter to is a name whose alternative is the checkpoint's own.
pub proof fn law_alternatives_undo_the_renaming(
    before: Seq<char>,
    own: Seq<char>,
    module_type: Seq<char>,
)
    requires
        before.len() == 0 || before.last() == '.',
        own == "weight"@ || own == "bias"@,
        is_normalization(module_type),
    ensures
        ({
            let renamed = adapted(before + own, Some(module_type));
            &&& last_segment(renamed) == before.len()
            &&& renamed.take(before.len() as int) == before
            &&& alternative(renamed.skip(before.len() as int), module_type) == Some(own)
        }),
{
    reveal_strlit("weight");
    reveal_strlit("bias");
    reveal_strlit("gamma");
    reveal_strlit("beta");
    assert("weight"@.len() != "bias"@.len());
    assert("gamma"@.len() != "beta"@.len());
    lemma_last_segment_of(before, own);
    assert((before + own).take(before.len() as int) =~= before);
    assert((before + own).skip(before.len() as int) =~= own);
    let new = norm_name(own)->0;
    lemma_last_segment_of(before, new);
    assert((before + new).take(before.len() as int) =~= before);
    assert((before + new).skip(before.len() as int) =~= new);
}

/// The module the checkpoint's decoder layers and final norm live under.
pub open spec fn decoder_prefix() -> Seq<char> {
    "language_model.model."@
}

/// The name of the checkpoint's tensor `name` among the modules: the decoder
/// layers and the final norm live one level down, in the transformer.
pub open spec fn remapped(name: Seq<char>) -> Seq<char> {
    if begins_with(name, "language_model.model.layers."@) || begins_with(
        name,
        "language_model.model.norm."@,
    ) {
        decoder_prefix() + "transformer."@ + name.skip(decoder_prefix().len() as int)
    } else {
        name
    }
}

/// The name of the checkpoint's tensor `name` among the modules.
pub fn remap(name: &str) -> (res: String)
    ensures
        res@ == remapped(name@),
{
    proof {
        reveal_strlit("language_model.model.");
        reveal_strlit("language_model.model.layers.");
        reveal_strlit("language_model.model.norm.");
    }
    let all: Vec<char> = chars_of(name);
    if has_prefix(&all, &chars_of("language_model.model.layers.")) || has_prefix(
        &all,
        &chars_of("language_model.model.norm."),
    ) {
        let mut res = "language_model.model.".to_string();
        res.append("transformer.");
        let rest = between(&all, 21, all.len());
        assert(rest@ =~= all@.skip(21));
        res.append(&text_of(&rest));
        res
    } else {
        name.to_string()
    }
}

/// A name that was remapped is not remapped again.
pub proof fn law_remapping_happens_once(name: Seq<char>)
    ensures
        remapped(remapped(name)) == remapped(name),
{
    reveal_strlit("language_model.model.");
    reveal_strlit("language_model.model.layers.");
    reveal_strlit("language_model.model.norm.");
    reveal_strlit("transformer.");
    let layers = "language_model.model.layers."@;
    let norm = "language_model.model.norm."@;
    if begins_with(name, layers) || begins_with(name, norm) {
        let new = remapped(name);
        assert(new[21] == 't');
        if begins_with(new, layers) {
            assert(new.take(layers.len() as int)[21] == layers[21]);
        }
        if begins_with(new, norm) {
            assert(new.take(norm.len() as int)[21] == norm[21]);
        }
    }
}

/// Below this many elements a tensor is cast on the calling thread.
pub const PARALLEL_CAST_MIN: usize = 65_536;

/// Whether a tensor of type `dtype` is cast on every core when the model runs
/// in `target`: the checkpoint's weights into half precision. Any other tensor
/// is left to the cast that comes after.
pub fn casts_in_parallel(target: Dtype, dtype: Dtype) -> (res: bool)
    ensures
        res == (target == Dtype::F16 && dtype == Dtype::BF16),
{
    target == Dtype::F16 && dtype == Dtype::BF16
}

/// The threads `len` elements are cast on when `available` can run at once.
pub open spec fn cast_threads(len: nat, available: nat) -> nat {
    let wanted = ceil_div(len, PARALLEL_CAST_MIN as nat);
    let threads = if available < wanted {
        available
    } else {
        wanted
    };
    if threads < 1 {
        1
    } else {
        threads
    }
}

/// How many of `len` elements each thread casts, when `available` can run at
/// once.
pub open spec fn cast_share(len: nat, available: nat) -> nat {
    let share = ceil_div(len, cast_threads(len, available));
    if share < 1 {
        1
    } else {
        share
    }
}

/// How many of `len` elements each thread casts, when `available` can run at
/// once.
pub fn cast_chunk(len: usize, available: usize) -> (res: usize)
    ensures
        res == cast_share(len as nat, available as nat),
{
    let wanted: usize = div_ceil(len, PARALLEL_CAST_MIN);
    let threads: usize = if available < wanted {
        available
    } else {
        wanted
    };
    let threads: usize = if threads < 1 {
        1
    } else {
        threads
    };
    let share: usize = div_ceil(len, threads);
    if share < 1 {
        1
    } else {
        share
    }
}

/// A cast never starts more threads than can run at once, nor than its
/// elements are worth, and a small tensor is cast on one.
pub proof fn law_a_cast_stays_within_its_threads(len: nat, available: nat)
    requires
        available > 0,
    ensures
        ceil_div(len, cast_share(len, available)) <= cast_threads(len, available) <= available,
        len <= PARALLEL_CAST_MIN ==> cast_threads(len, available) == 1,
{
    let threads = cast_threads(len, available);
    let share = ceil_div(len, threads);
    lemma_ceil_div(len, threads);
    lemma_ceil_div(len, PARALLEL_CAST_MIN as nat);
    if len > 0 {
        lemma_ceil_div(len, share);
        let shares = ceil_div(len, share);
        assert(shares <= threads) by (nonlinear_arith)
            requires
                shares * share < len + share,
                len <= share * threads,
                share > 0,
        ;
    }
    if 0 < len <= PARALLEL_CAST_MIN {
        crate::arith::lemma_ceil_div_unique(len, PARALLEL_CAST_MIN as nat, 1);
    }
}

/// What came of loading one shard, which may be partial.
#[derive(Debug, Clone)]
pub struct ShardResult {
    /// What went wrong, as text.
    pub errors: Vec<String>,
    /// The parameters this shard did not carry.
    pub missing: Vec<String>,
    /// The shard's tensors that no parameter claims.
    pub unused: Vec<String>,
}

/// What was reported of every shard, shard after shard.
pub open spec fn gathered(
    results: Seq<ShardResult>,
    pick: spec_fn(ShardResult) -> Seq<Seq<char>>,
) -> Seq<Seq<char>>
    decreases results.len(),
{
    if results.len() == 0 {
        seq![]
    } else {
        gathered(results.drop_last(), pick) + pick(results.last())
    }
}

/// Everything that went wrong.
pub open spec fn all_errors(results: Seq<ShardResult>) -> Seq<Seq<char>> {
    gathered(results, |r: ShardResult| texts(r.errors@))
}

/// Every tensor that no parameter claims.
pub open spec fn all_unused(results: Seq<ShardResult>) -> Seq<Seq<char>> {
    gathered(results, |r: ShardResult| texts(r.unused@))
}

/// Whether every shard reported the parameter `path` missing.
pub open spec fn missing_from_all(results: Seq<ShardResult>, path: Seq<char>) -> bool {
    forall|r: int| 0 <= r < results.len() ==> texts((#[trigger] results[r]).missing@).contains(path)
}

/// The parameters really missing: those that the first shard and every other
/// one reported.
pub open spec fn really_missing(results: Seq<ShardResult>) -> Seq<Seq<char>> {
    texts(results[0].missing@).filter(|path: Seq<char>| missing_from_all(results.skip(1), path))
}

/// How a list of names is told: their number, what is wrong with them, and
/// the first of them, written as `shown`.
pub open spec fn told(count: nat, problem: Seq<char>, shown: Seq<char>) -> Seq<char> {
    decimal(count) + problem + ", e.g. "@ + shown
}

/// The first five of `names`.
pub open spec fn first_few(names: Seq<Seq<char>>) -> Seq<Seq<char>> {
    names.take(if names.len() < 5 {
        names.len() as int
    } else {
        5
    })
}

/// What the shards of a checkpoint come to, together: an error, or nothing to
/// complain of.
pub open spec fn verdict(results: Seq<ShardResult>) -> Option<Seq<char>> {
    if all_errors(results).len() > 0 {
        Some(join_texts(all_errors(results), ", "@))
    } else if results.len() == 0 {
        Some("the checkpoint has no shards"@)
    } else if really_missing(results).len() > 0 {
        Some(
            told(
                really_missing(results).len(),
                " parameters were not found in any shard"@,
                debug_list(first_few(really_missing(results))),
            ),
        )
    } else if all_unused(results).len() > 0 {
        Some(
            told(
                all_unused(results).len(),
                " tensors of the checkpoint belong to no parameter"@,
                debug_list(first_few(all_unused(results))),
            ),
        )
    } else {
        None
    }
}

/// How a list of names is told: their number, what is wrong with them, and
/// the first of them, written as `shown`.
pub fn tell(count: usize, problem: &str, shown: &str) -> (res: String)
    ensures
        res@ == told(count as nat, problem@, shown@),
{
    let mut res = decimal_of(count as u64);
    res.append(problem);
    res.append(", e.g. ");
    res.append(shown);
    res
}

/// Appends copies of `more` to `list`.
fn push_all(list: &mut Vec<String>, more: &Vec<String>)
    ensures
        texts(final(list)@) == texts(old(list)@) + texts(more@),
{
    let ghost before = texts(list@);
    let mut i: usize = 0;
    assert(texts(list@) =~= before + texts(more@).take(0));
    while i < more.len()
        invariant
            i <= more@.len(),
            texts(list@) == before + texts(more@).take(i as int),
        decreases more@.len() - i,
    {
        let ghost sofar = list@;
        list.push(more[i].clone());
        i = i + 1;
        assert(texts(list@) =~= texts(sofar).push(more@[i - 1]@));
        assert(before + texts(more@).take(i as int) =~= (before + texts(more@).take(i - 1)).push(
            more@[i - 1]@,
        ));
    }
    assert(texts(more@).take(more@.len() as int) =~= texts(more@));
}

/// Whether every shard from the second on reported the parameter `path`
/// missing.
fn others_miss(results: &Vec<ShardResult>, path: &str) -> (res: bool)
    requires
        results@.len() > 0,
    ensures
        res == missing_from_all(results@.skip(1), path@),
{
    let ghost rest = results@.skip(1);
    let mut r: usize = 1;
    while r < results.len()
        invariant
            1 <= r <= results@.len(),
            rest == results@.skip(1),
            forall|k: int| 0 <= k < r - 1 ==> texts((#[trigger] rest[k]).missing@).contains(path@),
        decreases results@.len() - r,
    {
        if !has_text(&results[r].missing, path) {
            assert(rest[r - 1] == results@[r as int]);
            return false;
        }
        r = r + 1;
    }
    true
}

/// The first five of `names`.
fn few(names: &Vec<String>) -> (res: Vec<String>)
    ensures
        texts(res@) == first_few(texts(names@)),
{
    let mut res: Vec<String> = Vec::new();
    let mut i: usize = 0;
    while i < names.len() && i < 5
        invariant
            i <= names@.len(),
            i <= 5,
            texts(res@) == texts(names@).take(i as int),
        decreases names@.len() - i,
    {
        let ghost sofar = res@;
        res.push(names[i].clone());
        i = i + 1;
        assert(texts(res@) =~= texts(sofar).push(names@[i - 1]@));
        assert(texts(names@).take(i as int) =~= texts(names@).take(i - 1).push(names@[i - 1]@));
    }
    res
}

/// Folds the outcome of loading every shard of a checkpoint into one verdict.
///
/// A parameter one shard does not carry is reported missing by that shard even
/// when another fills it, so what is really missing is what every shard
/// reported missing. Tensors no parameter claims are an error too: running a
/// checkpoint with weights the model never reads would be quietly wrong.
pub fn check_shards(results: &Vec<ShardResult>) -> (res: Result<(), String>)
    ensures
        match res {
            Ok(()) => verdict(results@) is None,
            Err(e) => verdict(results@) == Some(e@),
        },
{
    let mut errors: Vec<String> = Vec::new();
    let mut unused: Vec<String> = Vec::new();
    let ghost pick_errors = |r: ShardResult| texts(r.errors@);
    let ghost pick_unused = |r: ShardResult| texts(r.unused@);
    let mut r: usize = 0;
    assert(texts(errors@) =~= gathered(results@.take(0), pick_errors));
    assert(texts(unused@) =~= gathered(results@.take(0), pick_unused));
    while r < results.len()
        invariant
            r <= results@.len(),
            pick_errors == (|r: ShardResult| texts(r.errors@)),
            pick_unused == (|r: ShardResult| texts(r.unused@)),
            texts(errors@) == gathered(results@.take(r as int), pick_errors),
            texts(unused@) == gathered(results@.take(r as int), pick_unused),
        decreases results@.len() - r,
    {
        push_all(&mut errors, &results[r].errors);
        push_all(&mut unused, &results[r].unused);
        r = r + 1;
        assert(results@.take(r as int).drop_last() =~= results@.take(r - 1));
        assert(results@.take(r as int).last() == results@[r - 1]);
    }
    assert(results@.take(results@.len() as int) =~= results@);
    assert(texts(errors@) == all_errors(results@));
    assert(texts(unused@) == all_unused(results@));
    if errors.len() > 0 {
        return Err(joined_texts(&errors, ", "));
    }
    if results.len() == 0 {
        return Err("the checkpoint has no shards".to_string());
    }
    let ghost first = texts(results@[0].missing@);
    let ghost everywhere = |path: Seq<char>| missing_from_all(results@.skip(1), path);
    let mut missing: Vec<String> = Vec::new();
    let mut i: usize = 0;
    assert(texts(missing@) =~= first.take(0).filter(everywhere)) by {
        reveal(Seq::filter);
    }
    while i < results[0].missing.len()
        invariant
            results@.len() > 0,
            i <= results@[0].missing@.len(),
            first == texts(results@[0].missing@),
            everywhere == (|path: Seq<char>| missing_from_all(results@.skip(1), path)),
            texts(missing@) == first.take(i as int).filter(everywhere),
        decreases results@[0].missing@.len() - i,
    {
        let ghost sofar = missing@;
        proof {
            reveal(Seq::filter);
            assert(first.take(i + 1).drop_last() =~= first.take(i as int));
            assert(first.take(i + 1).last() == results@[0].missing@[i as int]@);
        }
        if others_miss(results, &results[0].missing[i]) {
            missing.push(results[0].missing[i].clone());
            assert(texts(missing@) =~= texts(sofar).push(results@[0].missing@[i as int]@));
        }
        i = i + 1;
    }
    assert(first.take(first.len() as int) =~= first);
    assert(texts(missing@) == really_missing(results@));
    if missing.len() > 0 {
        let shown = shown_list(&few(&missing));
        return Err(tell(missing.len(), " parameters were not found in any shard", &shown));
    }
    if unused.len() > 0 {
        let shown = shown_list(&few(&unused));
        return Err(
            tell(unused.len(), " tensors of the checkpoint belong to no parameter", &shown),
        );
    }
    Ok(())
}

/// A checkpoint passes exactly when it has shards, nothing went wrong, every
/// parameter was carried by some shard, and every tensor was claimed.
pub proof fn law_a_checkpoint_passes_when_it_fills_the_model(results: Seq<ShardResult>)
    ensures
        verdict(results) is None <==> {
            &&& results.len() > 0
            &&& forall|r: int|
                0 <= r < results.len() ==> (#[trigger] results[r]).errors@.len() == 0
                    && results[r].unused@.len() == 0
            &&& forall|path: Seq<char>| !#[trigger] missing_from_all(results, path)
        },
{
    lemma_gathered_is_empty(results, |r: ShardResult| texts(r.errors@));
    lemma_gathered_is_empty(results, |r: ShardResult| texts(r.unused@));
    let no_errors = forall|r: int|
        0 <= r < results.len() ==> texts((#[trigger] results[r]).errors@).len() == 0;
    let no_unused = forall|r: int|
        0 <= r < results.len() ==> texts((#[trigger] results[r]).unused@).len() == 0;
    assert(no_errors <==> all_errors(results).len() == 0);
    assert(no_unused <==> all_unused(results).len() == 0);
    if results.len() > 0 {
        let first = texts(results[0].missing@);
        let rest = results.skip(1);
        let everywhere = |path: Seq<char>| missing_from_all(rest, path);
        lemma_filter_is_empty(first, everywhere);
        assert forall|path: Seq<char>| #[trigger]
            missing_from_all(results, path) <==> first.contains(path) && everywhere(path) by {
            if missing_from_all(results, path) {
                assert(texts(results[0].missing@).contains(path));
                assert forall|k: int| 0 <= k < rest.len() implies texts(
                    (#[trigger] rest[k]).missing@,
                ).contains(path) by {
                    assert(rest[k] == results[k + 1]);
                }
            }
            if first.contains(path) && everywhere(path) {
                assert forall|r: int| 0 <= r < results.len() implies texts(
                    (#[trigger] results[r]).missing@,
                ).contains(path) by {
                    if r > 0 {
                        assert(rest[r - 1] == results[r]);
                    }
                }
            }
        }
        if first.filter(everywhere).len() > 0 {
            let path = choose|path: Seq<char>| first.contains(path) && everywhere(path);
            assert(missing_from_all(results, path));
        }
        if exists|path: Seq<char>| #[trigger] missing_from_all(results, path) {
            let path = choose|path: Seq<char>| #[trigger] missing_from_all(results, path);
            assert(first.contains(path) && everywhere(path));
        }
    }
}

proof fn lemma_gathered_is_empty(
    results: Seq<ShardResult>,
    pick: spec_fn(ShardResult) -> Seq<Seq<char>>,
)
    ensures
        gathered(results, pick).len() == 0 <==> forall|r: int|
            0 <= r < results.len() ==> pick(#[trigger] results[r]).len() == 0,
    decreases results.len(),
{
    if results.len() > 0 {
        let before = results.drop_last();
        lemma_gathered_is_empty(before, pick);
        if gathered(results, pick).len() == 0 {
            assert forall|r: int| 0 <= r < results.len() implies pick(
                #[trigger] results[r],
            ).len() == 0 by {
                if r < results.len() - 1 {
                    assert(before[r] == results[r]);
                }
            }
        } else if pick(results.last()).len() == 0 {
            let r = choose|r: int| 0 <= r < before.len() && pick(#[trigger] before[r]).len() != 0;
            assert(results[r] == before[r]);
        } else {
            assert(pick(results[results.len() - 1]).len() != 0);
        }
    }
}

proof fn lemma_filter_is_empty(s: Seq<Seq<char>>, keep: spec_fn(Seq<char>) -> bool)
    ensures
        s.filter(keep).len() > 0 <==> exists|x: Seq<char>| s.contains(x) && keep(x),
{
    broadcast use vstd::seq_lib::group_filter_ensures;

    if s.filter(keep).len() > 0 {
        let x = s.filter(keep)[0];
        s.lemma_filter_pred(keep, 0);
        s.lemma_filter_contains_rev(keep, x);
        assert(s.contains(x) && keep(x));
    }
    if exists|x: Seq<char>| s.contains(x) && keep(x) {
        let x = choose|x: Seq<char>| s.contains(x) && keep(x);
        assert(s.filter(keep).contains(x));
    }
}

/// Every tensor of the decoder's layers and of its final norm moves into the
/// transformer, whatever follows, and no other tensor moves.
pub proof fn law_decoder_tensors_move_into_the_transformer(rest: Seq<char>, name: Seq<char>)
    ensures
        remapped("language_model.model.layers."@ + rest)
            == "language_model.model.transformer.layers."@ + rest,
        remapped("language_model.model.norm."@ + rest)
            == "language_model.model.transformer.norm."@ + rest,
        (name.len() < 28 || name.take(28) != "language_model.model.layers."@) && (name.len() < 26
            || name.take(26) != "language_model.model.norm."@) ==> remapped(name) == name,
{
    reveal_strlit("language_model.model.");
    reveal_strlit("language_model.model.layers.");
    reveal_strlit("language_model.model.norm.");
    reveal_strlit("transformer.");
    reveal_strlit("language_model.model.transformer.layers.");
    reveal_strlit("language_model.model.transformer.norm.");
    let layers = "language_model.model.layers."@;
    let norm = "language_model.model.norm."@;
    assert(layers.len() == 28 && norm.len() == 26);
    let a = layers + rest;
    assert(a.take(28) =~= layers);
    assert(remapped(a) =~= "language_model.model.transformer.layers."@ + rest);
    let b = norm + rest;
    assert(b.take(26) =~= norm);
    assert(remapped(b) =~= "language_model.model.transformer.norm."@ + rest);
}

/// A normalization layer has its `weight` as `gamma` and its `bias` as `beta`,
/// under whatever path, and keeps every other parameter. A module of any other
/// type keeps them all.
pub proof fn law_normalization_layers_have_their_own_names(
    before: Seq<char>,
    own: Seq<char>,
    module_type: Seq<char>,
    name: Seq<char>,
)
    requires
        before.len() == 0 || before.last() == '.',
        forall|i: int| 0 <= i < own.len() ==> #[trigger] own[i] != '.',
    ensures
        ({
            let norm = module_type == "Struct:BatchNorm"@ || module_type == "Struct:LayerNorm"@
                || module_type == "Struct:GroupNorm"@ || module_type == "Struct:RmsNorm"@;
            &&& norm ==> adapted(before + own, Some(module_type)) == before + (if own
                == "weight"@ {
                "gamma"@
            } else if own == "bias"@ {
                "beta"@
            } else {
                own
            })
            &&& !norm ==> adapted(name, Some(module_type)) == name
            &&& adapted(name, None) == name
            &&& is_normalization(module_type) == norm
            &&& alternative(own, module_type) == (if !norm {
                None
            } else if own == "gamma"@ {
                Some("weight"@)
            } else if own == "beta"@ {
                Some("bias"@)
            } else {
                None
            })
        }),
{
    lemma_last_segment_of(before, own);
    assert((before + own).take(before.len() as int) =~= before);
    assert((before + own).skip(before.len() as int) =~= own);
}

/// The characters of a text are its own.
pub proof fn law_a_borrowed_text_is_itself(text: &str)
    ensures
        borrowed(Some(text)) == Some(text@),
        borrowed(None) == None::<Seq<char>>,
{
}

/// A cast takes a thread for every 65536 elements begun, but never more than
/// can run, and shares the elements out evenly: one share fewer on each thread
/// would not do.
pub proof fn law_a_cast_is_shared_out_evenly(len: nat, available: nat)
    requires
        available > 0,
    ensures
        ({
            let threads = cast_threads(len, available);
            let share = cast_share(len, available);
            &&& 1 <= threads <= available
            &&& len > 65_536 * (available - 1) ==> threads == available
            &&& threads < available && len > 0 ==> 65_536 * (threads - 1) < len <= 65_536 * threads
            &&& len <= share * threads
            &&& len > 0 ==> (share - 1) * threads < len
            &&& share >= 1
        }),
{
    let threads = cast_threads(len, available);
    let wanted = ceil_div(len, PARALLEL_CAST_MIN as nat);
    lemma_ceil_div(len, PARALLEL_CAST_MIN as nat);
    lemma_ceil_div(len, threads);
    let share = ceil_div(len, threads) as int;
    assert((share - 1) * threads == share * threads - threads) by (nonlinear_arith);
    assert(threads * 1 == threads);
}

/// What was reported is gathered shard by shard, and nothing of it is lost.
pub proof fn law_reports_are_gathered_shard_by_shard(results: Seq<ShardResult>, r: ShardResult)
    ensures
        all_errors(Seq::empty()) == Seq::<Seq<char>>::empty(),
        all_unused(Seq::empty()) == Seq::<Seq<char>>::empty(),
        all_errors(results.push(r)) == all_errors(results) + texts(r.errors@),
        all_unused(results.push(r)) == all_unused(results) + texts(r.unused@),
{
    let all = results.push(r);
    assert(all.drop_last() =~= results);
    assert(all.last() == r);
}

/// A parameter is really missing exactly when every shard misses it, and the
/// really missing ones are told in the first shard's order.
pub proof fn law_really_missing_is_missing_everywhere(results: Seq<ShardResult>, path: Seq<char>)
    requires
        results.len() > 0,
    ensures
        really_missing(results).contains(path) <==> forall|r: int|
            0 <= r < results.len() ==> texts((#[trigger] results[r]).missing@).contains(path),
        really_missing(results) == texts(results[0].missing@).filter(
            |p: Seq<char>|
                forall|r: int|
                    0 <= r < results.len() - 1 ==> texts(
                        (#[trigger] results.skip(1)[r]).missing@,
                    ).contains(p),
        ),
{
    let first = texts(results[0].missing@);
    let rest = results.skip(1);
    let everywhere = |p: Seq<char>| missing_from_all(rest, p);
    let written = |p: Seq<char>|
        forall|r: int|
            0 <= r < results.len() - 1 ==> texts(
                (#[trigger] results.skip(1)[r]).missing@,
            ).contains(p);
    assert forall|p: Seq<char>| #[trigger] everywhere(p) == written(p) by {
        assert(missing_from_all(rest, p) == forall|r: int|
            0 <= r < rest.len() ==> texts((#[trigger] rest[r]).missing@).contains(p));
    }
    assert(everywhere =~= written);
    broadcast use vstd::seq_lib::group_filter_ensures;

    let kept = really_missing(results);
    if kept.contains(path) {
        first.lemma_filter_contains_rev(everywhere, path);
        let i = choose|i: int| 0 <= i < kept.len() && kept[i] == path;
        first.lemma_filter_pred(everywhere, i);
        assert forall|r: int| 0 <= r < results.len() implies texts(
            (#[trigger] results[r]).missing@,
        ).contains(path) by {
            if r > 0 {
                assert(rest[r - 1] == results[r]);
            }
        }
    }
    if forall|r: int| 0 <= r < results.len() ==> texts(
        (#[trigger] results[r]).missing@,
    ).contains(path) {
        assert forall|k: int| 0 <= k < rest.len() implies texts(
            (#[trigger] rest[k]).missing@,
        ).contains(path) by {
            assert(rest[k] == results[k + 1]);
        }
        assert(first.contains(path) && everywhere(path));
        let i = choose|i: int| 0 <= i < first.len() && first[i] == path;
        first.lemma_filter_contains(everywhere, i);
    }
    assert(kept.contains(path) <==> forall|r: int|
        0 <= r < results.len() ==> texts((#[trigger] results[r]).missing@).contains(path));
}

/// What a checkpoint that does not pass is told, in this order: what went wrong,
/// that it has no shards, how many parameters are missing, how many tensors no
/// parameter claims, the last two with the first five names.
pub proof fn law_a_checkpoint_is_told_the_first_problem(results: Seq<ShardResult>)
    ensures
        ({
            let errors = all_errors(results);
            let missing = really_missing(results);
            let unused = all_unused(results);
            let few = |names: Seq<Seq<char>>|
                if names.len() <= 5 {
                    names
                } else {
                    names.take(5)
                };
            &&& errors.len() > 0 ==> verdict(results) == Some(join_texts(errors, ", "@))
            &&& errors.len() == 0 && results.len() == 0 ==> verdict(results) == Some(
                "the checkpoint has no shards"@,
            )
            &&& errors.len() == 0 && results.len() > 0 && missing.len() > 0 ==> verdict(results)
                == Some(
                decimal(missing.len()) + " parameters were not found in any shard"@ + ", e.g. "@
                    + debug_list(few(missing)),
            )
            &&& errors.len() == 0 && results.len() > 0 && missing.len() == 0 && unused.len() > 0
                ==> verdict(results) == Some(
                decimal(unused.len()) + " tensors of the checkpoint belong to no parameter"@
                    + ", e.g. "@ + debug_list(few(unused)),
            )
            &&& errors.len() == 0 && results.len() > 0 && missing.len() == 0 && unused.len() == 0
                ==> verdict(results) is None
        }),
{
    let missing = really_missing(results);
    let unused = all_unused(results);
    if missing.len() <= 5 {
        assert(missing.take(missing.len() as int) =~= missing);
    }
    if unused.len() <= 5 {
        assert(unused.take(unused.len() as int) =~= unused);
    }
}

/// Names are told by their number, the problem they have, and the first of
/// them, up to five.
pub proof fn law_names_are_told_by_their_number(
    count: nat,
    problem: Seq<char>,
    shown: Seq<char>,
    names: Seq<Seq<char>>,
    i: int,
)
    ensures
        told(count, problem, shown) == decimal(count) + problem + ", e.g. "@ + shown,
        first_few(names).len() <= 5,
        names.len() <= 5 ==> first_few(names) == names,
        names.len() > 5 ==> first_few(names).len() == 5,
        0 <= i < first_few(names).len() ==> first_few(names)[i] == names[i],
{
    if names.len() <= 5 {
        assert(first_few(names) =~= names);
    }
}

} // verus!
