//! Where the backend's files are: joining paths, telling a model's files
//! apart, and the marker a finished warm-up leaves behind.
//!
//! A path is the bytes of its name, as Unix has it: it need not be text.

use vstd::prelude::*;
use vstd::relations::{sorted_by, total_ordering};
use vstd::utf8::encode_utf8;

use crate::text::concat;

verus! {

/// `segment` under `dir`. A segment that begins at the root stands for
/// itself.
pub open spec fn join(dir: Seq<u8>, segment: Seq<u8>) -> Seq<u8> {
    if segment.len() > 0 && segment[0] == 0x2F {
        segment
    } else if dir.len() > 0 && dir.last() != 0x2F {
        dir.push(0x2F) + segment
    } else {
        dir + segment
    }
}

/// `segment` under `dir`. A segment that begins at the root stands for
/// itself.
pub fn joined(dir: &[u8], segment: &[u8]) -> (res: Vec<u8>)
    ensures
        res@ == join(dir@, segment@),
{
    let mut res: Vec<u8> = Vec::new();
    if segment.len() > 0 && segment[0] == 0x2F {
    } else {
        push_bytes(&mut res, dir);
        if dir.len() > 0 && dir[dir.len() - 1] != 0x2F {
            res.push(0x2F);
        }
    }
    let ghost before = res@;
    push_bytes(&mut res, segment);
    assert(before + segment@ =~= join(dir@, segment@));
    res
}

/// Appends `bytes` to `to`.
fn push_bytes(to: &mut Vec<u8>, bytes: &[u8])
    ensures
        final(to)@ == old(to)@ + bytes@,
{
    let ghost before = to@;
    let mut i: usize = 0;
    while i < bytes.len()
        invariant
            i <= bytes@.len(),
            to@ == before + bytes@.take(i as int),
        decreases bytes@.len() - i,
    {
        to.push(bytes[i]);
        i = i + 1;
        assert(before + bytes@.take(i as int) =~= (before + bytes@.take(i - 1)).push(
            bytes@[i - 1],
        ));
    }
    assert(bytes@.take(bytes@.len() as int) =~= bytes@);
}

/// Whether a file of this name holds a shard of the checkpoint: its extension
/// is `safetensors`, and there is something before it.
pub open spec fn is_shard(name: Seq<u8>) -> bool {
    let suffix = encode_utf8(".safetensors"@);
    name.len() > suffix.len() && name.skip(name.len() - suffix.len()) == suffix
}

/// Whether a file of this name holds a shard of the checkpoint.
pub fn shard(name: &[u8]) -> (res: bool)
    ensures
        res == is_shard(name@),
{
    let suffix = ".safetensors".as_bytes();
    if name.len() <= suffix.len() {
        return false;
    }
    let from: usize = name.len() - suffix.len();
    let mut i: usize = 0;
    while i < suffix.len()
        invariant
            i <= suffix@.len(),
            suffix@ == encode_utf8(".safetensors"@),
            from + suffix@.len() == name@.len(),
            name@.len() <= usize::MAX,
            forall|j: int| 0 <= j < i ==> name@[from + j] == suffix@[j],
        decreases suffix@.len() - i,
    {
        if name[from + i] != suffix[i] {
            assert(name@.skip(from as int)[i as int] != suffix@[i as int]);
            return false;
        }
        i = i + 1;
    }
    assert(name@.skip(from as int) =~= suffix@);
    true
}

/// Whether `a` comes no later than `b`, byte by byte.
pub open spec fn no_later(a: Seq<u8>, b: Seq<u8>) -> bool
    decreases a.len(),
{
    if a.len() == 0 {
        true
    } else if b.len() == 0 {
        false
    } else {
        a[0] < b[0] || (a[0] == b[0] && no_later(a.drop_first(), b.drop_first()))
    }
}

/// Whether `a` comes no later than `b`, byte by byte.
fn ordered(a: &[u8], b: &[u8]) -> (res: bool)
    ensures
        res == no_later(a@, b@),
{
    let mut i: usize = 0;
    assert(a@.skip(0) =~= a@ && b@.skip(0) =~= b@);
    while i < a.len() && i < b.len() && a[i] == b[i]
        invariant
            i <= a@.len(),
            i <= b@.len(),
            no_later(a@, b@) == no_later(a@.skip(i as int), b@.skip(i as int)),
        decreases a@.len() - i,
    {
        assert(a@.skip(i as int).drop_first() =~= a@.skip(i + 1));
        assert(b@.skip(i as int).drop_first() =~= b@.skip(i + 1));
        i = i + 1;
    }
    if i >= a.len() {
        true
    } else if i >= b.len() {
        false
    } else {
        a[i] < b[i]
    }
}

proof fn lemma_no_later_reflexive(a: Seq<u8>)
    ensures
        no_later(a, a),
    decreases a.len(),
{
    if a.len() > 0 {
        lemma_no_later_reflexive(a.drop_first());
    }
}

proof fn lemma_no_later_total(a: Seq<u8>, b: Seq<u8>)
    ensures
        no_later(a, b) || no_later(b, a),
    decreases a.len(),
{
    if a.len() > 0 && b.len() > 0 {
        lemma_no_later_total(a.drop_first(), b.drop_first());
    }
}

proof fn lemma_no_later_antisymmetric(a: Seq<u8>, b: Seq<u8>)
    requires
        no_later(a, b),
        no_later(b, a),
    ensures
        a == b,
    decreases a.len(),
{
    if a.len() > 0 && b.len() > 0 {
        lemma_no_later_antisymmetric(a.drop_first(), b.drop_first());
        assert(a =~= seq![a[0]] + a.drop_first());
        assert(b =~= seq![b[0]] + b.drop_first());
    } else {
        assert(a =~= b);
    }
}

proof fn lemma_no_later_transitive(a: Seq<u8>, b: Seq<u8>, c: Seq<u8>)
    requires
        no_later(a, b),
        no_later(b, c),
    ensures
        no_later(a, c),
    decreases a.len(),
{
    if a.len() > 0 && a[0] == b[0] && b[0] == c[0] {
        lemma_no_later_transitive(a.drop_first(), b.drop_first(), c.drop_first());
    }
}

/// The order the shards of a checkpoint are loaded in.
pub open spec fn name_order() -> spec_fn(Seq<u8>, Seq<u8>) -> bool {
    |a: Seq<u8>, b: Seq<u8>| no_later(a, b)
}

proof fn lemma_name_order_is_total()
    ensures
        total_ordering(name_order()),
{
    let r = name_order();
    assert forall|a: Seq<u8>| #[trigger] r(a, a) by {
        lemma_no_later_reflexive(a);
    }
    assert forall|a: Seq<u8>, b: Seq<u8>| #[trigger] r(a, b) && #[trigger] r(b, a) implies a
        == b by {
        lemma_no_later_antisymmetric(a, b);
    }
    assert forall|a: Seq<u8>, b: Seq<u8>, c: Seq<u8>| #[trigger]
        r(a, b) && #[trigger] r(b, c) implies r(a, c) by {
        lemma_no_later_transitive(a, b, c);
    }
    assert forall|a: Seq<u8>, b: Seq<u8>| #[trigger] r(a, b) || #[trigger] r(b, a) by {
        lemma_no_later_total(a, b);
    }
}

/// The names in `entries`.
pub open spec fn names(entries: Seq<Vec<u8>>) -> Seq<Seq<u8>> {
    Seq::new(entries.len(), |i: int| entries[i]@)
}

/// The names among `entries` that belong to shards.
pub open spec fn shards(entries: Seq<Seq<u8>>) -> Seq<Seq<u8>> {
    entries.filter(|name: Seq<u8>| is_shard(name))
}

/// The index at which `name` goes into the sorted `sorted`: after everything
/// that comes no later than it.
fn place_of(sorted: &Vec<Vec<u8>>, name: &[u8]) -> (res: usize)
    requires
        sorted_by(names(sorted@), name_order()),
    ensures
        res <= sorted@.len(),
        forall|j: int| 0 <= j < res ==> no_later(#[trigger] names(sorted@)[j], name@),
        forall|j: int| res <= j < sorted@.len() ==> no_later(name@, #[trigger] names(sorted@)[j]),
{
    let ghost all = names(sorted@);
    let mut at: usize = sorted.len();
    while at > 0 && !ordered(&sorted[at - 1], name)
        invariant
            at <= sorted@.len(),
            all == names(sorted@),
            forall|j: int| at <= j < sorted@.len() ==> no_later(name@, #[trigger] all[j]),
        decreases at,
    {
        proof {
            lemma_no_later_total(sorted@[at - 1]@, name@);
            assert(all[at - 1] == sorted@[at - 1]@);
        }
        at = at - 1;
    }
    proof {
        if at > 0 {
            assert(all[at - 1] == sorted@[at - 1]@);
            let r = name_order();
            assert forall|j: int| 0 <= j < at implies no_later(#[trigger] all[j], name@) by {
                if j < at - 1 {
                    assert(r(all[j], all[at - 1]));
                    lemma_no_later_transitive(all[j], all[at - 1], name@);
                }
            }
        }
    }
    at
}

proof fn lemma_insert_to_multiset(s: Seq<Seq<u8>>, i: int, x: Seq<u8>)
    requires
        0 <= i <= s.len(),
    ensures
        s.insert(i, x).to_multiset() == s.push(x).to_multiset(),
{
    broadcast use vstd::seq_lib::group_to_multiset_ensures;

    let t = s.insert(i, x);
    assert(t.remove(i) =~= s);
    assert(t.remove(i).to_multiset() =~= t.to_multiset().remove(x));
    assert(t[i] == x);
    assert(t.contains(x));
    assert(t.to_multiset().count(x) > 0);
    assert(t.to_multiset().remove(x).insert(x) =~= t.to_multiset());
}

/// The names of the shards among `entries`, in the order they are loaded.
pub fn shard_names(entries: &Vec<Vec<u8>>) -> (res: Vec<Vec<u8>>)
    ensures
        sorted_by(names(res@), name_order()),
        names(res@).to_multiset() == shards(names(entries@)).to_multiset(),
{
    let ghost all = names(entries@);
    let ghost keep = |name: Seq<u8>| is_shard(name);
    let mut res: Vec<Vec<u8>> = Vec::new();
    let mut i: usize = 0;
    assert(all.take(0).filter(keep) =~= Seq::<Seq<u8>>::empty()) by {
        reveal(Seq::filter);
    }
    assert(names(res@) =~= all.take(0).filter(keep));
    while i < entries.len()
        invariant
            i <= entries@.len(),
            all == names(entries@),
            keep == (|name: Seq<u8>| is_shard(name)),
            sorted_by(names(res@), name_order()),
            names(res@).to_multiset() == all.take(i as int).filter(keep).to_multiset(),
        decreases entries@.len() - i,
    {
        let ghost before = names(res@);
        let ghost x = all[i as int];
        proof {
            assert(all.take(i + 1).drop_last() =~= all.take(i as int));
            assert(all.take(i + 1).last() == x);
            reveal(Seq::filter);
        }
        if shard(&entries[i]) {
            let at: usize = place_of(&res, &entries[i]);
            let mut copy: Vec<u8> = Vec::new();
            push_bytes(&mut copy, &entries[i]);
            assert(copy@ =~= x);
            res.insert(at, copy);
            proof {
                broadcast use vstd::seq_lib::group_to_multiset_ensures;

                let after = names(res@);
                assert(after =~= before.insert(at as int, x));
                lemma_insert_to_multiset(before, at as int, x);
                let r = name_order();
                assert forall|j: int, k: int| 0 <= j < k < after.len() implies #[trigger] r(
                    after[j],
                    after[k],
                ) by {
                    let j0 = if j < at { j } else { j - 1 };
                    let k0 = if k < at { k } else { k - 1 };
                    if j == at {
                        assert(after[k] == before[k0]);
                    } else if k == at {
                        assert(after[j] == before[j0]);
                    } else {
                        assert(after[j] == before[j0] && after[k] == before[k0]);
                        assert(r(before[j0], before[k0]));
                    }
                }
            }
        }
        i = i + 1;
    }
    assert(all.take(all.len() as int) =~= all);
    res
}

/// The files of a model, by their paths.
#[derive(Debug, Clone)]
pub struct ModelFiles {
    pub config: Vec<u8>,
    pub tokenizer: Vec<u8>,
    pub weights: Vec<Vec<u8>>,
}

/// The files of the model in `dir`, which messages show as `shown`: its
/// configuration, its tokenizer and its shards in name order.
///
/// `has_config` and `has_tokenizer` say whether those two files exist, and
/// `entries` are the names of the files in `dir`.
pub fn resolve_files(
    dir: &[u8],
    shown: &str,
    has_config: bool,
    has_tokenizer: bool,
    entries: &Vec<Vec<u8>>,
) -> (res: Result<ModelFiles, String>)
    ensures
        match res {
            Ok(files) => {
                let sorted = shards(names(entries@)).sort_by(name_order());
                &&& has_config && has_tokenizer && sorted.len() > 0
                &&& files.config@ == join(dir@, encode_utf8("config.json"@))
                &&& files.tokenizer@ == join(dir@, encode_utf8("tekken.json"@))
                &&& names(files.weights@) == Seq::new(sorted.len(), |i: int| join(dir@, sorted[i]))
            },
            Err(e) => if !has_config {
                e@ == "config.json not found in "@ + shown@
            } else if !has_tokenizer {
                e@ == "tekken.json not found in "@ + shown@
            } else {
                shards(names(entries@)).len() == 0 && e@ == "no .safetensors in "@ + shown@
            },
        },
{
    if !has_config {
        return Err(concat("config.json not found in ", shown));
    }
    if !has_tokenizer {
        return Err(concat("tekken.json not found in ", shown));
    }
    let sorted: Vec<Vec<u8>> = shard_names(entries);
    let ghost found = shards(names(entries@));
    let ghost expected = found.sort_by(name_order());
    proof {
        broadcast use vstd::seq_lib::group_to_multiset_ensures;

        lemma_name_order_is_total();
        found.lemma_sort_by_ensures(name_order());
        vstd::seq_lib::lemma_sorted_unique(names(sorted@), expected, name_order());
        assert(expected.len() == found.to_multiset().len());
    }
    if sorted.len() == 0 {
        return Err(concat("no .safetensors in ", shown));
    }
    let mut weights: Vec<Vec<u8>> = Vec::new();
    let mut i: usize = 0;
    while i < sorted.len()
        invariant
            i <= sorted@.len(),
            weights@.len() == i,
            forall|j: int| 0 <= j < i ==> (#[trigger] weights@[j])@ == join(dir@, sorted@[j]@),
        decreases sorted@.len() - i,
    {
        weights.push(joined(dir, &sorted[i]));
        i = i + 1;
    }
    proof {
        assert forall|j: int| 0 <= j < weights@.len() implies #[trigger] names(weights@)[j] == join(
            dir@,
            expected[j],
        ) by {
            assert(names(sorted@)[j] == sorted@[j]@);
        }
        assert(names(weights@) =~= Seq::new(expected.len(), |j: int| join(dir@, expected[j])));
    }
    Ok(
        ModelFiles {
            config: joined(dir, "config.json".as_bytes()),
            tokenizer: joined(dir, "tekken.json".as_bytes()),
            weights,
        },
    )
}

/// The shards are loaded in one order, whatever order the directory lists them
/// in.
pub proof fn law_listing_order_is_irrelevant(a: Seq<Seq<u8>>, b: Seq<Seq<u8>>)
    requires
        shards(a).to_multiset() == shards(b).to_multiset(),
    ensures
        shards(a).sort_by(name_order()) == shards(b).sort_by(name_order()),
{
    lemma_name_order_is_total();
    shards(a).lemma_sort_by_ensures(name_order());
    shards(b).lemma_sort_by_ensures(name_order());
    vstd::seq_lib::lemma_sorted_unique(
        shards(a).sort_by(name_order()),
        shards(b).sort_by(name_order()),
        name_order(),
    );
}

/// The marker of `model` for the build of that `version` and `accelerator`, in
/// the cache directory `dir`.
pub open spec fn marker_path(
    dir: Seq<u8>,
    model: Seq<char>,
    version: Seq<char>,
    accelerator: Seq<char>,
) -> Seq<u8> {
    join(
        join(dir, encode_utf8("voxtral-warm"@)),
        encode_utf8(marker_name(model, version, accelerator)),
    )
}

/// Where a load records that `model` finished a warm-up with this build, so
/// that the next load of it is not an initial setup: beside the kernels it
/// vouches for, under the build's `version` and `accelerator`. Without a cache
/// directory there is none.
pub fn warm_marker(
    cache_dir: Option<&[u8]>,
    model: &str,
    version: &str,
    accelerator: &str,
) -> (res: Option<Vec<u8>>)
    ensures
        match (cache_dir, res) {
            (Some(dir), Some(path)) => path@ == marker_path(
                dir@,
                model@,
                version@,
                accelerator@,
            ),
            (None, None) => true,
            _ => false,
        },
{
    match cache_dir {
        None => None,
        Some(dir) => {
            let mut name = model.to_string();
            name.append("-");
            name.append(version);
            name.append("-");
            name.append(accelerator);
            let under = joined(dir, "voxtral-warm".as_bytes());
            Some(joined(&under, name.as_str().as_bytes()))
        },
    }
}

proof fn lemma_join_is_injective(dir: Seq<u8>, a: Seq<u8>, b: Seq<u8>)
    requires
        dir.len() > 0,
        a.len() > 0,
        b.len() > 0,
        (a[0] == 0x2F) == (b[0] == 0x2F),
        join(dir, a) == join(dir, b),
    ensures
        a == b,
{
    if a[0] != 0x2F {
        let before = if dir.last() != 0x2F {
            dir.push(0x2F)
        } else {
            dir
        };
        assert(join(dir, a) == before + a && join(dir, b) == before + b);
        assert((before + a).skip(before.len() as int) =~= a);
        assert((before + b).skip(before.len() as int) =~= b);
    }
}

/// The name of a marker's file.
pub open spec fn marker_name(model: Seq<char>, version: Seq<char>, accelerator: Seq<char>) -> Seq<
    char,
> {
    model + "-"@ + version + "-"@ + accelerator
}

/// Markers of two names are two files, when the names begin alike or neither
/// begins at the root.
proof fn lemma_names_are_paths(dir: Seq<u8>, a: Seq<char>, b: Seq<char>)
    requires
        a.len() > 0,
        b.len() > 0,
        a[0] == b[0] || (a[0] != '/' && b[0] != '/'),
        a != b,
    ensures
        join(join(dir, encode_utf8("voxtral-warm"@)), encode_utf8(a)) != join(
            join(dir, encode_utf8("voxtral-warm"@)),
            encode_utf8(b),
        ),
{
    let under = join(dir, encode_utf8("voxtral-warm"@));
    reveal_strlit("voxtral-warm");
    assert("voxtral-warm"@.len() == 12);
    lemma_first_byte("voxtral-warm"@);
    lemma_first_byte(a);
    lemma_first_byte(b);
    lemma_only_a_slash_begins_at_the_root(a[0]);
    lemma_only_a_slash_begins_at_the_root(b[0]);
    if join(under, encode_utf8(a)) == join(under, encode_utf8(b)) {
        lemma_join_is_injective(under, encode_utf8(a), encode_utf8(b));
        vstd::utf8::encode_utf8_decode_utf8(a);
        vstd::utf8::encode_utf8_decode_utf8(b);
    }
}

/// Of the characters only `/` has an encoding that begins with its byte.
proof fn lemma_only_a_slash_begins_at_the_root(c: char)
    ensures
        c != '/' ==> vstd::utf8::encode_scalar(c as u32)[0] != 0x2F,
{
    let u = c as u32;
    assert(u <= 0x7F ==> (u & 0x7F) as u8 == u) by (bit_vector);
    assert(0xC0u8 | ((u >> 6) & 0x1F) as u8 >= 0xC0) by (bit_vector);
    assert(0xE0u8 | ((u >> 12) & 0x0F) as u8 >= 0xE0) by (bit_vector);
    assert(0xF0u8 | ((u >> 18) & 0x7) as u8 >= 0xF0) by (bit_vector);
}

/// A new build looks for a marker of its own: the markers of one model under
/// two versions are different files.
pub proof fn law_each_version_has_its_own_marker(
    dir: Seq<u8>,
    model: Seq<char>,
    accelerator: Seq<char>,
    v1: Seq<char>,
    v2: Seq<char>,
)
    requires
        v1 != v2,
    ensures
        marker_path(dir, model, v1, accelerator) != marker_path(dir, model, v2, accelerator),
{
    let a = marker_name(model, v1, accelerator);
    let b = marker_name(model, v2, accelerator);
    reveal_strlit("-");
    let m = model.len() as int;
    if a == b {
        assert(a.len() == m + 2 + v1.len() + accelerator.len());
        assert(a.subrange(m + 1, m + 1 + v1.len()) =~= v1);
        assert(b.subrange(m + 1, m + 1 + v2.len()) =~= v2);
    }
    lemma_marker_begins_with_its_model(model, v1, accelerator);
    lemma_marker_begins_with_its_model(model, v2, accelerator);
    lemma_names_are_paths(dir, a, b);
}

/// The build of another accelerator looks for a marker of its own.
pub proof fn law_each_accelerator_has_its_own_marker(
    dir: Seq<u8>,
    model: Seq<char>,
    version: Seq<char>,
    a1: Seq<char>,
    a2: Seq<char>,
)
    requires
        a1 != a2,
    ensures
        marker_path(dir, model, version, a1) != marker_path(dir, model, version, a2),
{
    let a = marker_name(model, version, a1);
    let b = marker_name(model, version, a2);
    reveal_strlit("-");
    let m = (model.len() + version.len() + 2) as int;
    if a == b {
        assert(a.skip(m) =~= a1);
        assert(b.skip(m) =~= a2);
    }
    lemma_marker_begins_with_its_model(model, version, a1);
    lemma_marker_begins_with_its_model(model, version, a2);
    lemma_names_are_paths(dir, a, b);
}

/// Another model has a marker of its own. The names of the models are those of
/// files: they hold no `/`.
pub proof fn law_each_model_has_its_own_marker(
    dir: Seq<u8>,
    m1: Seq<char>,
    m2: Seq<char>,
    version: Seq<char>,
    accelerator: Seq<char>,
)
    requires
        m1 != m2,
        !m1.contains('/'),
        !m2.contains('/'),
    ensures
        marker_path(dir, m1, version, accelerator) != marker_path(dir, m2, version, accelerator),
{
    let a = marker_name(m1, version, accelerator);
    let b = marker_name(m2, version, accelerator);
    reveal_strlit("-");
    if a == b {
        let n = (version.len() + accelerator.len() + 2) as int;
        assert(a.take(a.len() - n) =~= m1);
        assert(b.take(b.len() - n) =~= m2);
    }
    lemma_marker_begins_with_its_model(m1, version, accelerator);
    lemma_marker_begins_with_its_model(m2, version, accelerator);
    assert(m1.len() > 0 ==> m1.contains(m1[0]));
    assert(m2.len() > 0 ==> m2.contains(m2[0]));
    lemma_names_are_paths(dir, a, b);
}

proof fn lemma_marker_begins_with_its_model(
    model: Seq<char>,
    version: Seq<char>,
    accelerator: Seq<char>,
)
    ensures
        marker_name(model, version, accelerator).len() > 0,
        marker_name(model, version, accelerator)[0] == if model.len() > 0 {
            model[0]
        } else {
            '-'
        },
{
    reveal_strlit("-");
    let name = marker_name(model, version, accelerator);
    if model.len() > 0 {
        assert(name[0] == model[0]);
    } else {
        assert(name[0] == "-"@[0]);
    }
}

/// A text that is not empty has bytes, the first of which depends on its first
/// character alone.
proof fn lemma_first_byte(s: Seq<char>)
    requires
        s.len() > 0,
    ensures
        encode_utf8(s).len() > 0,
        encode_utf8(s)[0] == vstd::utf8::encode_scalar(s[0] as u32)[0],
{
    reveal_with_fuel(encode_utf8, 2);
    let first = vstd::utf8::encode_scalar(s[0] as u32);
    broadcast use vstd::utf8::char_is_scalar;

    assert(first.len() > 0);
}

/// A file in a directory has the directory's path, one `/` and its own name.
pub proof fn law_a_path_leads_through_its_directory(dir: Seq<u8>, segment: Seq<u8>)
    requires
        segment.len() > 0,
    ensures
        segment[0] == 0x2F ==> join(dir, segment) == segment,
        segment[0] != 0x2F && dir.len() == 0 ==> join(dir, segment) == segment,
        segment[0] != 0x2F && dir.len() > 0 && dir.last() != 0x2F ==> join(dir, segment) == dir
            + seq![0x2Fu8] + segment,
        segment[0] != 0x2F && dir.len() > 0 && dir.last() == 0x2F ==> join(dir, segment) == dir
            + segment,
{
    assert(join(dir, segment) =~= if segment[0] == 0x2F || dir.len() == 0 {
        segment
    } else if dir.last() != 0x2F {
        dir + seq![0x2Fu8] + segment
    } else {
        dir + segment
    });
}

/// A shard is any name with something before `.safetensors`, and no other.
pub proof fn law_a_shard_is_known_by_its_extension(stem: Seq<u8>, name: Seq<u8>)
    ensures
        is_shard(stem + encode_utf8(".safetensors"@)) <==> stem.len() > 0,
        is_shard(name) ==> name == name.take(name.len() - encode_utf8(".safetensors"@).len())
            + encode_utf8(".safetensors"@) && name.len() > encode_utf8(".safetensors"@).len(),
{
    let suffix = encode_utf8(".safetensors"@);
    let whole = stem + suffix;
    assert(whole.skip(whole.len() - suffix.len()) =~= suffix);
    if is_shard(name) {
        let n = name.len() - suffix.len();
        assert(name =~= name.take(n) + name.skip(n));
    }
}

/// Names are ordered by the first byte in which they differ, and a name comes
/// before a longer one that begins with it.
pub proof fn law_names_are_ordered_by_their_first_difference(
    same: Seq<u8>,
    x: u8,
    y: u8,
    a: Seq<u8>,
    b: Seq<u8>,
)
    requires
        x != y,
    ensures
        no_later(same + seq![x] + a, same + seq![y] + b) <==> x < y,
        no_later(same, same + a),
        a.len() > 0 ==> !no_later(same + a, same),
        name_order()(a, b) == no_later(a, b),
    decreases same.len(),
{
    let p = same + seq![x] + a;
    let q = same + seq![y] + b;
    if same.len() == 0 {
        assert(p[0] == x && q[0] == y);
        assert(same + a =~= a);
    } else {
        let rest = same.drop_first();
        law_names_are_ordered_by_their_first_difference(rest, x, y, a, b);
        assert(p.drop_first() =~= rest + seq![x] + a);
        assert(q.drop_first() =~= rest + seq![y] + b);
        assert((same + a).drop_first() =~= rest + a);
        assert(p[0] == same[0] && q[0] == same[0] && (same + a)[0] == same[0]);
    }
}

/// Of the files in a directory exactly the shards are taken, as often as they
/// are listed.
pub proof fn law_shards_are_taken_from_the_listing(
    entries: Seq<Seq<u8>>,
    name: Seq<u8>,
    listed: Seq<Vec<u8>>,
    i: int,
)
    requires
        0 <= i < listed.len(),
    ensures
        shards(entries.push(name)) == if is_shard(name) {
            shards(entries).push(name)
        } else {
            shards(entries)
        },
        shards(Seq::empty()) == Seq::<Seq<u8>>::empty(),
        names(listed).len() == listed.len(),
        names(listed)[i] == listed[i]@,
{
    reveal(Seq::filter);
    assert(entries.push(name).drop_last() =~= entries);
    assert(shards(Seq::empty()) =~= Seq::<Seq<u8>>::empty());
}

/// The marker of a model is `<model>-<version>-<accelerator>` in the directory
/// `voxtral-warm` of the cache.
pub proof fn law_a_marker_is_named_for_its_model_and_build(
    dir: Seq<u8>,
    model: Seq<char>,
    version: Seq<char>,
    accelerator: Seq<char>,
)
    ensures
        marker_path(dir, model, version, accelerator) == join(
            join(dir, encode_utf8("voxtral-warm"@)),
            encode_utf8(model + "-"@ + version + "-"@ + accelerator),
        ),
{
}

} // verus!
