//! What the decoder's text becomes before it is sent back: the quoting and
//! spacing artifacts go, and an empty transcript is an error.

use vstd::prelude::*;

use crate::text::{
    begins_with, between, chars_of, collapse, collapsed, has_prefix, is_white_space,
    lemma_trim_start, lemma_word_len, replace, replaced, same_chars, strip_last, strip_prefixes,
    text_of, trim, trim_end, trim_start, trimmed, without_last, without_prefixes, word_len,
};

verus! {

/// `text` without the quote pairs or the apostrophe it opens with, each
/// removed together with the white space around what is left.
pub open spec fn unquoted(text: Seq<char>) -> Seq<char> {
    let t = trim(text);
    let t = if begins_with(t, seq!['"', '\'']) || begins_with(t, seq!['\'', '"']) {
        trim(strip_prefixes(strip_prefixes(t, seq!['"', '\'']), seq!['\'', '"']))
    } else {
        t
    };
    if t.len() > 0 && t[0] == '\'' {
        trim(t.skip(1))
    } else {
        t
    }
}

/// `unquoted(text)` with its words one space apart, and without the quote
/// pairs that stood as words of their own.
pub open spec fn tidied(text: Seq<char>) -> Seq<char> {
    let t = collapse(unquoted(text));
    replace(replace(t, seq![' ', '"', '\'', ' '], seq![' ']), seq![' ', '\'', '"', ' '], seq![' '])
}

/// The transcript of `text`, or `None` when nothing was said.
pub open spec fn transcript(text: Seq<char>) -> Option<Seq<char>> {
    let t = tidied(text);
    if t == seq!['.'] || trim(t).len() == 0 {
        None
    } else {
        Some(strip_last(strip_last(t, '\''), '"'))
    }
}

/// Clean up Voxtral's output formatting artifacts.
///
/// A text that comes down to nothing, or to a bare full stop, is what the
/// model makes of features it cannot read, and is refused.
pub fn post_process_transcription(text: &str) -> (res: Result<String, String>)
    ensures
        match res {
            Ok(t) => transcript(text@) == Some(t@),
            Err(e) => transcript(text@) is None && e@
                == "mel feature generation produced invalid output"@,
        },
{
    let quote_first: Vec<char> = vec!['"', '\''];
    let apostrophe_first: Vec<char> = vec!['\'', '"'];
    assert(quote_first@ =~= seq!['"', '\'']);
    assert(apostrophe_first@ =~= seq!['\'', '"']);

    let mut cleaned: Vec<char> = trimmed(&chars_of(text));
    if has_prefix(&cleaned, &quote_first) || has_prefix(&cleaned, &apostrophe_first) {
        let stripped = without_prefixes(&cleaned, &quote_first);
        cleaned = trimmed(&without_prefixes(&stripped, &apostrophe_first));
    }
    if cleaned.len() > 0 && cleaned[0] == '\'' {
        let rest = between(&cleaned, 1, cleaned.len());
        assert(rest@ =~= cleaned@.skip(1));
        cleaned = trimmed(&rest);
    }
    assert(cleaned@ == unquoted(text@));

    let space: Vec<char> = vec![' '];
    let quote_word: Vec<char> = vec![' ', '"', '\'', ' '];
    let apostrophe_word: Vec<char> = vec![' ', '\'', '"', ' '];
    assert(space@ =~= seq![' ']);
    assert(quote_word@ =~= seq![' ', '"', '\'', ' ']);
    assert(apostrophe_word@ =~= seq![' ', '\'', '"', ' ']);
    cleaned = collapsed(&cleaned);
    cleaned = replaced(&cleaned, &quote_word, &space);
    cleaned = replaced(&cleaned, &apostrophe_word, &space);
    assert(cleaned@ == tidied(text@));

    let full_stop: Vec<char> = vec!['.'];
    assert(full_stop@ =~= seq!['.']);
    if same_chars(&cleaned, &full_stop) || trimmed(&cleaned).len() == 0 {
        return Err("mel feature generation produced invalid output".to_string());
    }
    Ok(text_of(&without_last(&without_last(&cleaned, '\''), '"')))
}

/// Every white space of `s` is a single space: no other kind, and no two in a
/// row.
pub open spec fn single_spaced(s: Seq<char>) -> bool {
    forall|i: int|
        0 <= i < s.len() && is_white_space(#[trigger] s[i]) ==> s[i] == ' ' && (i + 1 < s.len()
            ==> !is_white_space(s[i + 1]))
}

proof fn lemma_collapse_is_single_spaced(s: Seq<char>)
    ensures
        single_spaced(collapse(s)),
        collapse(s).len() > 0 ==> !is_white_space(collapse(s)[0]) && !is_white_space(
            collapse(s).last(),
        ),
    decreases s.len(),
{
    let t = trim_start(s);
    let n = word_len(t) as int;
    lemma_trim_start(s);
    lemma_word_len(t);
    if t.len() > 0 && n > 0 {
        let rest = collapse(t.skip(n));
        lemma_collapse_is_single_spaced(t.skip(n));
        let c = collapse(s);
        assert(!is_white_space(t[n - 1]));
        if rest.len() > 0 {
            assert(c =~= t.take(n).push(' ') + rest);
            assert forall|i: int| 0 <= i < c.len() && is_white_space(#[trigger] c[i]) implies c[i]
                == ' ' && (i + 1 < c.len() ==> !is_white_space(c[i + 1])) by {
                if i < n {
                    assert(c[i] == t[i]);
                } else if i == n {
                    assert(c[i + 1] == rest[0]);
                } else {
                    assert(c[i] == rest[i - n - 1]);
                    if i + 1 < c.len() {
                        assert(c[i + 1] == rest[i - n]);
                    }
                }
            }
        } else {
            assert(c =~= t.take(n));
        }
    }
}

proof fn lemma_replace_keeps_single_spaced(s: Seq<char>, a: char, b: char)
    requires
        single_spaced(s),
        !is_white_space(a),
        !is_white_space(b),
    ensures
        ({
            let r = replace(s, seq![' ', a, b, ' '], seq![' ']);
            &&& single_spaced(r)
            &&& (r.len() == 0 <==> s.len() == 0)
            &&& s.len() > 0 ==> r[0] == s[0]
        }),
    decreases s.len(),
{
    let from = seq![' ', a, b, ' '];
    let to = seq![' '];
    let r = replace(s, from, to);
    if s.len() == 0 {
    } else if begins_with(s, from) {
        let rest = s.skip(4);
        let tail = replace(rest, from, to);
        assert forall|i: int| 0 <= i < rest.len() && is_white_space(#[trigger] rest[i]) implies
            rest[i] == ' ' && (i + 1 < rest.len() ==> !is_white_space(rest[i + 1])) by {
            assert(rest[i] == s[i + 4]);
            if i + 1 < rest.len() {
                assert(rest[i + 1] == s[i + 5]);
            }
        }
        lemma_replace_keeps_single_spaced(rest, a, b);
        assert(r =~= to + tail);
        assert(s[0] == s.take(4)[0] && s[3] == s.take(4)[3]);
        assert(is_white_space(s[3]));
        if rest.len() > 0 {
            assert(rest[0] == s[4]);
        }
        assert forall|i: int| 0 <= i < r.len() && is_white_space(#[trigger] r[i]) implies r[i]
            == ' ' && (i + 1 < r.len() ==> !is_white_space(r[i + 1])) by {
            if i == 0 {
                if r.len() > 1 {
                    assert(r[1] == tail[0]);
                }
            } else {
                assert(r[i] == tail[i - 1]);
                if i + 1 < r.len() {
                    assert(r[i + 1] == tail[i]);
                }
            }
        }
    } else {
        let rest = s.drop_first();
        let tail = replace(rest, from, to);
        assert forall|i: int| 0 <= i < rest.len() && is_white_space(#[trigger] rest[i]) implies
            rest[i] == ' ' && (i + 1 < rest.len() ==> !is_white_space(rest[i + 1])) by {
            assert(rest[i] == s[i + 1]);
            if i + 1 < rest.len() {
                assert(rest[i + 1] == s[i + 2]);
            }
        }
        lemma_replace_keeps_single_spaced(rest, a, b);
        assert(r =~= seq![s[0]] + tail);
        assert forall|i: int| 0 <= i < r.len() && is_white_space(#[trigger] r[i]) implies r[i]
            == ' ' && (i + 1 < r.len() ==> !is_white_space(r[i + 1])) by {
            if i == 0 {
                if r.len() > 1 {
                    assert(r[1] == tail[0]);
                    assert(rest[0] == s[1]);
                }
            } else {
                assert(r[i] == tail[i - 1]);
                if i + 1 < r.len() {
                    assert(r[i + 1] == tail[i]);
                }
            }
        }
    }
}

proof fn lemma_strip_last_is_prefix(s: Seq<char>, c: char)
    ensures
        strip_last(s, c).len() <= s.len(),
        strip_last(s, c) =~= s.take(strip_last(s, c).len() as int),
        strip_last(s, c).len() > 0 ==> strip_last(s, c).last() != c,
    decreases s.len(),
{
    if s.len() > 0 && s.last() == c {
        lemma_strip_last_is_prefix(s.drop_last(), c);
        assert(s.drop_last().take(strip_last(s, c).len() as int) =~= s.take(
            strip_last(s, c).len() as int,
        ));
    } else {
        assert(s.take(s.len() as int) =~= s);
    }
}

/// A transcript begins with no white space, holds none but single spaces, and
/// never ends with a double quote.
pub proof fn law_transcript_is_single_spaced(text: Seq<char>)
    requires
        transcript(text) is Some,
    ensures
        ({
            let t = transcript(text)->0;
            &&& single_spaced(t)
            &&& t.len() > 0 ==> !is_white_space(t[0]) && t.last() != '"'
        }),
{
    let c = collapse(unquoted(text));
    lemma_collapse_is_single_spaced(unquoted(text));
    let d = replace(c, seq![' ', '"', '\'', ' '], seq![' ']);
    lemma_replace_keeps_single_spaced(c, '"', '\'');
    lemma_replace_keeps_single_spaced(d, '\'', '"');
    let e = tidied(text);
    let f = strip_last(e, '\'');
    lemma_strip_last_is_prefix(e, '\'');
    lemma_strip_last_is_prefix(f, '"');
    let t = transcript(text)->0;
    assert forall|i: int| 0 <= i < t.len() && is_white_space(#[trigger] t[i]) implies t[i] == ' '
        && (i + 1 < t.len() ==> !is_white_space(t[i + 1])) by {
        assert(t[i] == e[i]);
        if i + 1 < t.len() {
            assert(t[i + 1] == e[i + 1]);
        }
    }
}

/// The white space around a text makes no difference to its transcript.
pub proof fn law_outer_white_space_is_ignored(a: Seq<char>, b: Seq<char>)
    requires
        trim(a) == trim(b),
    ensures
        transcript(a) == transcript(b),
{
}

/// Whether `a` and `b` have the same words, and either both or neither begin
/// with one.
spec fn alike(a: Seq<char>, b: Seq<char>) -> bool {
    &&& collapse(a) == collapse(b)
    &&& collapse(a).len() > 0 ==> is_white_space(a[0]) == is_white_space(b[0])
}

/// What collapsing makes of a text that begins with a word, character by
/// character.
proof fn lemma_collapse_first(s: Seq<char>)
    requires
        s.len() > 0,
        !is_white_space(s[0]),
    ensures
        collapse(s).len() > 0,
        collapse(s)[0] == s[0],
        ({
            let rest = collapse(s.skip(1));
            &&& rest.len() == 0 ==> collapse(s) == seq![s[0]]
            &&& rest.len() > 0 && is_white_space(s[1]) ==> collapse(s) == seq![s[0], ' '] + rest
            &&& rest.len() > 0 && !is_white_space(s[1]) ==> collapse(s) == seq![s[0]] + rest
        }),
{
    let r = s.drop_first();
    assert(r =~= s.skip(1));
    lemma_word_len(s);
    lemma_word_len(r);
    let n = word_len(s) as int;
    assert(n == 1 + word_len(r));
    assert(trim_start(s) == s);
    if r.len() > 0 && !is_white_space(r[0]) {
        assert(trim_start(r) == r);
        assert(s.skip(n) =~= r.skip(n - 1));
        assert(s.take(n) =~= seq![s[0]] + r.take(n - 1));
        assert(collapse(s) =~= seq![s[0]] + collapse(r));
        assert(collapse(r).len() > 0);
    } else {
        assert(n == 1);
        assert(s.skip(1) =~= r);
        assert(s.take(1) =~= seq![s[0]]);
        if collapse(r).len() > 0 {
            assert(s.take(1).push(' ') =~= seq![s[0], ' ']);
            if r.len() == 0 {
                assert(trim_start(r).len() == 0);
            }
        }
    }
}

/// A text without words is nothing but white space.
proof fn lemma_collapse_empty(s: Seq<char>)
    ensures
        s.len() == 0 ==> collapse(s).len() == 0,
        s.len() > 0 && !is_white_space(s[0]) ==> collapse(s).len() > 0,
{
    if s.len() > 0 && !is_white_space(s[0]) {
        lemma_collapse_first(s);
    } else if s.len() == 0 {
        assert(trim_start(s).len() == 0);
    }
}

/// Texts that are alike stay so without the first character of a word.
proof fn lemma_alike_without_first(a: Seq<char>, b: Seq<char>)
    requires
        alike(a, b),
        a.len() > 0,
        !is_white_space(a[0]),
    ensures
        b.len() > 0,
        b[0] == a[0],
        alike(a.skip(1), b.skip(1)),
{
    lemma_collapse_first(a);
    lemma_collapse_empty(b);
    assert(b.len() > 0 && !is_white_space(b[0]));
    lemma_collapse_first(b);
    let ra = collapse(a.skip(1));
    let rb = collapse(b.skip(1));
    let c = collapse(a);
    if ra.len() > 0 {
        lemma_collapse_empty(a.skip(1));
        assert(a.skip(1)[0] == a[1]);
        lemma_first_is_no_space(a.skip(1));
    }
    if rb.len() > 0 {
        lemma_collapse_empty(b.skip(1));
        assert(b.skip(1)[0] == b[1]);
        lemma_first_is_no_space(b.skip(1));
    }
    if ra.len() == 0 {
        assert(c.len() == 1);
        assert(rb.len() == 0);
        assert(ra =~= rb);
    } else {
        assert(rb.len() > 0);
        if is_white_space(a[1]) {
            assert(c[1] == ' ');
            if !is_white_space(b[1]) {
                assert(c[1] == rb[0]);
            }
            assert(c.skip(2) =~= ra);
            assert(c.skip(2) =~= rb);
        } else {
            assert(c[1] == ra[0]);
            if is_white_space(b[1]) {
                assert(c[1] == ' ');
            }
            assert(c.skip(1) =~= ra);
            assert(c.skip(1) =~= rb);
        }
    }
}

/// What is collapsed begins with no white space.
proof fn lemma_first_is_no_space(s: Seq<char>)
    ensures
        collapse(s).len() > 0 ==> !is_white_space(collapse(s)[0]),
{
    lemma_collapse_is_single_spaced(s);
}

proof fn lemma_alike_begins_with(a: Seq<char>, b: Seq<char>, p: char, q: char)
    requires
        alike(a, b),
        !is_white_space(p),
        !is_white_space(q),
        begins_with(a, seq![p, q]),
    ensures
        begins_with(b, seq![p, q]),
        alike(a.skip(2), b.skip(2)),
{
    assert(a.take(2)[0] == p && a.take(2)[1] == q);
    lemma_alike_without_first(a, b);
    let a1 = a.skip(1);
    let b1 = b.skip(1);
    assert(a1[0] == q);
    lemma_alike_without_first(a1, b1);
    assert(b1[0] == q && b[1] == q);
    assert(b.take(2) =~= seq![p, q]);
    assert(a1.skip(1) =~= a.skip(2));
    assert(b1.skip(1) =~= b.skip(2));
}

proof fn lemma_alike_stripped(a: Seq<char>, b: Seq<char>, p: char, q: char)
    requires
        alike(a, b),
        !is_white_space(p),
        !is_white_space(q),
    ensures
        alike(strip_prefixes(a, seq![p, q]), strip_prefixes(b, seq![p, q])),
    decreases a.len(),
{
    if begins_with(a, seq![p, q]) {
        lemma_alike_begins_with(a, b, p, q);
        lemma_alike_stripped(a.skip(2), b.skip(2), p, q);
    } else if begins_with(b, seq![p, q]) {
        assert(alike(b, a)) by {
            lemma_collapse_empty(a);
            lemma_collapse_empty(b);
        }
        lemma_alike_begins_with(b, a, p, q);
    }
}

/// Trailing white space belongs to no word.
proof fn lemma_collapse_trim_end(s: Seq<char>)
    ensures
        collapse(trim_end(s)) == collapse(s),
    decreases s.len(),
{
    if s.len() > 0 && is_white_space(s.last()) {
        lemma_collapse_without_last(s);
        lemma_collapse_trim_end(s.drop_last());
    }
}

proof fn lemma_collapse_without_last(s: Seq<char>)
    requires
        s.len() > 0,
        is_white_space(s.last()),
    ensures
        collapse(s.drop_last()) == collapse(s),
    decreases s.len(),
{
    let d = s.drop_last();
    if s.len() == 1 {
        assert(s.drop_first().len() == 0);
        assert(trim_start(s).len() == 0) by {
            assert(trim_start(s) == trim_start(s.drop_first()));
            assert(trim_start(s.drop_first()) == s.drop_first());
        }
        assert(trim_start(d).len() == 0);
    } else {
        assert(s.skip(1).drop_last() =~= d.skip(1));
        assert(s.skip(1).last() == s.last());
        lemma_collapse_without_last(s.skip(1));
        if is_white_space(s[0]) {
            assert(s.drop_first() =~= s.skip(1));
            assert(d.drop_first() =~= d.skip(1));
            lemma_collapse_without_leading(s);
            lemma_collapse_without_leading(d);
        } else {
            lemma_collapse_first(s);
            lemma_collapse_first(d);
            if collapse(s.skip(1)).len() > 0 {
                if d.len() == 1 {
                    lemma_collapse_empty(d.skip(1));
                }
                assert(d[1] == s[1]);
            }
        }
    }
}

/// Leading white space belongs to no word.
proof fn lemma_collapse_without_leading(s: Seq<char>)
    requires
        s.len() > 0,
        is_white_space(s[0]),
    ensures
        collapse(s.drop_first()) == collapse(s),
{
    lemma_trim_start(s.drop_first());
    assert(trim_start(s) == trim_start(s.drop_first()));
    lemma_word_len(trim_start(s));
}

proof fn lemma_collapse_trim_start(s: Seq<char>)
    ensures
        collapse(trim_start(s)) == collapse(s),
    decreases s.len(),
{
    if s.len() > 0 && is_white_space(s[0]) {
        lemma_collapse_without_leading(s);
        lemma_collapse_trim_start(s.drop_first());
    }
}

/// What is left without the white space at its end begins as the text did.
proof fn lemma_trim_end_begins(s: Seq<char>)
    ensures
        trim_end(s).len() <= s.len(),
        trim_end(s).len() > 0 ==> trim_end(s)[0] == s[0],
    decreases s.len(),
{
    if s.len() > 0 && is_white_space(s.last()) {
        lemma_trim_end_begins(s.drop_last());
    }
}

/// Texts of the same words are alike without the white space around them.
proof fn lemma_alike_trimmed(a: Seq<char>, b: Seq<char>)
    requires
        collapse(a) == collapse(b),
    ensures
        alike(trim(a), trim(b)),
        trim(a).len() > 0 <==> collapse(a).len() > 0,
        trim(a).len() > 0 ==> !is_white_space(trim(a)[0]),
        trim(b).len() > 0 <==> collapse(b).len() > 0,
        trim(b).len() > 0 ==> !is_white_space(trim(b)[0]),
{
    lemma_trimmed(a);
    lemma_trimmed(b);
}

proof fn lemma_trimmed(s: Seq<char>)
    ensures
        collapse(trim(s)) == collapse(s),
        trim(s).len() > 0 <==> collapse(s).len() > 0,
        trim(s).len() > 0 ==> !is_white_space(trim(s)[0]),
{
    let t = trim_start(s);
    lemma_collapse_trim_start(s);
    lemma_collapse_trim_end(t);
    lemma_trim_start(s);
    lemma_trim_end_begins(t);
    lemma_collapse_empty(trim(s));
}

/// Only the words of a text make its transcript: how much white space of which
/// kind stands around and between them makes no difference.
pub proof fn law_the_words_make_the_transcript(a: Seq<char>, b: Seq<char>)
    requires
        collapse(a) == collapse(b),
    ensures
        transcript(a) == transcript(b),
{
    let ta = trim(a);
    let tb = trim(b);
    lemma_alike_trimmed(a, b);
    let quote = seq!['"', '\''];
    let apostrophe = seq!['\'', '"'];
    assert(alike(tb, ta));
    if begins_with(ta, quote) {
        lemma_alike_begins_with(ta, tb, '"', '\'');
    }
    if begins_with(tb, quote) {
        lemma_alike_begins_with(tb, ta, '"', '\'');
    }
    if begins_with(ta, apostrophe) {
        lemma_alike_begins_with(ta, tb, '\'', '"');
    }
    if begins_with(tb, apostrophe) {
        lemma_alike_begins_with(tb, ta, '\'', '"');
    }
    let opened = begins_with(ta, quote) || begins_with(ta, apostrophe);
    let sa = if opened {
        trim(strip_prefixes(strip_prefixes(ta, quote), apostrophe))
    } else {
        ta
    };
    let sb = if opened {
        trim(strip_prefixes(strip_prefixes(tb, quote), apostrophe))
    } else {
        tb
    };
    if opened {
        lemma_alike_stripped(ta, tb, '"', '\'');
        let ua = strip_prefixes(ta, quote);
        let ub = strip_prefixes(tb, quote);
        lemma_alike_stripped(ua, ub, '\'', '"');
        lemma_alike_trimmed(strip_prefixes(ua, apostrophe), strip_prefixes(ub, apostrophe));
    }
    assert(alike(sa, sb));
    if sa.len() > 0 && sa[0] == '\'' {
        lemma_alike_without_first(sa, sb);
        lemma_alike_trimmed(sa.skip(1), sb.skip(1));
    } else if sb.len() > 0 && sb[0] == '\'' {
        lemma_collapse_empty(sa);
        lemma_collapse_empty(sb);
        lemma_alike_without_first(sb, sa);
    }
    assert(collapse(unquoted(a)) == collapse(unquoted(b)));
}

proof fn lemma_filter_first(s: Seq<char>, keep: spec_fn(char) -> bool)
    requires
        s.len() > 0,
    ensures
        s.filter(keep) == if keep(s[0]) {
            seq![s[0]] + s.skip(1).filter(keep)
        } else {
            s.skip(1).filter(keep)
        },
{
    let first = seq![s[0]];
    assert(s =~= first + s.skip(1));
    Seq::filter_distributes_over_add(first, s.skip(1), keep);
    reveal(Seq::filter);
    assert(first.drop_last() =~= Seq::<char>::empty());
    assert(Seq::<char>::empty().filter(keep) =~= Seq::<char>::empty());
    assert(first.filter(keep) =~= if keep(s[0]) {
        first
    } else {
        Seq::<char>::empty()
    });
    assert(Seq::<char>::empty() + s.skip(1).filter(keep) =~= s.skip(1).filter(keep));
}

proof fn lemma_filter_empty(s: Seq<char>, keep: spec_fn(char) -> bool)
    requires
        s.len() == 0,
    ensures
        s.filter(keep) == s,
{
    reveal(Seq::filter);
    assert(s.filter(keep) =~= s);
}

/// Texts that are alike stay so behind a character of a word.
proof fn lemma_alike_behind(c: char, x: Seq<char>, y: Seq<char>)
    requires
        !is_white_space(c),
        alike(x, y),
    ensures
        alike(seq![c] + x, seq![c] + y),
{
    let a = seq![c] + x;
    let b = seq![c] + y;
    assert(a.skip(1) =~= x);
    assert(b.skip(1) =~= y);
    lemma_collapse_first(a);
    lemma_collapse_first(b);
    if collapse(x).len() > 0 {
        lemma_collapse_empty(x);
        lemma_collapse_empty(y);
        assert(a[1] == x[0]);
        assert(b[1] == y[0]);
    }
}

/// Texts of the same words are alike behind white space.
proof fn lemma_alike_behind_space(c: char, d: char, x: Seq<char>, y: Seq<char>)
    requires
        is_white_space(c),
        is_white_space(d),
        collapse(x) == collapse(y),
    ensures
        alike(seq![c] + x, seq![d] + y),
        collapse(seq![c] + x) == collapse(x),
{
    let a = seq![c] + x;
    let b = seq![d] + y;
    assert(a.drop_first() =~= x);
    assert(b.drop_first() =~= y);
    lemma_collapse_without_leading(a);
    lemma_collapse_without_leading(b);
}

/// Leaving characters of words out, and collapsing before it, comes to the same
/// words.
proof fn lemma_filter_of_collapsed(s: Seq<char>, keep: spec_fn(char) -> bool)
    requires
        forall|c: char| is_white_space(c) ==> keep(c),
    ensures
        collapse(collapse(s).filter(keep)) == collapse(s.filter(keep)),
        s.len() == 0 || !is_white_space(s[0]) ==> alike(collapse(s).filter(keep), s.filter(keep)),
    decreases s.len(),
{
    if s.len() == 0 {
        lemma_collapse_empty(s);
        assert(collapse(s) =~= s);
    } else if is_white_space(s[0]) {
        let r = s.skip(1);
        assert(s.drop_first() =~= r);
        lemma_collapse_without_leading(s);
        lemma_filter_of_collapsed(r, keep);
        lemma_filter_first(s, keep);
        lemma_alike_behind_space(s[0], s[0], r.filter(keep), r.filter(keep));
    } else {
        let r = s.skip(1);
        let k = collapse(r);
        lemma_filter_of_collapsed(r, keep);
        lemma_collapse_first(s);
        lemma_filter_first(s, keep);
        let c = collapse(s);
        let tail = c.skip(1);
        lemma_filter_first(c, keep);
        assert(tail.filter(keep) == c.skip(1).filter(keep));
        assert(alike(tail.filter(keep), r.filter(keep))) by {
            if k.len() == 0 {
                assert(tail =~= Seq::<char>::empty());
                assert(k =~= Seq::<char>::empty());
                assert(tail == k);
                lemma_filter_empty(tail, keep);
                lemma_collapse_empty(tail);
            } else if is_white_space(s[1]) {
                assert(tail =~= seq![' '] + k);
                lemma_filter_first(tail, keep);
                assert(tail.skip(1) =~= k);
                assert(r[0] == s[1]);
                let rr = r.skip(1);
                lemma_filter_first(r, keep);
                assert(r.drop_first() =~= rr);
                lemma_alike_behind_space(s[1], s[1], rr.filter(keep), rr.filter(keep));
                lemma_alike_behind_space(' ', s[1], k.filter(keep), rr.filter(keep));
            } else {
                assert(tail =~= k);
                assert(r[0] == s[1]);
            }
        }
        if keep(s[0]) {
            lemma_alike_behind(s[0], tail.filter(keep), r.filter(keep));
        }
    }
}

proof fn lemma_filter_of_trimmed_start(s: Seq<char>, keep: spec_fn(char) -> bool)
    requires
        forall|c: char| is_white_space(c) ==> keep(c),
    ensures
        collapse(trim_start(s).filter(keep)) == collapse(s.filter(keep)),
    decreases s.len(),
{
    if s.len() > 0 && is_white_space(s[0]) {
        let r = s.drop_first();
        assert(r =~= s.skip(1));
        lemma_filter_of_trimmed_start(r, keep);
        lemma_filter_first(s, keep);
        lemma_alike_behind_space(s[0], s[0], r.filter(keep), r.filter(keep));
    }
}

proof fn lemma_filter_of_trimmed_end(s: Seq<char>, keep: spec_fn(char) -> bool)
    requires
        forall|c: char| is_white_space(c) ==> keep(c),
    ensures
        collapse(trim_end(s).filter(keep)) == collapse(s.filter(keep)),
    decreases s.len(),
{
    if s.len() > 0 && is_white_space(s.last()) {
        lemma_filter_of_trimmed_end(s.drop_last(), keep);
        reveal(Seq::filter);
        let f = s.filter(keep);
        assert(f == s.drop_last().filter(keep).push(s.last()));
        assert(f.drop_last() =~= s.drop_last().filter(keep));
        lemma_collapse_without_last(f);
    }
}

proof fn lemma_filter_of_stripped(s: Seq<char>, p: char, q: char, keep: spec_fn(char) -> bool)
    requires
        !keep(p),
        !keep(q),
    ensures
        strip_prefixes(s, seq![p, q]).filter(keep) == s.filter(keep),
    decreases s.len(),
{
    if begins_with(s, seq![p, q]) {
        assert(s.take(2)[0] == p && s.take(2)[1] == q);
        lemma_filter_first(s, keep);
        lemma_filter_first(s.skip(1), keep);
        assert(s.skip(1)[0] == q);
        assert(s.skip(1).skip(1) =~= s.skip(2));
        lemma_filter_of_stripped(s.skip(2), p, q, keep);
    }
}

proof fn lemma_filter_of_stripped_last(s: Seq<char>, c: char, keep: spec_fn(char) -> bool)
    requires
        !keep(c),
    ensures
        strip_last(s, c).filter(keep) == s.filter(keep),
    decreases s.len(),
{
    if s.len() > 0 && s.last() == c {
        reveal(Seq::filter);
        lemma_filter_of_stripped_last(s.drop_last(), c, keep);
    }
}

proof fn lemma_filter_of_replaced(s: Seq<char>, a: char, b: char, keep: spec_fn(char) -> bool)
    requires
        forall|c: char| is_white_space(c) ==> keep(c),
        !keep(a),
        !keep(b),
    ensures
        alike(replace(s, seq![' ', a, b, ' '], seq![' ']).filter(keep), s.filter(keep)),
    decreases s.len(),
{
    let from = seq![' ', a, b, ' '];
    let to = seq![' '];
    let r = replace(s, from, to);
    if s.len() == 0 {
    } else if begins_with(s, from) {
        let rest = s.skip(4);
        let t = s.take(4);
        assert(t[0] == ' ' && t[1] == a && t[2] == b && t[3] == ' ');
        assert(is_white_space(' '));
        let s1 = s.skip(1);
        let s2 = s.skip(2);
        let s3 = s.skip(3);
        lemma_filter_first(s, keep);
        lemma_filter_first(s1, keep);
        lemma_filter_first(s2, keep);
        lemma_filter_first(s3, keep);
        assert(s1.skip(1) =~= s2 && s2.skip(1) =~= s3 && s3.skip(1) =~= rest);
        assert(s1[0] == a && s2[0] == b && s3[0] == ' ');
        let tail = replace(rest, from, to);
        lemma_filter_of_replaced(rest, a, b, keep);
        lemma_filter_first(r, keep);
        assert(r.skip(1) =~= tail);
        let y = rest.filter(keep);
        let x = tail.filter(keep);
        lemma_alike_behind_space(' ', ' ', y, y);
        lemma_alike_behind_space(' ', ' ', x, seq![' '] + y);
    } else {
        let rest = s.drop_first();
        assert(rest =~= s.skip(1));
        let tail = replace(rest, from, to);
        lemma_filter_of_replaced(rest, a, b, keep);
        assert(r =~= seq![s[0]] + tail);
        assert(r.skip(1) =~= tail);
        lemma_filter_first(r, keep);
        lemma_filter_first(s, keep);
        let x = tail.filter(keep);
        let y = rest.filter(keep);
        if is_white_space(s[0]) {
            lemma_alike_behind_space(s[0], s[0], x, y);
        } else if keep(s[0]) {
            lemma_alike_behind(s[0], x, y);
        }
    }
}

/// Nothing but quote marks and white space is ever removed: quote marks apart,
/// the words of a transcript are those of its text, all of them and in order.
pub proof fn law_every_word_is_kept(text: Seq<char>)
    requires
        transcript(text) is Some,
    ensures
        ({
            let plain = |s: Seq<char>| s.filter(|c: char| c != '"' && c != '\'');
            collapse(plain(transcript(text)->0)) == collapse(plain(text))
        }),
{
    let keep = |c: char| c != '"' && c != '\'';
    lemma_words_of_tidied(text, keep);
    let t = tidied(text);
    lemma_filter_of_stripped_last(t, '\'', keep);
    lemma_filter_of_stripped_last(strip_last(t, '\''), '"', keep);
}

proof fn lemma_words_of_trim(s: Seq<char>, keep: spec_fn(char) -> bool)
    requires
        forall|c: char| is_white_space(c) ==> keep(c),
    ensures
        collapse(trim(s).filter(keep)) == collapse(s.filter(keep)),
{
    lemma_filter_of_trimmed_start(s, keep);
    lemma_filter_of_trimmed_end(trim_start(s), keep);
}

proof fn lemma_words_of_tidied(text: Seq<char>, keep: spec_fn(char) -> bool)
    requires
        keep == (|c: char| c != '"' && c != '\''),
    ensures
        collapse(tidied(text).filter(keep)) == collapse(text.filter(keep)),
{
    let quote = seq!['"', '\''];
    let apostrophe = seq!['\'', '"'];
    let t = trim(text);
    lemma_words_of_trim(text, keep);
    let u = if begins_with(t, quote) || begins_with(t, apostrophe) {
        trim(strip_prefixes(strip_prefixes(t, quote), apostrophe))
    } else {
        t
    };
    if begins_with(t, quote) || begins_with(t, apostrophe) {
        lemma_filter_of_stripped(t, '"', '\'', keep);
        lemma_filter_of_stripped(strip_prefixes(t, quote), '\'', '"', keep);
        lemma_words_of_trim(strip_prefixes(strip_prefixes(t, quote), apostrophe), keep);
    }
    if u.len() > 0 && u[0] == '\'' {
        lemma_filter_first(u, keep);
        lemma_words_of_trim(u.skip(1), keep);
    }
    let v = unquoted(text);
    assert(collapse(v.filter(keep)) == collapse(text.filter(keep)));
    lemma_filter_of_collapsed(v, keep);
    let c = collapse(v);
    lemma_filter_of_replaced(c, '"', '\'', keep);
    let d = replace(c, seq![' ', '"', '\'', ' '], seq![' ']);
    lemma_filter_of_replaced(d, '\'', '"', keep);
}

proof fn lemma_filter_all(s: Seq<char>, keep: spec_fn(char) -> bool)
    requires
        forall|c: char| #[trigger] keep(c),
    ensures
        s.filter(keep) == s,
    decreases s.len(),
{
    reveal(Seq::filter);
    if s.len() > 0 {
        lemma_filter_all(s.drop_last(), keep);
        assert(s =~= s.drop_last().push(s.last()));
    } else {
        assert(s.filter(keep) =~= s);
    }
}

proof fn lemma_collapse_twice(s: Seq<char>)
    ensures
        collapse(collapse(s)) == collapse(s),
{
    let keep = |c: char| true;
    lemma_filter_of_collapsed(s, keep);
    lemma_filter_all(s, keep);
    lemma_filter_all(collapse(s), keep);
}

proof fn lemma_nothing_to_trim(s: Seq<char>)
    requires
        s.len() > 0 ==> !is_white_space(s[0]) && !is_white_space(s.last()),
    ensures
        trim(s) == s,
{
}

/// A text in which `from` is nowhere is kept as it is.
proof fn lemma_nothing_to_replace(s: Seq<char>, from: Seq<char>, to: Seq<char>)
    requires
        from.len() > 0,
        forall|i: int| 0 <= i <= s.len() - from.len() ==> #[trigger] s.subrange(i, i + from.len())
            != from,
    ensures
        replace(s, from, to) == s,
    decreases s.len(),
{
    if s.len() > 0 {
        if begins_with(s, from) {
            let first: int = 0;
            assert(s.subrange(first, first + from.len()) =~= s.take(from.len() as int));
        }
        let rest = s.drop_first();
        assert forall|i: int| 0 <= i <= rest.len() - from.len() implies #[trigger] rest.subrange(
            i,
            i + from.len(),
        ) != from by {
            assert(s.subrange(i + 1, i + 1 + from.len()) =~= rest.subrange(i, i + from.len()));
        }
        lemma_nothing_to_replace(rest, from, to);
        assert(seq![s[0]] + rest =~= s);
    }
}

/// Where there is nothing to remove nothing is removed: a text that opens with
/// no apostrophe and no quote pair, closes with no quote mark and has no quote
/// pair as a word of its own becomes its words, one space apart.
pub proof fn law_nothing_else_is_removed(text: Seq<char>)
    requires
        ({
            let c = collapse(text);
            &&& c.len() > 0 && c != seq!['.']
            &&& c[0] != '\''
            &&& !(c.len() > 1 && c[0] == '"' && c[1] == '\'')
            &&& c.last() != '\'' && c.last() != '"'
            &&& forall|i: int|
                0 <= i <= c.len() - 4 ==> #[trigger] c.subrange(i, i + 4) != seq![
                    ' ',
                    '"',
                    '\'',
                    ' ',
                ] && c.subrange(i, i + 4) != seq![' ', '\'', '"', ' ']
        }),
    ensures
        transcript(text) == Some(collapse(text)),
{
    let c = collapse(text);
    lemma_collapse_twice(text);
    law_the_words_make_the_transcript(text, c);
    lemma_collapse_is_single_spaced(text);
    lemma_nothing_to_trim(c);
    if begins_with(c, seq!['"', '\'']) {
        assert(c.take(2)[0] == '"' && c.take(2)[1] == '\'');
    }
    if begins_with(c, seq!['\'', '"']) {
        assert(c.take(2)[0] == '\'');
    }
    assert(unquoted(c) == c);
    let one = seq![' ', '"', '\'', ' '];
    let two = seq![' ', '\'', '"', ' '];
    assert forall|i: int| 0 <= i <= c.len() - one.len() implies #[trigger] c.subrange(
        i,
        i + one.len(),
    ) != one by {
        assert(c.subrange(i, i + 4) == c.subrange(i, i + one.len()));
    }
    assert forall|i: int| 0 <= i <= c.len() - two.len() implies #[trigger] c.subrange(
        i,
        i + two.len(),
    ) != two by {
        assert(c.subrange(i, i + 4) == c.subrange(i, i + two.len()));
    }
    lemma_nothing_to_replace(c, one, seq![' ']);
    lemma_nothing_to_replace(c, two, seq![' ']);
    assert(tidied(c) == c);
}

/// Words one space apart are what they are collapsed to.
proof fn lemma_collapsed_already(s: Seq<char>)
    requires
        forall|i: int|
            0 <= i < s.len() && is_white_space(#[trigger] s[i]) ==> s[i] == ' ' && 0 < i < s.len()
                - 1 && !is_white_space(s[i + 1]),
    ensures
        collapse(s) == s,
    decreases s.len(),
{
    if s.len() == 0 {
        lemma_collapse_empty(s);
        assert(collapse(s) =~= s);
    } else {
        lemma_collapse_first(s);
        let r = s.skip(1);
        if s.len() == 1 {
            lemma_collapse_empty(r);
            assert(s =~= seq![s[0]]);
        } else if is_white_space(s[1]) {
            let rr = s.skip(2);
            assert(r.drop_first() =~= rr);
            assert(r[0] == s[1]);
            lemma_collapse_without_leading(r);
            assert forall|i: int| 0 <= i < rr.len() && is_white_space(#[trigger] rr[i]) implies
                rr[i] == ' ' && 0 < i < rr.len() - 1 && !is_white_space(rr[i + 1]) by {
                assert(rr[i] == s[i + 2]);
                assert(s[i + 3] == rr[i + 1]);
            }
            lemma_collapsed_already(rr);
            assert(s =~= seq![s[0], ' '] + rr);
        } else {
            assert forall|i: int| 0 <= i < r.len() && is_white_space(#[trigger] r[i]) implies r[i]
                == ' ' && 0 < i < r.len() - 1 && !is_white_space(r[i + 1]) by {
                assert(r[i] == s[i + 1]);
                assert(s[i + 2] == r[i + 1]);
            }
            lemma_collapsed_already(r);
            assert(s =~= seq![s[0]] + r);
        }
    }
}

/// A text without quote marks whose words are already one space apart is its
/// own transcript, whatever it says and however long it is, unless it says
/// nothing but a full stop.
pub proof fn law_a_plain_text_is_its_own_transcript(text: Seq<char>)
    requires
        text.len() > 0,
        text != seq!['.'],
        forall|i: int| 0 <= i < text.len() ==> #[trigger] text[i] != '"' && text[i] != '\'',
        forall|i: int|
            0 <= i < text.len() && is_white_space(#[trigger] text[i]) ==> text[i] == ' ' && 0 < i
                < text.len() - 1 && !is_white_space(text[i + 1]),
    ensures
        transcript(text) == Some(text),
{
    lemma_collapsed_already(text);
    assert forall|i: int| 0 <= i <= text.len() - 4 implies #[trigger] text.subrange(i, i + 4)
        != seq![' ', '"', '\'', ' '] && text.subrange(i, i + 4) != seq![' ', '\'', '"', ' '] by {
        let part = text.subrange(i, i + 4);
        assert(part[1] == text[i + 1]);
    }
    law_nothing_else_is_removed(text);
}

proof fn lemma_trim_end_behind(a: Seq<char>, t: Seq<char>)
    requires
        t.len() > 0,
        !is_white_space(t[0]),
    ensures
        trim_end(a + t) == a + trim_end(t),
        trim_end(t).len() > 0,
        trim_end(t)[0] == t[0],
        !is_white_space(trim_end(t).last()),
        trim_end(t) == t.take(trim_end(t).len() as int),
        trim_end(t).len() <= t.len(),
    decreases t.len(),
{
    let x = a + t;
    assert(x.last() == t.last());
    if is_white_space(t.last()) {
        assert(t.len() > 1);
        assert(x.drop_last() =~= a + t.drop_last());
        lemma_trim_end_behind(a, t.drop_last());
        assert(t.drop_last().take(trim_end(t).len() as int) =~= t.take(trim_end(t).len() as int));
    } else {
        assert(t.take(t.len() as int) =~= t);
    }
}

proof fn lemma_strip_one(p: char, q: char, e: Seq<char>)
    ensures
        strip_prefixes(seq![p, q] + e, seq![p, q]) == strip_prefixes(e, seq![p, q]),
        begins_with(seq![p, q] + e, seq![p, q]),
{
    let x = seq![p, q] + e;
    assert(x.take(2) =~= seq![p, q]);
    assert(x.skip(2) =~= e);
}

/// A quote pair that a text opens with makes no difference, and neither does
/// another one before it.
pub proof fn law_opening_quote_pairs_are_removed(t: Seq<char>)
    requires
        t.len() > 0,
        !is_white_space(t[0]),
    ensures
        transcript(seq!['"', '\''] + t) == transcript(t),
        !(t.len() > 1 && t[0] == '"' && t[1] == '\'') ==> transcript(seq!['\'', '"'] + t)
            == transcript(t),
{
    let q = seq!['"', '\''];
    let a = seq!['\'', '"'];
    let e = trim_end(t);
    lemma_trim_end_behind(q, t);
    lemma_trim_end_behind(a, t);
    lemma_trim_end_behind(Seq::empty(), e);
    assert(trim_start(t) == t);
    assert((q + t)[0] == '"' && (a + t)[0] == '\'');
    assert(trim_start(q + t) == q + t);
    assert(trim_start(a + t) == a + t);
    assert(trim(t) == e);
    lemma_nothing_to_trim(e);
    lemma_strip_one('"', '\'', e);
    lemma_strip_one('\'', '"', e);
    assert(unquoted(q + t) == unquoted(t));
    if !(t.len() > 1 && t[0] == '"' && t[1] == '\'') {
        if begins_with(e, q) {
            assert(e.take(2)[0] == '"' && e.take(2)[1] == '\'');
            assert(t.take(e.len() as int)[1] == t[1]);
        }
        if begins_with(a + e, q) {
            assert((a + e).take(2)[0] == '\'');
        }
        assert(unquoted(a + t) == unquoted(t));
    }
}

/// An apostrophe that a text opens with makes no difference.
pub proof fn law_an_opening_apostrophe_is_removed(t: Seq<char>)
    requires
        t.len() > 0,
        !is_white_space(t[0]),
        t[0] != '\'',
        t[0] != '"',
    ensures
        transcript(seq!['\''] + t) == transcript(t),
{
    let a = seq!['\''];
    let e = trim_end(t);
    lemma_trim_end_behind(a, t);
    assert(trim_start(t) == t);
    assert((a + t)[0] == '\'');
    assert(trim_start(a + t) == a + t);
    lemma_nothing_to_trim(e);
    let x = a + e;
    assert(x[1] == t[0]);
    if begins_with(x, seq!['"', '\'']) {
        assert(x.take(2)[0] == '"');
    }
    if begins_with(x, seq!['\'', '"']) {
        assert(x.take(2)[1] == '"');
    }
    if begins_with(e, seq!['"', '\'']) {
        assert(e.take(2)[0] == '"');
    }
    if begins_with(e, seq!['\'', '"']) {
        assert(e.take(2)[0] == '\'');
    }
    assert(x.skip(1) =~= e);
    assert(unquoted(a + t) == unquoted(t));
}

/// Texts are collapsed piece by piece: what stands behind a word without white
/// space is the rest of it.
proof fn lemma_collapse_behind_word(u: Seq<char>, q: Seq<char>)
    requires
        u.len() > 0,
        !is_white_space(u.last()),
        forall|i: int| 0 <= i < q.len() ==> !is_white_space(#[trigger] q[i]),
    ensures
        collapse(u + q) == collapse(u) + q,
        collapse(u).len() > 0,
        collapse(u).last() == u.last(),
    decreases u.len(),
{
    let x = u + q;
    assert(x[0] == u[0]);
    if u.len() == 1 {
        lemma_collapse_first(u);
        lemma_collapse_empty(u.skip(1));
        assert(collapse(u) =~= u);
        assert(x =~= u + q);
        assert forall|i: int| 0 <= i < x.len() && is_white_space(#[trigger] x[i]) implies x[i]
            == ' ' && 0 < i < x.len() - 1 && !is_white_space(x[i + 1]) by {
            if i > 0 {
                assert(x[i] == q[i - 1]);
            }
        }
        lemma_collapsed_already(x);
    } else {
        let r = u.skip(1);
        assert(x.skip(1) =~= r + q);
        assert(r.last() == u.last());
        lemma_collapse_behind_word(r, q);
        if is_white_space(u[0]) {
            assert(u.drop_first() =~= r);
            assert(x.drop_first() =~= r + q);
            lemma_collapse_without_leading(u);
            lemma_collapse_without_leading(x);
        } else {
            lemma_collapse_first(u);
            lemma_collapse_first(x);
            assert(x[1] == u[1]);
            if is_white_space(u[1]) {
                assert(collapse(x) =~= collapse(u) + q);
            } else {
                assert(collapse(x) =~= collapse(u) + q);
            }
        }
    }
}

proof fn lemma_replace_behind(s: Seq<char>, q: Seq<char>, a: char, b: char)
    requires
        s.len() > 0,
        s.last() != ' ',
        forall|i: int| 0 <= i < q.len() ==> #[trigger] q[i] != ' ',
    ensures
        replace(s + q, seq![' ', a, b, ' '], seq![' ']) == replace(
            s,
            seq![' ', a, b, ' '],
            seq![' '],
        ) + q,
        replace(s, seq![' ', a, b, ' '], seq![' ']).len() > 0,
        replace(s, seq![' ', a, b, ' '], seq![' ']).last() == s.last(),
    decreases s.len(),
{
    let from = seq![' ', a, b, ' '];
    let to = seq![' '];
    let x = s + q;
    assert(x[0] == s[0]);
    if begins_with(s, from) {
        assert(s.take(4)[3] == ' ');
        assert(s.len() > 4);
        assert(x.take(4) =~= s.take(4));
        assert(x.skip(4) =~= s.skip(4) + q);
        assert(s.skip(4).last() == s.last());
        lemma_replace_behind(s.skip(4), q, a, b);
        assert(replace(x, from, to) =~= replace(s, from, to) + q);
    } else {
        if begins_with(x, from) {
            assert(x.take(4)[3] == ' ');
            if s.len() < 4 {
                assert(x[3] == q[3 - s.len()]);
            } else {
                assert(x.take(4) =~= s.take(4));
            }
        }
        let rest = s.drop_first();
        assert(x.drop_first() =~= rest + q);
        if rest.len() > 0 {
            assert(rest.last() == s.last());
            lemma_replace_behind(rest, q, a, b);
        } else {
            assert(rest + q =~= q);
            assert forall|i: int| 0 <= i <= q.len() - from.len() implies #[trigger] q.subrange(
                i,
                i + from.len(),
            ) != from by {
                assert(q.subrange(i, i + from.len())[0] == q[i]);
            }
            lemma_nothing_to_replace(q, from, to);
            assert(replace(rest, from, to) =~= rest);
        }
        assert(replace(x, from, to) =~= replace(s, from, to) + q);
    }
}

proof fn lemma_strip_behind(e: Seq<char>, z: Seq<char>, p: char, q: char)
    requires
        e.len() > 0,
        e.last() != p,
        e.last() != q,
    ensures
        strip_prefixes(e + z, seq![p, q]) == strip_prefixes(e, seq![p, q]) + z,
        begins_with(e + z, seq![p, q]) == begins_with(e, seq![p, q]),
        strip_prefixes(e, seq![p, q]).len() > 0,
        strip_prefixes(e, seq![p, q]).last() == e.last(),
    decreases e.len(),
{
    let x = e + z;
    if begins_with(e, seq![p, q]) {
        assert(e.take(2)[1] == q);
        assert(e.len() > 2);
        assert(x.take(2) =~= e.take(2));
        assert(x.skip(2) =~= e.skip(2) + z);
        assert(e.skip(2).last() == e.last());
        lemma_strip_behind(e.skip(2), z, p, q);
    } else if begins_with(x, seq![p, q]) {
        assert(x.take(2)[0] == p);
        if e.len() == 1 {
            assert(x[0] == e[0]);
        } else {
            assert(x.take(2) =~= e.take(2));
        }
    }
}

proof fn lemma_trim_start_behind(t: Seq<char>, z: Seq<char>)
    requires
        t.len() > 0,
        !is_white_space(t.last()),
    ensures
        trim_start(t + z) == trim_start(t) + z,
        trim_start(t).len() > 0,
        trim_start(t).last() == t.last(),
    decreases t.len(),
{
    let x = t + z;
    assert(x[0] == t[0]);
    if is_white_space(t[0]) {
        assert(t.len() > 1);
        assert(x.drop_first() =~= t.drop_first() + z);
        assert(t.drop_first().last() == t.last());
        lemma_trim_start_behind(t.drop_first(), z);
    }
}

proof fn lemma_trim_behind(t: Seq<char>, z: Seq<char>)
    requires
        t.len() > 0,
        !is_white_space(t.last()),
        z.len() > 0 ==> !is_white_space(z.last()),
    ensures
        trim(t + z) == trim(t) + z,
        trim(t).len() > 0,
        trim(t).last() == t.last(),
{
    lemma_trim_start_behind(t, z);
    let s = trim_start(t);
    if z.len() > 0 {
        assert((s + z).last() == z.last());
    } else {
        assert(s + z =~= s);
    }
}

/// What stands behind a text that closes with an ordinary character stays
/// behind what is left of it once its quotes are off.
proof fn lemma_unquoted_behind(t: Seq<char>, z: Seq<char>)
    requires
        t.len() > 0,
        !is_white_space(t.last()),
        t.last() != '\'',
        t.last() != '"',
        z.len() > 0 ==> !is_white_space(z.last()),
    ensures
        unquoted(t + z) == unquoted(t) + z,
        unquoted(t).len() > 0,
        unquoted(t).last() == t.last(),
{
    let quote = seq!['"', '\''];
    let apostrophe = seq!['\'', '"'];
    lemma_trim_behind(t, z);
    let e = trim(t);
    lemma_strip_behind(e, z, '"', '\'');
    lemma_strip_behind(e, z, '\'', '"');
    let f = strip_prefixes(e, quote);
    lemma_strip_behind(f, z, '\'', '"');
    let g = strip_prefixes(f, apostrophe);
    lemma_trim_behind(g, z);
    let u = if begins_with(e, quote) || begins_with(e, apostrophe) {
        trim(g)
    } else {
        e
    };
    assert((u + z)[0] == u[0]);
    if u[0] == '\'' {
        assert(u.len() > 1);
        assert((u + z).skip(1) =~= u.skip(1) + z);
        assert(u.skip(1).last() == u.last());
        lemma_trim_behind(u.skip(1), z);
    }
}

proof fn lemma_tidied_behind(t: Seq<char>, z: Seq<char>)
    requires
        t.len() > 0,
        !is_white_space(t.last()),
        t.last() != '\'',
        t.last() != '"',
        forall|i: int| 0 <= i < z.len() ==> !is_white_space(#[trigger] z[i]),
    ensures
        tidied(t + z) == tidied(t) + z,
        tidied(t).len() > 0,
        tidied(t).last() == t.last(),
{
    lemma_unquoted_behind(t, z);
    let u = unquoted(t);
    lemma_collapse_behind_word(u, z);
    let c = collapse(u);
    assert(is_white_space(' '));
    assert forall|i: int| 0 <= i < z.len() implies #[trigger] z[i] != ' ' by {}
    lemma_replace_behind(c, z, '"', '\'');
    let d = replace(c, seq![' ', '"', '\'', ' '], seq![' ']);
    lemma_replace_behind(d, z, '\'', '"');
}

proof fn lemma_strip_last_behind(s: Seq<char>, n: nat, c: char)
    requires
        s.len() > 0 ==> s.last() != c,
    ensures
        strip_last(s + Seq::new(n, |i: int| c), c) == s,
    decreases n,
{
    let x = s + Seq::new(n, |i: int| c);
    if n > 0 {
        assert(x.last() == c);
        assert(x.drop_last() =~= s + Seq::new((n - 1) as nat, |i: int| c));
        lemma_strip_last_behind(s, (n - 1) as nat, c);
    } else {
        assert(x =~= s);
    }
}

/// The quote marks that a text closes with make no difference: any double
/// quotes, and then any apostrophes.
pub proof fn law_closing_quote_marks_are_removed(t: Seq<char>, quotes: nat, apostrophes: nat)
    requires
        transcript(t) is Some,
        t.len() > 0,
        !is_white_space(t.last()),
        t.last() != '\'',
        t.last() != '"',
    ensures
        transcript(
            t + Seq::new(quotes, |i: int| '"') + Seq::new(apostrophes, |i: int| '\''),
        ) == transcript(t),
{
    let q = Seq::new(quotes, |i: int| '"');
    let a = Seq::new(apostrophes, |i: int| '\'');
    let z = q + a;
    assert(t + q + a =~= t + z);
    assert forall|i: int| 0 <= i < z.len() implies !is_white_space(#[trigger] z[i]) by {}
    lemma_tidied_behind(t, z);
    let c = tidied(t);
    let x = c + z;
    assert(x =~= c + q + a);
    if quotes > 0 {
        assert((c + q).last() == '"');
    } else {
        assert(c + q =~= c);
    }
    lemma_strip_last_behind(c + q, apostrophes, '\'');
    lemma_strip_last_behind(c, quotes, '"');
    assert(strip_last(c, '\'') == c);
    assert(strip_last(c, '"') == c);
    assert(!is_white_space(x[0]) || !is_white_space(x.last()));
    if x.len() == 1 {
        assert(x =~= c);
    } else {
        assert(x != seq!['.']);
    }
    assert(trim(x).len() > 0) by {
        if z.len() > 0 {
            assert(x.last() == z.last());
        }
        lemma_trim_behind(x, Seq::empty());
    }
}

/// What white space parts is collapsed part by part: the words of the one, a
/// space, and the words of the other.
pub proof fn law_collapsing_goes_part_by_part(a: Seq<char>, space: char, b: Seq<char>)
    requires
        is_white_space(space),
    ensures
        collapse(a + seq![space] + b) == if collapse(a).len() == 0 {
            collapse(b)
        } else if collapse(b).len() == 0 {
            collapse(a)
        } else {
            collapse(a) + seq![' '] + collapse(b)
        },
        (forall|i: int| 0 <= i < a.len() ==> !is_white_space(#[trigger] a[i])) ==> collapse(a)
            == a,
    decreases a.len(),
{
    let x = a + seq![space] + b;
    if forall|i: int| 0 <= i < a.len() ==> !is_white_space(#[trigger] a[i]) {
        lemma_collapsed_already(a);
    }
    if a.len() == 0 {
        lemma_collapse_empty(a);
        assert(x.drop_first() =~= b);
        lemma_collapse_without_leading(x);
    } else {
        let r = a.skip(1);
        law_collapsing_goes_part_by_part(r, space, b);
        assert(x.skip(1) =~= r + seq![space] + b);
        assert(x[0] == a[0]);
        if is_white_space(a[0]) {
            assert(a.drop_first() =~= r);
            assert(x.drop_first() =~= r + seq![space] + b);
            lemma_collapse_without_leading(a);
            lemma_collapse_without_leading(x);
        } else {
            lemma_collapse_first(a);
            lemma_collapse_first(x);
            if a.len() == 1 {
                lemma_collapse_empty(r);
                assert(x[1] == space);
            } else {
                assert(x[1] == a[1]);
            }
            let cr = collapse(r);
            let cb = collapse(b);
            if cb.len() == 0 {
                assert(collapse(x) =~= collapse(a));
            } else if cr.len() == 0 {
                if a.len() > 1 && !is_white_space(a[1]) {
                    assert(r[0] == a[1]);
                    lemma_collapse_empty(r);
                }
                assert(collapse(x) =~= collapse(a) + seq![' '] + cb);
            } else {
                assert(collapse(x) =~= collapse(a) + seq![' '] + cb);
            }
        }
    }
}

/// Replacing goes part by part where no occurrence crosses from one to the
/// other.
proof fn lemma_replace_splits(s: Seq<char>, y: Seq<char>, a: char, b: char)
    requires
        s.len() > 0,
        s.last() != ' ',
        s.last() != a,
        s.last() != b,
    ensures
        ({
            let from = seq![' ', a, b, ' '];
            replace(s + y, from, seq![' ']) == replace(s, from, seq![' ']) + replace(
                y,
                from,
                seq![' '],
            )
        }),
    decreases s.len(),
{
    let from = seq![' ', a, b, ' '];
    let to = seq![' '];
    let x = s + y;
    if begins_with(s, from) {
        assert(s.take(4)[3] == ' ');
        assert(s.len() > 4);
        assert(x.take(4) =~= s.take(4));
        assert(x.skip(4) =~= s.skip(4) + y);
        assert(s.skip(4).last() == s.last());
        lemma_replace_splits(s.skip(4), y, a, b);
        assert(replace(x, from, to) =~= replace(s, from, to) + replace(y, from, to));
    } else {
        if begins_with(x, from) {
            let t = x.take(4);
            assert(t[0] == ' ' && t[1] == a && t[2] == b && t[3] == ' ');
            if s.len() < 4 {
                assert(t[s.len() - 1] == s.last());
            } else {
                assert(x.take(4) =~= s.take(4));
            }
        }
        let rest = s.drop_first();
        assert(x.drop_first() =~= rest + y);
        assert(x[0] == s[0]);
        if rest.len() > 0 {
            assert(rest.last() == s.last());
            lemma_replace_splits(rest, y, a, b);
        } else {
            assert(rest + y =~= y);
            assert(replace(rest, from, to) =~= rest);
        }
        assert(replace(x, from, to) =~= replace(s, from, to) + replace(y, from, to));
    }
}

/// A character that does not begin an occurrence stands before what is made of
/// the rest.
proof fn lemma_replace_skips(c: char, y: Seq<char>, a: char, b: char)
    requires
        c != ' ' || (y.len() > 0 ==> y[0] != a),
    ensures
        ({
            let from = seq![' ', a, b, ' '];
            replace(seq![c] + y, from, seq![' ']) == seq![c] + replace(y, from, seq![' '])
        }),
{
    let from = seq![' ', a, b, ' '];
    let x = seq![c] + y;
    if begins_with(x, from) {
        assert(x.take(4)[0] == ' ' && x.take(4)[1] == a);
        assert(x[1] == y[0]);
    }
    assert(x.drop_first() =~= y);
}

/// A quote pair that stands as a word of its own between two others is
/// removed, and leaves one space.
pub proof fn law_a_quote_pair_between_words_is_removed(a: Seq<char>, b: Seq<char>)
    requires
        a.len() > 0,
        !is_white_space(a.last()) && a.last() != '"' && a.last() != '\'',
        b.len() > 0,
        !is_white_space(b[0]) && b[0] != '"' && b[0] != '\'',
        !is_white_space(b.last()),
    ensures
        transcript(a + seq![' ', '"', '\'', ' '] + b) == transcript(a + seq![' '] + b),
        transcript(a + seq![' ', '\'', '"', ' '] + b) == transcript(a + seq![' '] + b),
{
    lemma_pair_between(a, b, '"', '\'');
    lemma_pair_between(a, b, '\'', '"');
    let u = unquoted(a);
    let z = seq![' '] + b;
    assert(a + seq![' '] + b =~= a + z);
    lemma_unquoted_behind(a, z);
    lemma_collapse_behind_word(u, Seq::empty());
    assert(u + Seq::<char>::empty() =~= u);
    lemma_collapse_first(b);
    law_collapsing_goes_part_by_part(u, ' ', b);
    assert(u + seq![' '] + b =~= u + z);
    let c = collapse(u);
    let d = collapse(b);
    let one = seq![' ', '"', '\'', ' '];
    let two = seq![' ', '\'', '"', ' '];
    let to = seq![' '];
    // With one space between them.
    let plain = c + to + d;
    assert(plain =~= c + (to + d));
    assert(tidied(a + z) == replace(replace(plain, one, to), two, to));
    let rc = replace(c, one, to);
    let rd = replace(d, one, to);
    lemma_replace_splits(c, to + d, '"', '\'');
    lemma_replace_skips(' ', d, '"', '\'');
    lemma_replace_behind(c, Seq::empty(), '"', '\'');
    lemma_replace_skips(d[0], d.skip(1), '"', '\'');
    assert(seq![d[0]] + d.skip(1) =~= d);
    // With the first pair between them.
    assert(c + one + d =~= c + (one + d));
    lemma_replace_splits(c, one + d, '"', '\'');
    assert((one + d).take(4) =~= one);
    assert((one + d).skip(4) =~= d);
    assert(replace(one + d, one, to) == to + rd);
    // With the second pair between them.
    assert(c + two + d =~= c + (two + d));
    lemma_replace_splits(c, two + d, '"', '\'');
    let t1 = seq!['\'', '"', ' '] + d;
    let t2 = seq!['"', ' '] + d;
    assert(two + d =~= seq![' '] + t1);
    assert(t1 =~= seq!['\''] + t2);
    assert(t2 =~= seq!['"'] + (to + d));
    lemma_replace_skips(' ', t1, '"', '\'');
    lemma_replace_skips('\'', t2, '"', '\'');
    lemma_replace_skips('"', to + d, '"', '\'');
    assert(replace(two + d, one, to) =~= two + rd);
    assert(rc.last() == c.last());
    lemma_replace_splits(rc, two + rd, '\'', '"');
    lemma_replace_splits(rc, to + rd, '\'', '"');
    assert(rd[0] == d[0]);
    lemma_replace_skips(' ', rd, '\'', '"');
    assert((two + rd).take(4) =~= two);
    assert((two + rd).skip(4) =~= rd);
    assert(replace(two + rd, two, to) == to + replace(rd, two, to));
}

/// What a text with a pair between two words is collapsed to before the pairs
/// are removed.
proof fn lemma_pair_between(a: Seq<char>, b: Seq<char>, p: char, q: char)
    requires
        a.len() > 0,
        !is_white_space(a.last()) && a.last() != '"' && a.last() != '\'',
        b.len() > 0,
        !is_white_space(b[0]),
        !is_white_space(b.last()),
        !is_white_space(p) && !is_white_space(q),
    ensures
        collapse(unquoted(a + seq![' ', p, q, ' '] + b)) == collapse(unquoted(a)) + seq![
            ' ',
            p,
            q,
            ' ',
        ] + collapse(b),
{
    let z = seq![' ', p, q, ' '] + b;
    assert(a + seq![' ', p, q, ' '] + b =~= a + z);
    lemma_unquoted_behind(a, z);
    let u = unquoted(a);
    lemma_collapse_behind_word(u, Seq::empty());
    assert(u + Seq::<char>::empty() =~= u);
    lemma_collapse_first(b);
    let w = seq![p, q];
    let rest = w + seq![' '] + b;
    law_collapsing_goes_part_by_part(w, ' ', b);
    lemma_collapsed_already(w);
    assert(collapse(rest) == w + seq![' '] + collapse(b));
    law_collapsing_goes_part_by_part(u, ' ', rest);
    assert(u + seq![' '] + rest =~= u + z);
    assert(collapse(u) + seq![' '] + (w + seq![' '] + collapse(b)) =~= collapse(u) + seq![
        ' ',
        p,
        q,
        ' ',
    ] + collapse(b));
}

/// A text is refused when it says nothing, or nothing but a full stop, and only
/// then, quote marks apart.
pub proof fn law_only_a_text_that_says_nothing_is_refused(text: Seq<char>)
    ensures
        (forall|i: int| 0 <= i < text.len() ==> is_white_space(#[trigger] text[i])) ==> transcript(
            text,
        ) is None,
        collapse(text) == seq!['.'] ==> transcript(text) is None,
        transcript(text) is None ==> ({
            let plain = text.filter(|c: char| c != '"' && c != '\'');
            collapse(plain).len() == 0 || collapse(plain) == seq!['.']
        }),
{
    if forall|i: int| 0 <= i < text.len() ==> is_white_space(#[trigger] text[i]) {
        lemma_all_white_space(text);
        law_the_words_make_the_transcript(text, Seq::empty());
    }
    if collapse(text) == seq!['.'] {
        let dot = seq!['.'];
        lemma_collapsed_already(dot);
        law_the_words_make_the_transcript(text, dot);
        lemma_nothing_to_trim(dot);
        assert(unquoted(dot) == dot) by {
            assert(!begins_with(dot, seq!['"', '\'']));
            assert(!begins_with(dot, seq!['\'', '"']));
        }
        lemma_nothing_to_replace(dot, seq![' ', '"', '\'', ' '], seq![' ']);
        lemma_nothing_to_replace(dot, seq![' ', '\'', '"', ' '], seq![' ']);
    }
    if transcript(text) is None {
        let keep = |c: char| c != '"' && c != '\'';
        lemma_words_of_tidied(text, keep);
        let t = tidied(text);
        if t == seq!['.'] {
            lemma_filter_first(t, keep);
            lemma_filter_empty(t.skip(1), keep);
            assert(t.filter(keep) =~= t);
            lemma_collapsed_already(t);
        } else {
            lemma_words_of_trim(t, keep);
            lemma_filter_empty(trim(t), keep);
            lemma_collapse_empty(trim(t));
        }
    }
}

proof fn lemma_all_white_space(s: Seq<char>)
    requires
        forall|i: int| 0 <= i < s.len() ==> is_white_space(#[trigger] s[i]),
    ensures
        collapse(s) == collapse(Seq::<char>::empty()),
        transcript(Seq::<char>::empty()) is None,
    decreases s.len(),
{
    let none = Seq::<char>::empty();
    lemma_collapse_empty(none);
    assert(collapse(none) =~= none);
    assert(trim(none) =~= none);
    assert(unquoted(none) =~= none);
    if s.len() > 0 {
        let r = s.drop_first();
        assert forall|i: int| 0 <= i < r.len() implies is_white_space(#[trigger] r[i]) by {
            assert(r[i] == s[i + 1]);
        }
        lemma_all_white_space(r);
        lemma_collapse_without_leading(s);
    } else {
        assert(s =~= none);
    }
}

} // verus!
