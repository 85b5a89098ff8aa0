//! Text as a sequence of characters: splitting, trimming, joining and
//! replacing, each stated over `Seq<char>`.

use vstd::prelude::*;

verus! {

/// `String::push`: appends one character to the end of the text.
pub assume_specification[ String::push ](s: &mut String, c: char)
    ensures
        final(s)@ == old(s)@.push(c),
;

/// The characters with Unicode's `White_Space` property.
pub open spec fn is_white_space(c: char) -> bool {
    let u = c as int;
    ||| 0x9 <= u <= 0xD
    ||| u == 0x20
    ||| u == 0x85
    ||| u == 0xA0
    ||| u == 0x1680
    ||| 0x2000 <= u <= 0x200A
    ||| u == 0x2028
    ||| u == 0x2029
    ||| u == 0x202F
    ||| u == 0x205F
    ||| u == 0x3000
}

/// Whether `c` is white space.
pub fn white_space(c: char) -> (res: bool)
    ensures
        res == is_white_space(c),
{
    let u: u32 = c as u32;
    (0x9 <= u && u <= 0xD) || u == 0x20 || u == 0x85 || u == 0xA0 || u == 0x1680 || (0x2000 <= u
        && u <= 0x200A) || u == 0x2028 || u == 0x2029 || u == 0x202F || u == 0x205F || u == 0x3000
}

/// The characters of `s`.
pub fn chars_of(s: &str) -> (res: Vec<char>)
    ensures
        res@ == s@,
{
    let mut res: Vec<char> = Vec::new();
    for c in it: s.chars()
        invariant
            it.seq() == s@,
            res@ == s@.take(it.index() as int),
    {
        res.push(c);
    }
    assert(s@.take(s@.len() as int) =~= s@);
    res
}

/// The text made of `chars`.
pub fn text_of(chars: &[char]) -> (res: String)
    ensures
        res@ == chars@,
{
    let mut res = String::new();
    let mut i: usize = 0;
    while i < chars.len()
        invariant
            i <= chars.len(),
            res@ == chars@.take(i as int),
        decreases chars.len() - i,
    {
        res.push(chars[i]);
        i = i + 1;
        assert(chars@.take(i as int) =~= chars@.take(i - 1).push(chars@[i - 1]));
    }
    assert(chars@.take(chars@.len() as int) =~= chars@);
    res
}

/// Whether two texts hold the same characters.
pub fn same_text(a: &str, b: &str) -> (res: bool)
    ensures
        res == (a@ == b@),
{
    let x: Vec<char> = chars_of(a);
    let y: Vec<char> = chars_of(b);
    same_chars(&x, &y)
}

/// Whether two runs of characters are the same.
pub fn same_chars(a: &[char], b: &[char]) -> (res: bool)
    ensures
        res == (a@ == b@),
{
    a.len() == b.len() && has_prefix(a, b)
}

/// Whether `s` begins with `prefix`.
pub open spec fn begins_with(s: Seq<char>, prefix: Seq<char>) -> bool {
    prefix.len() <= s.len() && s.take(prefix.len() as int) == prefix
}

/// Whether `s` begins with `prefix`.
pub fn has_prefix(s: &[char], prefix: &[char]) -> (res: bool)
    ensures
        res == begins_with(s@, prefix@),
        s@.len() == prefix@.len() ==> res == (s@ == prefix@),
{
    assert(s@.skip(0) =~= s@);
    has_prefix_at(s, 0, prefix)
}

/// Whether `s` carries `prefix` from index `from` on.
fn has_prefix_at(s: &[char], from: usize, prefix: &[char]) -> (res: bool)
    requires
        from <= s@.len(),
    ensures
        res == begins_with(s@.skip(from as int), prefix@),
        from == 0 && s@.len() == prefix@.len() ==> res == (s@ == prefix@),
{
    let len: usize = s.len();
    if len - from < prefix.len() {
        return false;
    }
    let ghost rest = s@.skip(from as int);
    let mut i: usize = 0;
    while i < prefix.len()
        invariant
            i <= prefix@.len() <= len - from,
            len == s@.len(),
            rest == s@.skip(from as int),
            forall|j: int| 0 <= j < i ==> rest[j] == prefix@[j],
        decreases prefix@.len() - i,
    {
        if s[from + i] != prefix[i] {
            assert(rest.take(prefix@.len() as int)[i as int] != prefix@[i as int]);
            return false;
        }
        i = i + 1;
    }
    assert(rest.take(prefix@.len() as int) =~= prefix@);
    assert(from == 0 ==> rest =~= s@);
    assert(s@.len() == prefix@.len() && from == 0 ==> rest.take(prefix@.len() as int) =~= s@);
    true
}

/// `s` without the white space it begins with.
pub open spec fn trim_start(s: Seq<char>) -> Seq<char>
    decreases s.len(),
{
    if s.len() > 0 && is_white_space(s[0]) {
        trim_start(s.drop_first())
    } else {
        s
    }
}

/// `s` without the white space it ends with.
pub open spec fn trim_end(s: Seq<char>) -> Seq<char>
    decreases s.len(),
{
    if s.len() > 0 && is_white_space(s.last()) {
        trim_end(s.drop_last())
    } else {
        s
    }
}

/// `s` without the white space around it.
pub open spec fn trim(s: Seq<char>) -> Seq<char> {
    trim_end(trim_start(s))
}

/// `s` without the white space around it.
pub fn trimmed(s: &[char]) -> (res: Vec<char>)
    ensures
        res@ == trim(s@),
{
    let mut from: usize = 0;
    assert(s@.skip(0) =~= s@);
    while from < s.len() && white_space(s[from])
        invariant
            from <= s@.len(),
            trim_start(s@) == trim_start(s@.skip(from as int)),
        decreases s@.len() - from,
    {
        assert(s@.skip(from as int).drop_first() =~= s@.skip(from + 1));
        from = from + 1;
    }
    let ghost rest = s@.skip(from as int);
    assert(trim_start(s@) == rest);
    let mut to: usize = s.len();
    assert(rest =~= s@.subrange(from as int, to as int));
    while from < to && white_space(s[to - 1])
        invariant
            from <= to <= s@.len(),
            trim_start(s@) == rest,
            trim_end(rest) == trim_end(s@.subrange(from as int, to as int)),
        decreases to - from,
    {
        assert(s@.subrange(from as int, to as int).drop_last() =~= s@.subrange(
            from as int,
            to - 1,
        ));
        to = to - 1;
    }
    between(s, from, to)
}

/// The characters of `s` from index `from` up to index `to`.
pub fn between(s: &[char], from: usize, to: usize) -> (res: Vec<char>)
    requires
        from <= to <= s@.len(),
    ensures
        res@ == s@.subrange(from as int, to as int),
{
    let mut res: Vec<char> = Vec::new();
    let mut i: usize = from;
    while i < to
        invariant
            from <= i <= to <= s@.len(),
            res@ == s@.subrange(from as int, i as int),
        decreases to - i,
    {
        res.push(s[i]);
        i = i + 1;
        assert(s@.subrange(from as int, i as int) =~= s@.subrange(from as int, i - 1).push(
            s@[i - 1],
        ));
    }
    res
}

/// `s` without the copies of `prefix` it begins with, however many there are.
pub open spec fn strip_prefixes(s: Seq<char>, prefix: Seq<char>) -> Seq<char>
    decreases s.len(),
{
    if prefix.len() > 0 && begins_with(s, prefix) {
        strip_prefixes(s.skip(prefix.len() as int), prefix)
    } else {
        s
    }
}

/// `s` without the copies of `prefix` it begins with, however many there are.
pub fn without_prefixes(s: &[char], prefix: &[char]) -> (res: Vec<char>)
    requires
        prefix@.len() > 0,
    ensures
        res@ == strip_prefixes(s@, prefix@),
{
    let len: usize = s.len();
    let mut from: usize = 0;
    assert(s@.skip(0) =~= s@);
    while has_prefix_at(s, from, prefix)
        invariant
            from <= len == s@.len(),
            prefix@.len() > 0,
            strip_prefixes(s@, prefix@) == strip_prefixes(s@.skip(from as int), prefix@),
        decreases s@.len() - from,
    {
        assert(s@.skip(from as int).skip(prefix@.len() as int) =~= s@.skip(from + prefix@.len()));
        from = from + prefix.len();
    }
    assert(s@.skip(from as int) =~= s@.subrange(from as int, s@.len() as int));
    between(s, from, s.len())
}

/// `s` without the copies of the character `c` it ends with.
pub open spec fn strip_last(s: Seq<char>, c: char) -> Seq<char>
    decreases s.len(),
{
    if s.len() > 0 && s.last() == c {
        strip_last(s.drop_last(), c)
    } else {
        s
    }
}

/// `s` without the copies of the character `c` it ends with.
pub fn without_last(s: &[char], c: char) -> (res: Vec<char>)
    ensures
        res@ == strip_last(s@, c),
{
    let mut to: usize = s.len();
    assert(s@ =~= s@.subrange(0, to as int));
    while to > 0 && s[to - 1] == c
        invariant
            to <= s@.len(),
            strip_last(s@, c) == strip_last(s@.subrange(0, to as int), c),
        decreases to,
    {
        assert(s@.subrange(0, to as int).drop_last() =~= s@.subrange(0, to - 1));
        to = to - 1;
    }
    between(s, 0, to)
}

/// The number of characters before the first white space of `s`.
pub open spec fn word_len(s: Seq<char>) -> nat
    decreases s.len(),
{
    if s.len() > 0 && !is_white_space(s[0]) {
        1 + word_len(s.drop_first())
    } else {
        0
    }
}

/// `s` with its words, the runs free of white space, one space apart and
/// nothing around them.
pub open spec fn collapse(s: Seq<char>) -> Seq<char>
    decreases s.len(),
{
    let t = trim_start(s);
    let n = word_len(t) as int;
    if t.len() == 0 || n == 0 || t.len() > s.len() || n > t.len() {
        seq![]
    } else {
        let rest = collapse(t.skip(n));
        if rest.len() == 0 {
            t.take(n)
        } else {
            t.take(n).push(' ') + rest
        }
    }
}

/// What `trim_start` leaves is no longer than the text and begins with no
/// white space.
pub proof fn lemma_trim_start(s: Seq<char>)
    ensures
        trim_start(s).len() <= s.len(),
        trim_start(s).len() > 0 ==> !is_white_space(trim_start(s)[0]),
    decreases s.len(),
{
    if s.len() > 0 && is_white_space(s[0]) {
        lemma_trim_start(s.drop_first());
    }
}

/// A word is no longer than the text, holds no white space and is as long as
/// it can be.
pub proof fn lemma_word_len(s: Seq<char>)
    ensures
        word_len(s) <= s.len(),
        forall|i: int| 0 <= i < word_len(s) ==> !is_white_space(s[i]),
        word_len(s) < s.len() ==> is_white_space(s[word_len(s) as int]),
    decreases s.len(),
{
    if s.len() > 0 && !is_white_space(s[0]) {
        lemma_word_len(s.drop_first());
        assert forall|i: int| 0 <= i < word_len(s) implies !is_white_space(s[i]) by {
            if i > 0 {
                assert(s[i] == s.drop_first()[i - 1]);
            }
        }
        if word_len(s) < s.len() {
            assert(s[word_len(s) as int] == s.drop_first()[word_len(s) - 1]);
        }
    }
}

/// A run of characters with no white space, ending at white space or at the
/// end, is the first word.
proof fn lemma_word_len_is(s: Seq<char>, n: int)
    requires
        0 <= n <= s.len(),
        forall|i: int| 0 <= i < n ==> !is_white_space(s[i]),
        n < s.len() ==> is_white_space(s[n]),
    ensures
        word_len(s) == n,
{
    lemma_word_len(s);
    if word_len(s) < n {
        assert(!is_white_space(s[word_len(s) as int]));
    }
}

/// `s` with its words one space apart and nothing around them.
pub fn collapsed(s: &[char]) -> (res: Vec<char>)
    ensures
        res@ == collapse(s@),
{
    let mut res: Vec<char> = Vec::new();
    let mut at: usize = 0;
    assert(s@.skip(0) =~= s@);
    // What is left to do, appended to what is done: with a space between them
    // when neither is empty.
    while at < s.len()
        invariant
            at <= s@.len(),
            collapse(s@) == joined(res@, collapse(s@.skip(at as int))),
            res@.len() > 0 ==> at > 0,
        decreases s@.len() - at,
    {
        let ghost before = at as int;
        let ghost done = res@;
        let ghost left = s@.skip(before);
        while at < s.len() && white_space(s[at])
            invariant
                before <= at <= s@.len(),
                left == s@.skip(before),
                trim_start(left) == trim_start(s@.skip(at as int)),
            decreases s@.len() - at,
        {
            assert(s@.skip(at as int).drop_first() =~= s@.skip(at + 1));
            at = at + 1;
        }
        let from: usize = at;
        let ghost t = s@.skip(from as int);
        assert(trim_start(left) == t);
        while at < s.len() && !white_space(s[at])
            invariant
                from <= at <= s@.len(),
                t == s@.skip(from as int),
                forall|i: int| 0 <= i < at - from ==> !is_white_space(t[i]),
            decreases s@.len() - at,
        {
            assert(t[at - from] == s@[at as int]);
            at = at + 1;
        }
        proof {
            assert(at < s@.len() ==> t[at - from] == s@[at as int]);
            lemma_word_len_is(t, at - from);
            assert(t.skip(at - from) =~= s@.skip(at as int));
            assert(t.take(at - from) =~= s@.subrange(from as int, at as int));
        }
        if from < at {
            if res.len() > 0 {
                res.push(' ');
            }
            let ghost sofar = res@;
            let mut word: Vec<char> = between(s, from, at);
            let ghost w = word@;
            res.append(&mut word);
            proof {
                let rest = collapse(s@.skip(at as int));
                assert(collapse(left) =~= joined(w, rest));
                assert(joined(done, joined(w, rest)) =~= joined(sofar + w, rest));
            }
        } else {
            proof {
                assert(t.len() == 0);
                assert(s@.skip(at as int).len() == 0);
                assert(trim_start(s@.skip(at as int)).len() == 0);
                assert(collapse(left).len() == 0);
                assert(collapse(s@.skip(at as int)).len() == 0);
                assert(collapse(left) =~= collapse(s@.skip(at as int)));
            }
        }
    }
    proof {
        assert(s@.skip(at as int).len() == 0);
        assert(joined(res@, collapse(s@.skip(at as int))) =~= res@);
    }
    res
}

/// `a` and `b` with a space between them, or the one that is not empty.
spec fn joined(a: Seq<char>, b: Seq<char>) -> Seq<char> {
    if a.len() == 0 {
        b
    } else if b.len() == 0 {
        a
    } else {
        a.push(' ') + b
    }
}

/// `s` with each copy of `from`, taken from the left and never overlapping,
/// replaced by `to`.
pub open spec fn replace(s: Seq<char>, from: Seq<char>, to: Seq<char>) -> Seq<char>
    decreases s.len(),
{
    if s.len() == 0 || from.len() == 0 {
        s
    } else if begins_with(s, from) {
        to + replace(s.skip(from.len() as int), from, to)
    } else {
        seq![s[0]] + replace(s.drop_first(), from, to)
    }
}

/// `s` with each copy of `from`, taken from the left and never overlapping,
/// replaced by `to`.
pub fn replaced(s: &[char], from: &[char], to: &[char]) -> (res: Vec<char>)
    requires
        from@.len() > 0,
    ensures
        res@ == replace(s@, from@, to@),
{
    let mut res: Vec<char> = Vec::new();
    let mut at: usize = 0;
    assert(s@.skip(0) =~= s@);
    assert(replace(s@, from@, to@) =~= res@ + replace(s@.skip(0), from@, to@));
    while at < s.len()
        invariant
            at <= s@.len(),
            from@.len() > 0,
            replace(s@, from@, to@) == res@ + replace(s@.skip(at as int), from@, to@),
        decreases s@.len() - at,
    {
        let ghost left = s@.skip(at as int);
        let ghost done = res@;
        if has_prefix_at(s, at, from) {
            let mut piece: Vec<char> = between(to, 0, to.len());
            assert(piece@ =~= to@);
            res.append(&mut piece);
            assert(left.skip(from@.len() as int) =~= s@.skip(at + from@.len()));
            at = at + from.len();
            assert(done + (to@ + replace(s@.skip(at as int), from@, to@)) =~= res@ + replace(
                s@.skip(at as int),
                from@,
                to@,
            ));
        } else {
            res.push(s[at]);
            assert(left.drop_first() =~= s@.skip(at + 1));
            at = at + 1;
            assert(done + (seq![left[0]] + replace(s@.skip(at as int), from@, to@)) =~= res@
                + replace(s@.skip(at as int), from@, to@));
        }
    }
    assert(res@ + replace(s@.skip(at as int), from@, to@) =~= res@);
    res
}

/// The decimal digit `n`.
pub open spec fn digit(n: nat) -> char {
    (('0' as nat) + n) as char
}

/// `n` in decimal, without leading zeros.
pub open spec fn decimal(n: nat) -> Seq<char>
    decreases n,
{
    if n < 10 {
        seq![digit(n)]
    } else {
        decimal(n / 10).push(digit(n % 10))
    }
}

/// `n` in decimal, without leading zeros.
pub fn decimal_of(n: u64) -> (res: String)
    ensures
        res@ == decimal(n as nat),
    decreases n,
{
    let mut res = if n < 10 {
        String::new()
    } else {
        decimal_of(n / 10)
    };
    let last: u8 = (n % 10) as u8;
    res.push((48u8 + last) as char);
    assert(n < 10 ==> res@ =~= seq![digit(n as nat)]);
    res
}

/// `a` followed by `b`.
pub fn concat(a: &str, b: &str) -> (res: String)
    ensures
        res@ == a@ + b@,
{
    let mut res = a.to_string();
    res.append(b);
    res
}

/// The characters of each of `list`.
pub open spec fn texts(list: Seq<String>) -> Seq<Seq<char>> {
    Seq::new(list.len(), |i: int| list[i]@)
}

/// The texts of `list` one after the other, with `separator` between them.
pub open spec fn join_texts(list: Seq<Seq<char>>, separator: Seq<char>) -> Seq<char>
    decreases list.len(),
{
    if list.len() == 0 {
        seq![]
    } else if list.len() == 1 {
        list[0]
    } else {
        join_texts(list.drop_last(), separator) + separator + list.last()
    }
}

/// The texts of `list` one after the other, with `separator` between them.
pub fn joined_texts(list: &Vec<String>, separator: &str) -> (res: String)
    ensures
        res@ == join_texts(texts(list@), separator@),
{
    let ghost all = texts(list@);
    let mut res = String::new();
    let mut i: usize = 0;
    while i < list.len()
        invariant
            i <= list@.len(),
            all == texts(list@),
            res@ == join_texts(all.take(i as int), separator@),
        decreases list@.len() - i,
    {
        if i > 0 {
            res.append(separator);
        }
        res.append(&list[i]);
        i = i + 1;
        proof {
            let now = all.take(i as int);
            assert(now.drop_last() =~= all.take(i - 1));
            assert(now.last() == list@[i - 1]@);
            if i == 1 {
                assert(res@ =~= now[0]);
            }
        }
    }
    assert(all.take(all.len() as int) =~= all);
    res
}

/// Whether `list` holds the text `s`.
pub fn has_text(list: &Vec<String>, s: &str) -> (res: bool)
    ensures
        res == texts(list@).contains(s@),
{
    let mut i: usize = 0;
    while i < list.len()
        invariant
            i <= list@.len(),
            forall|j: int| 0 <= j < i ==> texts(list@)[j] != s@,
        decreases list@.len() - i,
    {
        if same_text(&list[i], s) {
            assert(texts(list@)[i as int] == s@);
            return true;
        }
        i = i + 1;
    }
    false
}

/// How std's `Debug` writes a text: quoted, with what needs it escaped.
pub uninterp spec fn debug_text(text: Seq<char>) -> Seq<char>;

/// `alloc::fmt::format` with `Debug` on a text: in quotes, with what needs it
/// escaped. The contract only names what it writes.
#[verifier::external_body]
pub(crate) fn shown_text(text: &str) -> (res: String)
    ensures
        res@ == debug_text(text@),
{
    format!("{:?}", text)
}

/// How std's `Debug` writes each of `list`.
pub open spec fn debug_each(list: Seq<Seq<char>>) -> Seq<Seq<char>> {
    Seq::new(list.len(), |i: int| debug_text(list[i]))
}

/// How a list of texts is shown: each as `Debug` writes it, in brackets.
pub open spec fn debug_list(list: Seq<Seq<char>>) -> Seq<char> {
    "["@ + join_texts(debug_each(list), ", "@) + "]"@
}

/// How a list of texts is shown.
pub fn shown_list(list: &Vec<String>) -> (res: String)
    ensures
        res@ == debug_list(texts(list@)),
{
    let mut each: Vec<String> = Vec::new();
    let mut i: usize = 0;
    while i < list.len()
        invariant
            i <= list@.len(),
            each@.len() == i,
            forall|j: int| 0 <= j < i ==> (#[trigger] each@[j])@ == debug_text(list@[j]@),
        decreases list@.len() - i,
    {
        each.push(shown_text(&list[i]));
        i = i + 1;
    }
    assert(texts(each@) =~= debug_each(texts(list@)));
    let mut res = "[".to_string();
    res.append(&joined_texts(&each, ", "));
    res.append("]");
    res
}

/// How a text that may be absent is shown.
pub open spec fn debug_option(text: Option<Seq<char>>) -> Seq<char> {
    match text {
        Some(t) => "Some("@ + debug_text(t) + ")"@,
        None => "None"@,
    }
}

/// How a text that may be absent is shown.
pub fn shown_option(text: &Option<String>) -> (res: String)
    ensures
        res@ == debug_option(
            match *text {
                Some(t) => Some(t@),
                None => None,
            },
        ),
{
    match text {
        Some(t) => {
            let mut res = "Some(".to_string();
            res.append(&shown_text(t));
            res.append(")");
            res
        },
        None => "None".to_string(),
    }
}

/// White space is what Unicode has it: tabs, line ends and form feeds, the
/// space, and the wider and narrower ones.
pub proof fn law_white_space_is_unicodes(c: char)
    ensures
        is_white_space(c) <==> {
            ||| c == '\t' || c == '\n' || c == '\u{b}' || c == '\u{c}' || c == '\r' || c == ' '
            ||| c == '\u{85}' || c == '\u{a0}' || c == '\u{1680}'
            ||| '\u{2000}' <= c && c <= '\u{200a}'
            ||| c == '\u{2028}' || c == '\u{2029}' || c == '\u{202f}' || c == '\u{205f}'
            ||| c == '\u{3000}'
        },
{
}

/// A text begins with what it was put together from.
pub proof fn law_a_text_begins_with_its_beginning(s: Seq<char>, prefix: Seq<char>)
    ensures
        begins_with(prefix + s, prefix),
        begins_with(s, prefix) ==> s == prefix + s.skip(prefix.len() as int),
{
    assert((prefix + s).take(prefix.len() as int) =~= prefix);
    if begins_with(s, prefix) {
        assert(s =~= s.take(prefix.len() as int) + s.skip(prefix.len() as int));
    }
}

proof fn lemma_trim_start_of(before: Seq<char>, t: Seq<char>)
    requires
        forall|i: int| 0 <= i < before.len() ==> is_white_space(#[trigger] before[i]),
        t.len() > 0 ==> !is_white_space(t[0]),
    ensures
        trim_start(before + t) == t,
    decreases before.len(),
{
    let s = before + t;
    if before.len() == 0 {
        assert(s =~= t);
    } else {
        assert(s[0] == before[0]);
        assert(s.drop_first() =~= before.drop_first() + t);
        assert forall|i: int| 0 <= i < before.drop_first().len() implies is_white_space(
            #[trigger] before.drop_first()[i],
        ) by {
            assert(before.drop_first()[i] == before[i + 1]);
        }
        lemma_trim_start_of(before.drop_first(), t);
    }
}

proof fn lemma_trim_end_of(t: Seq<char>, after: Seq<char>)
    requires
        forall|i: int| 0 <= i < after.len() ==> is_white_space(#[trigger] after[i]),
        t.len() > 0 ==> !is_white_space(t.last()),
    ensures
        trim_end(t + after) == t,
    decreases after.len(),
{
    let s = t + after;
    if after.len() == 0 {
        assert(s =~= t);
    } else {
        assert(s.last() == after.last());
        assert(s.drop_last() =~= t + after.drop_last());
        lemma_trim_end_of(t, after.drop_last());
    }
}

/// Trimming takes off the white space around a text and nothing else.
pub proof fn law_trimming_takes_white_space_alone(
    before: Seq<char>,
    t: Seq<char>,
    after: Seq<char>,
)
    requires
        forall|i: int| 0 <= i < before.len() ==> is_white_space(#[trigger] before[i]),
        forall|i: int| 0 <= i < after.len() ==> is_white_space(#[trigger] after[i]),
        t.len() > 0,
        !is_white_space(t[0]),
        !is_white_space(t.last()),
    ensures
        trim(before + t + after) == t,
        trim(before) == Seq::<char>::empty(),
{
    assert(before + t + after =~= before + (t + after));
    lemma_trim_start_of(before, t + after);
    lemma_trim_end_of(t, after);
    lemma_trim_start_of(before, Seq::empty());
    assert(before + Seq::<char>::empty() =~= before);
}

/// The copies of a prefix are taken off one by one, until there is none.
pub proof fn law_prefixes_are_taken_off_one_by_one(prefix: Seq<char>, s: Seq<char>)
    requires
        prefix.len() > 0,
    ensures
        strip_prefixes(prefix + s, prefix) == strip_prefixes(s, prefix),
        s.len() < prefix.len() || s.take(prefix.len() as int) != prefix ==> strip_prefixes(
            s,
            prefix,
        ) == s,
{
    assert((prefix + s).take(prefix.len() as int) =~= prefix);
    assert((prefix + s).skip(prefix.len() as int) =~= s);
}

/// The copies of a character at the end are taken off one by one, until there
/// is none.
pub proof fn law_last_characters_are_taken_off_one_by_one(s: Seq<char>, c: char)
    ensures
        strip_last(s.push(c), c) == strip_last(s, c),
        s.len() == 0 || s.last() != c ==> strip_last(s, c) == s,
{
    assert(s.push(c).drop_last() =~= s);
}

/// Replacing puts `to` where `from` first stands and goes on behind it, and
/// leaves a text alone in which it stands nowhere.
pub proof fn law_replacing_goes_from_left_to_right(
    a: Seq<char>,
    b: Seq<char>,
    from: Seq<char>,
    to: Seq<char>,
)
    requires
        from.len() > 0,
        forall|i: int|
            0 <= i < a.len() ==> #[trigger] (a + from).subrange(i, i + from.len()) != from,
    ensures
        replace(a + from + b, from, to) == a + to + replace(b, from, to),
        replace(a, from, to) == a,
    decreases a.len(),
{
    let s = a + from + b;
    if a.len() == 0 {
        assert(s.take(from.len() as int) =~= from);
        assert(s.skip(from.len() as int) =~= b);
        assert(a + to + replace(b, from, to) =~= to + replace(b, from, to));
    } else {
        let first: int = 0;
        assert((a + from).subrange(first, first + from.len()) != from);
        if begins_with(s, from) {
            assert(s.take(from.len() as int) =~= (a + from).subrange(first, first + from.len()));
        }
        if begins_with(a, from) {
            assert(a.take(from.len() as int) =~= (a + from).subrange(first, first + from.len()));
        }
        let r = a.drop_first();
        assert forall|i: int| 0 <= i < r.len() implies #[trigger] (r + from).subrange(
            i,
            i + from.len(),
        ) != from by {
            let j = i + 1;
            assert((a + from).subrange(j, j + from.len()) =~= (r + from).subrange(
                i,
                i + from.len(),
            ));
        }
        law_replacing_goes_from_left_to_right(r, b, from, to);
        assert(s.drop_first() =~= r + from + b);
        assert(seq![s[0]] + (r + to + replace(b, from, to)) =~= a + to + replace(b, from, to));
        assert(seq![a[0]] + r =~= a);
    }
}

/// The number that digits stand for.
pub open spec fn number_of(digits: Seq<char>) -> int
    decreases digits.len(),
{
    if digits.len() == 0 {
        0
    } else {
        10 * number_of(digits.drop_last()) + (digits.last() as int - '0' as int)
    }
}

/// A number in decimal is digits that stand for it, without a leading zero.
pub proof fn law_decimal_stands_for_its_number(n: nat)
    ensures
        number_of(decimal(n)) == n,
        decimal(n).len() > 0,
        forall|i: int| 0 <= i < decimal(n).len() ==> '0' <= #[trigger] decimal(n)[i] && decimal(
            n,
        )[i] <= '9',
        decimal(n)[0] == '0' ==> n == 0,
        n < 10 ==> decimal(n).len() == 1,
    decreases n,
{
    let d = decimal(n);
    if n < 10 {
        assert(d.drop_last() =~= Seq::<char>::empty());
        assert(number_of(d.drop_last()) == 0);
    } else {
        law_decimal_stands_for_its_number(n / 10);
        let before = decimal(n / 10);
        assert(d.drop_last() =~= before);
        assert(d[0] == before[0]);
        assert forall|i: int| 0 <= i < d.len() implies '0' <= #[trigger] d[i] && d[i] <= '9' by {
            if i < before.len() {
                assert(d[i] == before[i]);
            }
        }
    }
}

/// Texts are joined in order with one separator between each two.
pub proof fn law_joining_puts_a_separator_between(
    a: Seq<Seq<char>>,
    b: Seq<Seq<char>>,
    separator: Seq<char>,
)
    ensures
        a.len() > 0 && b.len() > 0 ==> join_texts(a + b, separator) == join_texts(a, separator)
            + separator + join_texts(b, separator),
        a.len() == 1 ==> join_texts(a, separator) == a[0],
        a.len() == 0 ==> join_texts(a, separator) == Seq::<char>::empty(),
    decreases b.len(),
{
    if a.len() > 0 && b.len() > 0 {
        let c = a + b;
        assert(c.drop_last() =~= a + b.drop_last());
        assert(c.last() == b.last());
        if b.len() > 1 {
            law_joining_puts_a_separator_between(a, b.drop_last(), separator);
            assert(join_texts(c, separator) =~= join_texts(a, separator) + separator + join_texts(
                b,
                separator,
            ));
        } else {
            assert(a + b.drop_last() =~= a);
        }
    }
}

/// A list shows its texts in order, quoted, in brackets and with commas.
pub proof fn law_a_list_shows_each_of_its_texts(list: Seq<Seq<char>>, text: Seq<char>)
    ensures
        debug_list(Seq::empty()) == "[]"@,
        debug_list(seq![text]) == "["@ + debug_text(text) + "]"@,
        list.len() > 0 ==> debug_list(list.push(text)) == debug_list(list).drop_last() + ", "@
            + debug_text(text) + "]"@,
        debug_option(None) == "None"@,
        debug_option(Some(text)) == "Some("@ + debug_text(text) + ")"@,
{
    reveal_strlit("[");
    reveal_strlit("]");
    reveal_strlit("[]");
    assert(debug_each(Seq::empty()) =~= Seq::<Seq<char>>::empty());
    assert(debug_list(Seq::empty()) =~= "[]"@);
    assert(debug_each(seq![text]) =~= seq![debug_text(text)]);
    if list.len() > 0 {
        let more = debug_each(list.push(text));
        assert(more.drop_last() =~= debug_each(list));
        assert(more.last() == debug_text(text));
        assert(debug_list(list).drop_last() =~= "["@ + join_texts(debug_each(list), ", "@));
        assert(debug_list(list.push(text)) =~= debug_list(list).drop_last() + ", "@ + debug_text(
            text,
        ) + "]"@);
    }
}

/// The texts of a list are the characters of each, in order.
pub proof fn law_a_list_holds_each_of_its_texts(list: Seq<String>, i: int)
    requires
        0 <= i < list.len(),
    ensures
        texts(list).len() == list.len(),
        texts(list)[i] == list[i]@,
{
}

} // verus!
