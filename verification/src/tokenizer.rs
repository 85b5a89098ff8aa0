//! The tokenizer of a checkpoint: the two ways between a text and its tokens,
//! and which tokenizers are known to have tokens for every text.

use vstd::prelude::*;

use crate::text::{begins_with, concat, same_text};

verus! {

/// The pattern the published tokenizers split a text with. It matches at every
/// character and never the empty text.
pub const PATTERN: &'static str =
    r"[^\r\n\p{L}\p{N}]?[\p{Lu}\p{Lt}\p{Lm}\p{Lo}\p{M}]*[\p{Ll}\p{Lm}\p{Lo}\p{M}]+|[^\r\n\p{L}\p{N}]?[\p{Lu}\p{Lt}\p{Lm}\p{Lo}\p{M}]+[\p{Ll}\p{Lm}\p{Lo}\p{M}]*|\p{N}| ?[^\s\p{L}\p{N}]+[\r\n/]*|\s*[\r\n]+|\s+(?!\S)|\s+";

/// The longest text the published pattern is known to split, in characters.
/// It goes back at most twice for each of them, and a few times more, and only
/// gives up after a million times.
pub const MAX_TEXT: usize = 250_000;

/// A token of a vocabulary: its place in it, and its bytes in Base64.
#[derive(Debug)]
pub struct Token {
    pub rank: usize,
    pub bytes: String,
}

/// A token that stands for no text.
#[derive(Debug)]
pub struct Special {
    pub rank: usize,
    pub text: String,
    pub is_control: bool,
}

/// What a tokenizer is made of.
pub struct Recipe {
    pub vocab: Seq<(usize, Seq<char>)>,
    pub special: Seq<(usize, Seq<char>, bool)>,
    pub pattern: Seq<char>,
    pub vocab_size: nat,
    pub num_special: nat,
}

/// A vocabulary with its texts as sequences of characters.
pub open spec fn vocab_view(vocab: Seq<Token>) -> Seq<(usize, Seq<char>)> {
    Seq::new(vocab.len(), |i: int| (vocab[i].rank, vocab[i].bytes@))
}

/// Special tokens with their texts as sequences of characters.
pub open spec fn special_view(special: Seq<Special>) -> Seq<(usize, Seq<char>, bool)> {
    Seq::new(special.len(), |i: int| (special[i].rank, special[i].text@, special[i].is_control))
}

/// What a tokenizer of these values is made of.
pub open spec fn recipe(
    vocab: Seq<Token>,
    special: Seq<Special>,
    pattern: Seq<char>,
    vocab_size: usize,
    num_special: usize,
) -> Recipe {
    Recipe {
        vocab: vocab_view(vocab),
        special: special_view(special),
        pattern,
        vocab_size: vocab_size as nat,
        num_special: num_special as nat,
    }
}

impl Recipe {
    /// How many entries of the vocabulary are taken into the tokenizer.
    pub open spec fn taken(self) -> int {
        if self.vocab.len() + self.num_special < self.vocab_size {
            self.vocab.len() as int
        } else {
            self.vocab_size - self.num_special
        }
    }

    /// Whether an entry that is taken has the rank `rank`.
    pub open spec fn has_rank(self, rank: int) -> bool {
        exists|i: int| 0 <= i < self.taken() && (#[trigger] self.vocab[i]).0 == rank
    }

    /// Whether every byte is a token of its own: the first 256 ranks are the
    /// bytes'.
    pub open spec fn has_every_byte(self) -> bool {
        forall|b: int| 0 <= b < 256 ==> #[trigger] self.has_rank(b)
    }

    /// Whether its sizes can be counted in.
    pub open spec fn fits(self) -> bool {
        &&& self.num_special <= self.vocab_size <= u32::MAX
        &&& self.vocab.len() + self.num_special <= usize::MAX
    }

    /// Whether a tokenizer made of it is known to have tokens for every text
    /// that is not too long.
    pub open spec fn is_total(self) -> bool {
        self.fits() && self.pattern == PATTERN@ && self.has_every_byte()
    }
}

/// The tokenizer.
#[verifier::external_type_specification]
#[verifier::external_body]
pub struct ExTekkenizer(tekken::tekkenizer::Tekkenizer);

/// Why the tokenizer failed.
#[verifier::external_type_specification]
#[verifier::external_body]
pub struct ExTokenizerError(tekken::errors::TokenizerError);

/// A version of the tokenizer's format.
#[verifier::external_type_specification]
#[verifier::external_body]
pub struct ExTokenizerVersion(tekken::config::TokenizerVersion);

/// How the tokenizer would take in audio, which nothing here asks it to.
#[verifier::external_type_specification]
#[verifier::external_body]
pub struct ExAudioConfig(tekken::audio::AudioConfig);

/// What a tokenizer was made of.
pub uninterp spec fn recipe_of(tokenizer: tekken::Tekkenizer) -> Recipe;

/// Why no tokenizer can be made of `recipe`, with or without audio, if none
/// can.
pub uninterp spec fn refused(recipe: Recipe, audio: bool) -> Option<tekken::TokenizerError>;

/// What is said of why no tokenizer can be made.
pub uninterp spec fn error_text(error: tekken::TokenizerError) -> Seq<char>;

/// The tokens of `text`, without one that begins or ends a sequence, in a
/// tokenizer made of `recipe`, or `None` where tokenizing it comes to no end
/// but a panic.
pub uninterp spec fn encoding(recipe: Recipe, text: Seq<char>) -> Option<Seq<u32>>;

/// What `tokens` stand for, the special ones left out, in a tokenizer made of
/// `recipe`, or `None` where they stand for no text.
pub uninterp spec fn decoding(recipe: Recipe, tokens: Seq<u32>) -> Option<Seq<char>>;

/// Whether a tokenizer made of `recipe` has tokens for `text`: where it is known
/// to, and wherever else it has them.
pub open spec fn encodes(recipe: Recipe, text: Seq<char>) -> bool {
    (recipe.is_total() && text.len() <= MAX_TEXT) || encoding(recipe, text) is Some
}

/// Whether there is a format of this version.
pub open spec fn known_version(version: Seq<char>) -> bool {
    version == "v3"@ || version == "v7"@ || version == "v11"@ || version == "v13"@
}

/// `TokenizerVersion::from_string`: the four versions have a name each.
#[verifier::external_body]
fn version_named(version: &str) -> (res: Option<tekken::config::TokenizerVersion>)
    ensures
        res is Some <==> known_version(version@),
{
    tekken::config::TokenizerVersion::from_string(version)
}

/// `Tekkenizer::new`, of plain values. Why it fails, if it does, is named, and
/// so is what the tokenizer was made of.
#[verifier::external_body]
fn make(
    vocab: &Vec<Token>,
    special: &Vec<Special>,
    pattern: &str,
    vocab_size: usize,
    num_special: usize,
    version: tekken::config::TokenizerVersion,
    audio: Option<tekken::AudioConfig>,
) -> (res: Result<tekken::Tekkenizer, tekken::TokenizerError>)
    requires
        pattern@ == PATTERN@,
        num_special <= vocab_size <= u32::MAX,
        vocab@.len() + num_special <= usize::MAX,
    ensures
        refused(recipe(vocab@, special@, pattern@, vocab_size, num_special), audio is Some) == (
        match res {
            Ok(_) => None,
            Err(e) => Some(e),
        }),
        res is Ok ==> recipe_of(res->Ok_0) == recipe(
            vocab@,
            special@,
            pattern@,
            vocab_size,
            num_special,
        ),
{
    let token = |t: &Token| tekken::TokenInfo {
        rank: t.rank,
        token_bytes: t.bytes.clone(),
        token_str: None,
    };
    let info = |s: &Special| tekken::SpecialTokenInfo {
        rank: s.rank,
        token_str: s.text.clone(),
        is_control: s.is_control,
    };
    let vocab = vocab.iter().map(token).collect();
    let special = special.iter().map(info).collect();
    tekken::Tekkenizer::new(vocab, &special, pattern, vocab_size, num_special, version, audio)
}

/// `Tekkenizer::encode` without a token that begins or ends the sequence. Only
/// a missing one of those two is an error, so it succeeds. Which tokens it
/// gives is named, not said.
///
/// It panics on a byte without a token, on a pattern that matches the empty
/// text, and on a text the pattern gives up on. The published pattern on a text
/// that is not too long, with a token for every byte, comes to none of these.
/// Any other tokenizer and text are only taken where the name says that there
/// are tokens.
#[verifier::external_body]
pub(crate) fn encode(tokenizer: &tekken::Tekkenizer, text: &str) -> (res: Result<
    Vec<u32>,
    tekken::TokenizerError,
>)
    requires
        encodes(recipe_of(*tokenizer), text@),
    ensures
        res is Ok,
        encoding(recipe_of(*tokenizer), text@) == Some(res->Ok_0@),
{
    tokenizer.encode(text, false, false)
}

/// `Tekkenizer::decode` with the special tokens left out. Whether it succeeds
/// and what it gives is named; the error is not, since its text can hold a
/// backtrace.
#[verifier::external_body]
fn decode(tokenizer: &tekken::Tekkenizer, tokens: &[u32]) -> (res: Result<
    String,
    tekken::TokenizerError,
>)
    ensures
        match res {
            Ok(text) => decoding(recipe_of(*tokenizer), tokens@) == Some(text@),
            Err(_) => decoding(recipe_of(*tokenizer), tokens@) is None,
        },
{
    tokenizer.decode(tokens, tekken::SpecialTokenPolicy::Ignore)
}

/// `Display` of a tokenizer's error. Of one that says why no tokenizer can be
/// made the text is named; of any other nothing is said, since it can hold a
/// backtrace.
#[verifier::external_body]
pub(crate) fn shown_error(error: &tekken::TokenizerError) -> (res: String)
    ensures
        (exists|recipe: Recipe, audio: bool| #[trigger] refused(recipe, audio) == Some(*error))
            ==> res@ == error_text(*error),
{
    error.to_string()
}

/// What `tokens` stand for, the special ones left out. What is wrong with them
/// is told behind `problem`, in words that are not fixed.
pub fn text(tokenizer: &tekken::Tekkenizer, tokens: &[u32], problem: &str) -> (res: Result<
    String,
    String,
>)
    ensures
        match res {
            Ok(text) => decoding(recipe_of(*tokenizer), tokens@) == Some(text@),
            Err(e) => decoding(recipe_of(*tokenizer), tokens@) is None && begins_with(
                e@,
                problem@,
            ),
        },
{
    match decode(tokenizer, tokens) {
        Ok(text) => Ok(text),
        Err(e) => {
            let told = concat(problem, &shown_error(&e));
            assert(told@.take(problem@.len() as int) =~= problem@);
            Err(told)
        },
    }
}

/// A tokenizer that is known to have tokens for every text that is not too
/// long.
pub struct TotalTokenizer {
    inner: tekken::Tekkenizer,
}

impl View for TotalTokenizer {
    type V = Recipe;

    closed spec fn view(&self) -> Recipe {
        recipe_of(self.inner)
    }
}

/// The number of entries of a vocabulary of `len` that are taken.
fn taken(len: usize, vocab_size: usize, num_special: usize) -> (res: usize)
    requires
        num_special <= vocab_size,
        len + num_special <= usize::MAX,
    ensures
        res == if len + num_special < vocab_size {
            len as int
        } else {
            vocab_size - num_special
        },
{
    if len + num_special < vocab_size {
        len
    } else {
        vocab_size - num_special
    }
}

/// Whether one of the first `n` of `vocab` has the rank `rank`.
fn has_rank(vocab: &Vec<Token>, n: usize, rank: usize) -> (res: bool)
    requires
        n <= vocab@.len(),
    ensures
        res == exists|i: int| 0 <= i < n && (#[trigger] vocab_view(vocab@)[i]).0 == rank,
{
    let mut i: usize = 0;
    while i < n
        invariant
            i <= n <= vocab@.len(),
            forall|j: int| 0 <= j < i ==> (#[trigger] vocab_view(vocab@)[j]).0 != rank,
        decreases n - i,
    {
        if vocab[i].rank == rank {
            assert(vocab_view(vocab@)[i as int].0 == rank);
            return true;
        }
        i = i + 1;
    }
    false
}

/// Whether a tokenizer made of these values is known to be total.
fn known_total(
    vocab: &Vec<Token>,
    special: &Vec<Special>,
    pattern: &str,
    vocab_size: usize,
    num_special: usize,
) -> (res: bool)
    ensures
        res == recipe(vocab@, special@, pattern@, vocab_size, num_special).is_total(),
{
    let ghost made = recipe(vocab@, special@, pattern@, vocab_size, num_special);
    if num_special > vocab_size || vocab_size as u64 > 0xFFFF_FFFF || vocab.len() > usize::MAX
        - num_special {
        return false;
    }
    if !same_text(pattern, PATTERN) {
        return false;
    }
    let n: usize = taken(vocab.len(), vocab_size, num_special);
    let mut b: usize = 0;
    while b < 256
        invariant
            b <= 256,
            made == recipe(vocab@, special@, pattern@, vocab_size, num_special),
            n == made.taken(),
            n <= vocab@.len(),
            made.vocab == vocab_view(vocab@),
            forall|j: int| 0 <= j < b ==> #[trigger] made.has_rank(j),
        decreases 256 - b,
    {
        if !has_rank(vocab, n, b) {
            assert(!made.has_rank(b as int));
            return false;
        }
        assert(made.has_rank(b as int));
        b = b + 1;
    }
    true
}

impl TotalTokenizer {
    /// That it is known to be total.
    #[verifier::type_invariant]
    closed spec fn inv(self) -> bool {
        recipe_of(self.inner).is_total()
    }

    /// The tokenizer of `vocab` and `special` in the format `version`, whose
    /// vocabulary counts `vocab_size` tokens, `num_special` special ones
    /// included: `None` where it is not known whether that one is total, and an
    /// error where there is none.
    pub fn new(
        vocab: &Vec<Token>,
        special: &Vec<Special>,
        pattern: &str,
        vocab_size: usize,
        num_special: usize,
        version: &str,
        audio: Option<tekken::AudioConfig>,
    ) -> (res: Result<Option<TotalTokenizer>, String>)
        ensures
            ({
                let recipe = recipe(vocab@, special@, pattern@, vocab_size, num_special);
                match res {
                    Ok(Some(tokenizer)) => {
                        &&& known_version(version@) && recipe.is_total()
                        &&& refused(recipe, audio is Some) is None
                        &&& tokenizer@ == recipe
                    },
                    Ok(None) => known_version(version@) && !recipe.is_total(),
                    Err(e) => if known_version(version@) {
                        &&& recipe.is_total()
                        &&& refused(recipe, audio is Some) is Some
                        &&& e@ == error_text(refused(recipe, audio is Some)->0)
                    } else {
                        e@ == "Invalid configuration: Unknown version: "@ + version@
                    },
                }
            }),
    {
        let version = match version_named(version) {
            Some(v) => v,
            None => {
                return Err(concat("Invalid configuration: Unknown version: ", version));
            },
        };
        if !known_total(vocab, special, pattern, vocab_size, num_special) {
            return Ok(None);
        }
        match make(vocab, special, pattern, vocab_size, num_special, version, audio) {
            Ok(inner) => Ok(Some(TotalTokenizer { inner })),
            Err(e) => Err(shown_error(&e)),
        }
    }

    /// The tokenizer itself, which has tokens for every text that is not too
    /// long.
    pub fn inner(&self) -> (res: &tekken::Tekkenizer)
        ensures
            recipe_of(*res) == self@,
            self@.is_total(),
    {
        proof {
            use_type_invariant(&self);
        }
        &self.inner
    }
}

/// A tokenizer is made of its vocabulary and special tokens, entry by entry,
/// its pattern and its two sizes.
pub proof fn law_a_tokenizer_is_made_of_its_values(
    vocab: Seq<Token>,
    special: Seq<Special>,
    pattern: Seq<char>,
    vocab_size: usize,
    num_special: usize,
    i: int,
    j: int,
)
    requires
        0 <= i < vocab.len(),
        0 <= j < special.len(),
    ensures
        ({
            let r = recipe(vocab, special, pattern, vocab_size, num_special);
            &&& r.vocab.len() == vocab.len() && r.special.len() == special.len()
            &&& r.vocab[i] == (vocab[i].rank, vocab[i].bytes@)
            &&& r.special[j] == (special[j].rank, special[j].text@, special[j].is_control)
            &&& r.pattern == pattern && r.vocab_size == vocab_size && r.num_special == num_special
        }),
{
}

/// A tokenizer is known to be total when it splits with the published pattern,
/// its special tokens are among its vocabulary, which can be counted, and each
/// of the 256 bytes is an entry that it takes.
pub proof fn law_a_total_tokenizer_has_every_byte(r: Recipe, b: int)
    ensures
        r.is_total() <==> r.num_special <= r.vocab_size <= 0xFFFF_FFFF && r.vocab.len()
            + r.num_special <= usize::MAX && r.pattern == PATTERN@ && (forall|c: int|
            0 <= c < 256 ==> #[trigger] r.has_rank(c)),
        r.num_special <= r.vocab_size ==> (r.has_rank(b) <==> exists|i: int|
            0 <= i < r.vocab.len() && i < r.vocab_size - r.num_special && (
            #[trigger] r.vocab[i]).0 == b),
        r.is_total() && 0 <= b < 256 ==> exists|i: int|
            0 <= i < r.vocab.len() && i < r.vocab_size - r.num_special && (
            #[trigger] r.vocab[i]).0 == b,
{
    if r.is_total() && 0 <= b < 256 {
        assert(r.has_rank(b));
    }
}

/// There are four versions of the format.
pub proof fn law_there_are_four_versions(version: Seq<char>)
    ensures
        known_version(version) <==> version == "v3"@ || version == "v7"@ || version == "v11"@
            || version == "v13"@,
{
}

/// A text has tokens wherever the tokenizer gives some, and under 250000
/// characters in every tokenizer that is known to be total.
pub proof fn law_a_total_tokenizer_has_tokens_for_every_text(r: Recipe, text: Seq<char>)
    ensures
        encoding(r, text) is Some ==> encodes(r, text),
        r.is_total() && text.len() <= 250_000 ==> encodes(r, text),
        encodes(r, text) && (!r.is_total() || text.len() > 250_000) ==> encoding(r, text) is Some,
{
}

} // verus!
