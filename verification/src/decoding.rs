//! Greedy decoding: which token is fed back at which position, and when the
//! generation ends. Running the model on what is fed is its caller's part.

use vstd::prelude::*;

use crate::arith::{div_ceil, lemma_ceil_div, round_up};
use crate::text::{decimal, decimal_of};

verus! {

/// Longest transcript, in tokens. It also sizes the key/value caches.
pub const MAX_NEW_TOKENS: usize = 1000;

/// The key/value caches are sized in steps of this many positions, so that
/// prompts of nearby lengths share one set of decoding kernels.
pub const CACHE_GRANULE: usize = 512;

/// Whether `token` ends a sequence.
pub open spec fn is_eos(token: u32) -> bool {
    token == 2 || token == 128_001 || token == 128_009 || token == 128_256
}

/// Whether `tokens` ends in five zeros, which the model makes of what it
/// cannot go on from.
pub open spec fn ends_in_zeros(tokens: Seq<u32>) -> bool {
    &&& tokens.len() >= 5
    &&& forall|i: int| tokens.len() - 5 <= i < tokens.len() ==> tokens[i] == 0
}

/// Whether the model itself has come to an end with the last of `tokens`.
pub open spec fn stops(tokens: Seq<u32>) -> bool {
    tokens.len() > 0 && (is_eos(tokens.last()) || ends_in_zeros(tokens))
}

/// Whether the generation is over once it has `tokens`: after its last step,
/// or, when nothing is forced on it, where the model stops.
pub open spec fn is_over(tokens: Seq<u32>, steps: nat, forced: bool) -> bool {
    tokens.len() >= steps || (!forced && stops(tokens))
}

/// The positions the caches have for a prompt of `prompt_len` tokens and
/// `max_new_tokens` generated ones.
pub open spec fn cache_capacity(prompt_len: nat, max_new_tokens: nat) -> nat {
    round_up(prompt_len + max_new_tokens, CACHE_GRANULE as nat)
}

/// The positions the caches have for a prompt of `prompt_len` tokens and
/// `max_new_tokens` generated ones.
pub fn capacity(prompt_len: usize, max_new_tokens: usize) -> (res: usize)
    requires
        cache_capacity(prompt_len as nat, max_new_tokens as nat) <= usize::MAX,
    ensures
        res == cache_capacity(prompt_len as nat, max_new_tokens as nat),
{
    proof {
        lemma_ceil_div((prompt_len + max_new_tokens) as nat, CACHE_GRANULE as nat);
    }
    div_ceil(prompt_len + max_new_tokens, CACHE_GRANULE) * CACHE_GRANULE
}

/// Whether `token` ends a sequence.
fn eos(token: u32) -> (res: bool)
    ensures
        res == is_eos(token),
{
    token == 2 || token == 128_001 || token == 128_009 || token == 128_256
}

/// Whether the model itself has come to an end with the last of `tokens`.
fn has_stopped(tokens: &Vec<u32>) -> (res: bool)
    ensures
        res == stops(tokens@),
{
    let n: usize = tokens.len();
    if n == 0 {
        return false;
    }
    if eos(tokens[n - 1]) {
        return true;
    }
    n >= 5 && tokens[n - 1] == 0 && tokens[n - 2] == 0 && tokens[n - 3] == 0 && tokens[n - 4] == 0
        && tokens[n - 5] == 0
}

/// A generation under way.
#[derive(Debug)]
pub struct Decoder {
    prompt_len: usize,
    max_new_tokens: usize,
    /// The tokens fed back instead of the model's own.
    forced: Option<Vec<u32>>,
    tokens: Vec<u32>,
}

/// A `Decoder`'s contents.
pub struct DecoderView {
    pub prompt_len: nat,
    pub max_new_tokens: nat,
    pub forced: Option<Seq<u32>>,
    pub tokens: Seq<u32>,
}

impl DecoderView {
    /// The most tokens this generation comes to: those forced on it, or as
    /// many as the caches are sized for.
    pub open spec fn steps(self) -> nat {
        match self.forced {
            Some(f) => f.len(),
            None => self.max_new_tokens,
        }
    }

    /// Whether it is over.
    pub open spec fn over(self) -> bool {
        is_over(self.tokens, self.steps(), self.forced is Some)
    }

    /// It never goes on past its end, nor past what the caches hold.
    pub open spec fn wf(self) -> bool {
        &&& self.prompt_len > 0
        &&& cache_capacity(self.prompt_len, self.max_new_tokens) <= usize::MAX
        &&& self.steps() <= self.max_new_tokens
        &&& self.tokens.len() <= self.steps()
        &&& forall|k: int|
            0 <= k < self.tokens.len() ==> !is_over(
                #[trigger] self.tokens.take(k),
                self.steps(),
                self.forced is Some,
            )
    }

    /// The position the last token is fed back at.
    pub open spec fn position(self) -> int {
        self.prompt_len + self.tokens.len() - 1
    }

    /// The token that is fed back: the last one, or the one forced in its
    /// place.
    pub open spec fn fed(self) -> u32 {
        match self.forced {
            Some(f) => f[self.tokens.len() - 1],
            None => self.tokens.last(),
        }
    }
}

/// What a generation does next.
#[derive(Debug, Clone, Copy, PartialEq, Eq, Structural)]
pub enum Next {
    /// Run the model on `token` at position `pos`.
    Feed { token: u32, pos: i64 },
    /// It is over.
    Done,
}

/// What is said of more forced tokens than the caches hold.
pub open spec fn too_many_forced(forced: nat, max_new_tokens: nat) -> Seq<char> {
    decimal(forced) + " forced tokens are more than the "@ + decimal(max_new_tokens)
        + " the caches are sized for"@
}

impl View for Decoder {
    type V = DecoderView;

    closed spec fn view(&self) -> DecoderView {
        DecoderView {
            prompt_len: self.prompt_len as nat,
            max_new_tokens: self.max_new_tokens as nat,
            forced: match self.forced {
                Some(f) => Some(f@),
                None => None,
            },
            tokens: self.tokens@,
        }
    }
}

impl Decoder {
    /// A generation behind a prompt of `prompt_len` tokens, of at most
    /// `max_new_tokens`.
    ///
    /// `forced` feeds those tokens back instead of the model's own, and stops
    /// after them. Either way the caches are sized by `max_new_tokens`, so a
    /// forced run compiles exactly the kernels a real one uses.
    pub fn start(prompt_len: usize, max_new_tokens: usize, forced: Option<Vec<u32>>) -> (res:
        Result<Decoder, String>)
        requires
            prompt_len > 0,
            cache_capacity(prompt_len as nat, max_new_tokens as nat) <= usize::MAX,
        ensures
            match res {
                Ok(d) => {
                    &&& d@.wf()
                    &&& d@.prompt_len == prompt_len
                    &&& d@.max_new_tokens == max_new_tokens
                    &&& d@.forced == (match forced {
                        Some(f) => Some(f@),
                        None => None,
                    })
                    &&& d@.tokens == Seq::<u32>::empty()
                },
                Err(e) => {
                    &&& forced is Some && forced->0@.len() > max_new_tokens
                    &&& e@ == too_many_forced(forced->0@.len(), max_new_tokens as nat)
                },
            },
    {
        if let Some(f) = &forced {
            if f.len() > max_new_tokens {
                let mut e = decimal_of(f.len() as u64);
                e.append(" forced tokens are more than the ");
                e.append(&decimal_of(max_new_tokens as u64));
                e.append(" the caches are sized for");
                return Err(e);
            }
        }
        Ok(Decoder { prompt_len, max_new_tokens, forced, tokens: Vec::new() })
    }

    /// The positions the caches have.
    pub fn capacity(&self) -> (res: usize)
        requires
            self@.wf(),
        ensures
            res == cache_capacity(self@.prompt_len, self@.max_new_tokens),
    {
        capacity(self.prompt_len, self.max_new_tokens)
    }

    /// Whether it is over.
    pub fn finished(&self) -> (res: bool)
        requires
            self@.wf(),
        ensures
            res == self@.over(),
    {
        match &self.forced {
            Some(f) => self.tokens.len() >= f.len(),
            None => self.tokens.len() >= self.max_new_tokens || has_stopped(&self.tokens),
        }
    }

    /// How many tokens were generated.
    pub fn step_number(&self) -> (res: usize)
        ensures
            res == self@.tokens.len(),
    {
        self.tokens.len()
    }

    /// Takes the model's next token, the index of the highest logit.
    pub fn step(&mut self, argmax: i64) -> (res: Result<Next, String>)
        requires
            old(self)@.wf(),
            !old(self)@.over(),
        ensures
            final(self)@.wf(),
            0 <= argmax <= u32::MAX ==> final(self)@ == (DecoderView {
                tokens: old(self)@.tokens.push(argmax as u32),
                ..old(self)@
            }),
            !(0 <= argmax <= u32::MAX) ==> final(self)@ == old(self)@,
            match res {
                Ok(Next::Feed { token, pos }) => {
                    &&& 0 <= argmax <= u32::MAX
                    &&& !final(self)@.over()
                    &&& token == final(self)@.fed()
                    &&& pos == final(self)@.position()
                    &&& pos < cache_capacity(old(self)@.prompt_len, old(self)@.max_new_tokens)
                },
                Ok(Next::Done) => 0 <= argmax <= u32::MAX && final(self)@.over(),
                Err(e) => if 0 <= argmax <= u32::MAX {
                    &&& !final(self)@.over()
                    &&& final(self)@.position() > i64::MAX
                    &&& e@ == "a position past i64"@
                } else {
                    e@ == "the argmax is not a token id"@
                },
            },
    {
        if argmax < 0 || argmax > 0xFFFF_FFFF {
            return Err("the argmax is not a token id".to_string());
        }
        let token: u32 = argmax as u32;
        let ghost was = self@;
        self.tokens.push(token);
        proof {
            law_positions_follow_the_prompt(was, token);
            lemma_ceil_div(self@.prompt_len + self@.max_new_tokens, CACHE_GRANULE as nat);
        }
        if self.finished() {
            return Ok(Next::Done);
        }
        let n: usize = self.tokens.len();
        let next: u32 = match &self.forced {
            Some(f) => f[n - 1],
            None => token,
        };
        let pos: usize = self.prompt_len + (n - 1);
        if pos as u128 > 0x7FFF_FFFF_FFFF_FFFF {
            return Err("a position past i64".to_string());
        }
        Ok(Next::Feed { token: next, pos: pos as i64 })
    }

    /// The generated tokens, the end-of-sequence token included when it came.
    pub fn into_tokens(self) -> (res: Vec<u32>)
        ensures
            res@ == self@.tokens,
    {
        self.tokens
    }
}

/// The tokens a generation comes to when the model picks `picks`: those up to
/// the first at which it is over.
pub open spec fn generated(picks: Seq<u32>, steps: nat, forced: bool) -> Seq<u32>
    decreases picks.len(),
{
    if picks.len() == 0 {
        picks
    } else {
        let before = generated(picks.drop_last(), steps, forced);
        if before.len() < picks.len() - 1 || is_over(before, steps, forced) {
            before
        } else {
            picks
        }
    }
}

/// The generated tokens are the model's picks up to the first at which the
/// generation is over, and nothing after it: one more step adds the next pick
/// exactly where it was not over before.
pub proof fn law_generation_ends_at_its_first_end(d: DecoderView)
    requires
        d.wf(),
    ensures
        generated(d.tokens, d.steps(), d.forced is Some) == d.tokens,
        forall|more: Seq<u32>|
            d.over() ==> #[trigger] generated(d.tokens + more, d.steps(), d.forced is Some)
                == d.tokens,
{
    lemma_generated_is_all(d, d.tokens.len() as int);
    assert(d.tokens.take(d.tokens.len() as int) =~= d.tokens);
    assert forall|more: Seq<u32>| d.over() implies #[trigger] generated(
        d.tokens + more,
        d.steps(),
        d.forced is Some,
    ) == d.tokens by {
        lemma_generated_stays(d, more);
    }
}

proof fn lemma_generated_is_all(d: DecoderView, n: int)
    requires
        d.wf(),
        0 <= n <= d.tokens.len(),
    ensures
        generated(d.tokens.take(n), d.steps(), d.forced is Some) == d.tokens.take(n),
    decreases n,
{
    if n > 0 {
        lemma_generated_is_all(d, n - 1);
        assert(d.tokens.take(n).drop_last() =~= d.tokens.take(n - 1));
    }
}

proof fn lemma_generated_stays(d: DecoderView, more: Seq<u32>)
    requires
        d.wf(),
        d.over(),
    ensures
        generated(d.tokens + more, d.steps(), d.forced is Some) == d.tokens,
    decreases more.len(),
{
    let all = d.tokens + more;
    if more.len() == 0 {
        assert(all =~= d.tokens);
        lemma_generated_is_all(d, d.tokens.len() as int);
        assert(d.tokens.take(d.tokens.len() as int) =~= d.tokens);
    } else {
        lemma_generated_stays(d, more.drop_last());
        assert(all.drop_last() =~= d.tokens + more.drop_last());
    }
}

/// Of a generation nothing is forced on, only the last token can end a
/// sequence, and the end-of-sequence token is among the tokens when it came.
pub proof fn law_only_the_last_token_ends_a_sequence(d: DecoderView, i: int)
    requires
        d.wf(),
        d.forced is None,
        0 <= i < d.tokens.len(),
        is_eos(d.tokens[i]),
    ensures
        i == d.tokens.len() - 1,
        d.over(),
{
    if i < d.tokens.len() - 1 {
        assert(d.tokens.take(i + 1).last() == d.tokens[i]);
        assert(stops(d.tokens.take(i + 1)));
        assert(!is_over(d.tokens.take(i + 1), d.steps(), false));
    }
    assert(d.tokens.last() == d.tokens[d.tokens.len() - 1]);
}

/// A generation that tokens are forced on is over after exactly as many.
pub proof fn law_a_forced_run_is_as_long_as_its_tokens(d: DecoderView)
    requires
        d.wf(),
        d.forced is Some,
    ensures
        d.over() <==> d.tokens.len() == d.forced->0.len(),
{
}

/// Every position a generation feeds fits the caches, whatever comes of it.
pub proof fn law_positions_fit_the_caches(d: DecoderView)
    requires
        d.wf(),
    ensures
        d.position() < cache_capacity(d.prompt_len, d.max_new_tokens),
        d.prompt_len + d.max_new_tokens <= cache_capacity(d.prompt_len, d.max_new_tokens),
        cache_capacity(d.prompt_len, d.max_new_tokens) % CACHE_GRANULE as nat == 0,
{
    lemma_ceil_div(d.prompt_len + d.max_new_tokens, CACHE_GRANULE as nat);
}

/// The positions a generation feeds follow the prompt's without a gap: the
/// first token is fed right behind the prompt, and each further one right
/// behind the one before. So the caches hold everything up to a step's own
/// position, and nothing past it.
pub proof fn law_positions_follow_the_prompt(d: DecoderView, token: u32)
    requires
        d.wf(),
        !d.over(),
    ensures
        ({
            let after = DecoderView { tokens: d.tokens.push(token), ..d };
            &&& after.wf()
            &&& after.position() == if d.tokens.len() == 0 {
                d.prompt_len as int
            } else {
                d.position() + 1
            }
        }),
{
    let after = DecoderView { tokens: d.tokens.push(token), ..d };
    assert forall|k: int| 0 <= k < after.tokens.len() implies !is_over(
        #[trigger] after.tokens.take(k),
        after.steps(),
        after.forced is Some,
    ) by {
        if k < d.tokens.len() {
            assert(after.tokens.take(k) =~= d.tokens.take(k));
        } else {
            assert(after.tokens.take(k) =~= d.tokens);
        }
    }
}

/// What is said when the device fails to hand over the next token.
pub fn read_failed(error: &str) -> (res: String)
    ensures
        res@ == "reading the next token failed: "@ + error@,
{
    crate::text::concat("reading the next token failed: ", error)
}

/// A generation that nothing is forced on is over after `max_new_tokens`
/// tokens, at a token that ends a sequence (2, 128001, 128009 or 128256), or
/// after five zeros in a row, and goes on at any other token, whatever it is.
pub proof fn law_only_these_tokens_end_a_generation(d: DecoderView)
    requires
        d.forced is None,
    ensures
        d.over() <==> {
            let n = d.tokens.len() as int;
            ||| n >= d.max_new_tokens
            ||| n > 0 && (d.tokens[n - 1] == 2 || d.tokens[n - 1] == 128_001 || d.tokens[n - 1]
                == 128_009 || d.tokens[n - 1] == 128_256)
            ||| n >= 5 && d.tokens[n - 1] == 0 && d.tokens[n - 2] == 0 && d.tokens[n - 3] == 0
                && d.tokens[n - 4] == 0 && d.tokens[n - 5] == 0
        },
{
    let t = d.tokens;
    let n = t.len() as int;
    if n >= 5 && t[n - 1] == 0 && t[n - 2] == 0 && t[n - 3] == 0 && t[n - 4] == 0 && t[n - 5]
        == 0 {
        assert(ends_in_zeros(t));
    }
}

/// While no token ends a sequence, no five zeros have come in a row and there
/// are tokens left to generate, a generation goes on.
pub proof fn law_a_generation_goes_on(d: DecoderView)
    requires
        d.forced is None,
        d.tokens.len() < d.max_new_tokens,
        forall|i: int|
            0 <= i < d.tokens.len() ==> #[trigger] d.tokens[i] != 2 && d.tokens[i] != 128_001
                && d.tokens[i] != 128_009 && d.tokens[i] != 128_256,
        d.tokens.len() >= 5 ==> exists|i: int|
            d.tokens.len() - 5 <= i < d.tokens.len() && #[trigger] d.tokens[i] != 0,
    ensures
        !d.over(),
{
}

/// A generation that tokens are forced on goes on to the last of them, whatever
/// the model picks.
pub proof fn law_a_forced_generation_goes_on_to_its_last_token(d: DecoderView)
    requires
        d.forced is Some,
    ensures
        d.over() <==> d.tokens.len() >= d.forced->0.len(),
        d.steps() == d.forced->0.len(),
{
}

/// The token that is fed back is the last one the model picked, or the one that
/// is forced in its place, and it is fed at the position behind the prompt and
/// the tokens before it.
pub proof fn law_each_token_is_fed_at_its_own_position(d: DecoderView)
    requires
        d.tokens.len() > 0,
    ensures
        d.position() == d.prompt_len + (d.tokens.len() - 1),
        d.forced is None ==> d.fed() == d.tokens[d.tokens.len() - 1],
        d.forced is Some ==> d.fed() == d.forced->0[d.tokens.len() - 1],
        d.forced is None ==> d.steps() == d.max_new_tokens,
{
}

/// The caches hold the prompt and every token, rounded up to 512 positions.
pub proof fn law_the_caches_hold_the_prompt_and_every_token(prompt_len: nat, max_new_tokens: nat)
    ensures
        cache_capacity(prompt_len, max_new_tokens) % 512 == 0,
        prompt_len + max_new_tokens <= cache_capacity(prompt_len, max_new_tokens) < prompt_len
            + max_new_tokens + 512,
{
    lemma_ceil_div(prompt_len + max_new_tokens, CACHE_GRANULE as nat);
}

/// Too many forced tokens are told by both numbers.
pub proof fn law_too_many_forced_tokens_are_counted(forced: nat, max_new_tokens: nat)
    ensures
        too_many_forced(forced, max_new_tokens) == decimal(forced)
            + " forced tokens are more than the "@ + decimal(max_new_tokens)
            + " the caches are sized for"@,
{
}

} // verus!
