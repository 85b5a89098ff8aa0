//! The prompt a clip is transcribed with, the place its audio takes in it, and
//! the way back from the generated tokens to a text.

use vstd::prelude::*;

use crate::text::{begins_with, chars_of, concat, decimal, decimal_of, same_text};
use crate::tokenizer::{
    decoding, encode, encodes, encoding, recipe_of, shown_error, text, Recipe, MAX_TEXT,
};
use crate::transcript::{post_process_transcription, transcript};

verus! {

/// `<s>`, `[INST]` and `[BEGIN_AUDIO]`, which open the prompt.
pub open spec fn prompt_open() -> Seq<u32> {
    seq![1u32, 3u32, 25u32]
}

/// `[/INST]`, which closes the audio.
pub const INST_CLOSE: u32 = 4;

/// `[TRANSCRIBE]`, which asks for a transcript rather than an answer.
pub const TRANSCRIBE: u32 = 34;

/// The language a transcription is asked for in. The model conditions on a
/// `lang:<code>` hint and has no mode that detects one, so `auto` and an
/// omitted language fall back to the model's primary one.
pub open spec fn hinted(language: Option<&str>) -> Seq<char> {
    match language {
        Some(code) if code@ != "auto"@ => code@,
        _ => "en"@,
    }
}

/// The language a transcription is asked for in.
pub fn language_code(language: Option<&str>) -> (res: String)
    ensures
        res@ == hinted(language),
{
    match language {
        Some(code) => if same_text(code, "auto") {
            "en".to_string()
        } else {
            code.to_string()
        },
        None => "en".to_string(),
    }
}

/// `<s>[INST][BEGIN_AUDIO][AUDIO]*N[/INST]lang:<code>[TRANSCRIBE]`, where
/// `lang` are the tokens of the hint.
pub open spec fn prompt_tokens(
    audio_tokens: nat,
    audio_token_id: u32,
    lang: Seq<u32>,
) -> Seq<u32> {
    prompt_open() + Seq::new(audio_tokens, |i: int| audio_token_id) + seq![INST_CLOSE] + lang
        + seq![TRANSCRIBE]
}

/// The prompt of `audio_tokens` placeholders whose language hint is `lang`.
pub fn prompt_with(audio_tokens: usize, audio_token_id: u32, lang: &[u32]) -> (res: Vec<u32>)
    ensures
        res@ == prompt_tokens(audio_tokens as nat, audio_token_id, lang@),
{
    let mut tokens: Vec<u32> = Vec::new();
    tokens.push(1);
    tokens.push(3);
    tokens.push(25);
    assert(tokens@ =~= prompt_open() + Seq::new(0, |i: int| audio_token_id));
    let mut n: usize = 0;
    while n < audio_tokens
        invariant
            n <= audio_tokens,
            tokens@ == prompt_open() + Seq::new(n as nat, |i: int| audio_token_id),
        decreases audio_tokens - n,
    {
        tokens.push(audio_token_id);
        n = n + 1;
        assert(tokens@ =~= prompt_open() + Seq::new(n as nat, |i: int| audio_token_id));
    }
    tokens.push(INST_CLOSE);
    let ghost head = prompt_open() + Seq::new(audio_tokens as nat, |i: int| audio_token_id)
        + seq![INST_CLOSE];
    let mut k: usize = 0;
    assert(tokens@ =~= head + lang@.take(0));
    while k < lang.len()
        invariant
            k <= lang@.len(),
            tokens@ == head + lang@.take(k as int),
        decreases lang@.len() - k,
    {
        tokens.push(lang[k]);
        k = k + 1;
        assert(tokens@ =~= head + lang@.take(k as int));
    }
    tokens.push(TRANSCRIBE);
    assert(lang@.take(lang@.len() as int) =~= lang@);
    assert(tokens@ =~= prompt_tokens(audio_tokens as nat, audio_token_id, lang@));
    tokens
}

/// The hint that asks for the language `lang_code`.
pub open spec fn hint(lang_code: Seq<char>) -> Seq<char> {
    "lang:"@ + lang_code
}

/// The prompt of `audio_tokens` placeholders in the language `lang_code`, whose
/// hint has tokens.
pub open spec fn prompted(
    tokenizer: Recipe,
    audio_tokens: nat,
    audio_token_id: u32,
    lang_code: Seq<char>,
) -> Seq<u32> {
    prompt_tokens(audio_tokens, audio_token_id, encoding(tokenizer, hint(lang_code))->0)
}

/// `<s>[INST][BEGIN_AUDIO][AUDIO]*N[/INST]lang:<code>[TRANSCRIBE]`.
///
/// The `lang:<code>` hint is tokenized: `lang:en` is `[9909, 1058, 1262]` in
/// the published vocabulary. The tokenizer has tokens for it.
pub fn prompt(
    tokenizer: &tekken::Tekkenizer,
    audio_tokens: usize,
    audio_token_id: u32,
    lang_code: &str,
) -> (res: Result<Vec<u32>, String>)
    requires
        encodes(recipe_of(*tokenizer), hint(lang_code@)),
    ensures
        res is Ok,
        res->Ok_0@ == prompted(
            recipe_of(*tokenizer),
            audio_tokens as nat,
            audio_token_id,
            lang_code@,
        ),
{
    match encode(tokenizer, &concat("lang:", lang_code)) {
        Ok(lang) => Ok(prompt_with(audio_tokens, audio_token_id, &lang)),
        Err(e) => Err(concat("encode lang prompt: ", &shown_error(&e))),
    }
}

/// Whether the hint for `lang_code` is short enough for a tokenizer that is
/// known to be total.
pub fn hint_fits(lang_code: &str) -> (res: bool)
    ensures
        res == (hint(lang_code@).len() <= MAX_TEXT),
{
    chars_of(&concat("lang:", lang_code)).len() <= MAX_TEXT
}

/// Whether the placeholders of `ids` are exactly those from `start` up to
/// `end`, and there is one.
pub open spec fn is_audio_run(ids: Seq<u32>, placeholder: u32, start: int, end: int) -> bool {
    &&& 0 <= start < end <= ids.len()
    &&& forall|i: int| 0 <= i < ids.len() ==> (ids[i] == placeholder <==> start <= i < end)
}

/// What is said of placeholders that are not the run the audio fills.
pub open spec fn no_such_run(rows: nat) -> Seq<char> {
    "the prompt's audio placeholders do not form one run of the "@ + decimal(rows)
        + " the audio fills"@
}

/// Where the audio's `rows` embeddings go in the prompt: in place of its
/// placeholders, which must be one run exactly as long.
pub fn audio_run(ids: &[u32], placeholder: u32, rows: usize) -> (res: Result<
    (usize, usize),
    String,
>)
    ensures
        match res {
            Ok((start, end)) => is_audio_run(ids@, placeholder, start as int, end as int) && end
                - start == rows,
            Err(e) => if ids@.contains(placeholder) {
                &&& e@ == no_such_run(rows as nat)
                &&& forall|start: int, end: int|
                    #[trigger] is_audio_run(ids@, placeholder, start, end) ==> end - start != rows
            } else {
                e@ == "the prompt has no audio placeholder"@
            },
        },
{
    let mut start: usize = 0;
    while start < ids.len() && ids[start] != placeholder
        invariant
            start <= ids@.len(),
            forall|i: int| 0 <= i < start ==> ids@[i] != placeholder,
        decreases ids@.len() - start,
    {
        start = start + 1;
    }
    if start == ids.len() {
        return Err("the prompt has no audio placeholder".to_string());
    }
    assert(ids@[start as int] == placeholder);
    let mut end: usize = start;
    while end < ids.len() && ids[end] == placeholder
        invariant
            start <= end <= ids@.len(),
            forall|i: int| start <= i < end ==> ids@[i] == placeholder,
        decreases ids@.len() - end,
    {
        end = end + 1;
    }
    let mut again: usize = end;
    while again < ids.len() && ids[again] != placeholder
        invariant
            end <= again <= ids@.len(),
            forall|i: int| end <= i < again ==> ids@[i] != placeholder,
        decreases ids@.len() - again,
    {
        again = again + 1;
    }
    if end - start != rows || again < ids.len() {
        let mut e = "the prompt's audio placeholders do not form one run of the ".to_string();
        e.append(&decimal_of(rows as u64));
        e.append(" the audio fills");
        assert forall|s: int, t: int| #[trigger]
            is_audio_run(ids@, placeholder, s, t) implies t - s != rows by {
            assert(s <= start < t);
            if s < start {
                assert(ids@[s] == placeholder);
            }
            if end < t {
                assert(ids@[end as int] == placeholder);
            }
            if t < end {
                assert(ids@[t] == placeholder);
            }
            if again < ids@.len() {
                assert(ids@[again as int] == placeholder);
                assert(s <= again < t);
            }
        }
        return Err(e);
    }
    Ok((start, end))
}

/// A prompt has its placeholders where the audio is put: right behind its
/// opening, as many as it was made with. The id of the placeholder is none of
/// the other tokens'.
pub proof fn law_a_prompt_holds_one_run(audio_tokens: nat, audio_token_id: u32, lang: Seq<u32>)
    requires
        audio_tokens > 0,
        !prompt_open().contains(audio_token_id),
        audio_token_id != INST_CLOSE,
        audio_token_id != TRANSCRIBE,
        !lang.contains(audio_token_id),
    ensures
        is_audio_run(
            prompt_tokens(audio_tokens, audio_token_id, lang),
            audio_token_id,
            3,
            3 + audio_tokens as int,
        ),
        prompt_tokens(audio_tokens, audio_token_id, lang).len() == 3 + audio_tokens + 1 + lang.len()
            + 1,
{
    let ids = prompt_tokens(audio_tokens, audio_token_id, lang);
    assert forall|i: int| 0 <= i < ids.len() implies (ids[i] == audio_token_id <==> 3 <= i < 3
        + audio_tokens) by {
        if i < 3 {
            assert(prompt_open().contains(prompt_open()[i]));
        } else if i > 3 + audio_tokens && i < ids.len() - 1 {
            let k = i - 4 - audio_tokens;
            assert(ids[i] == lang[k]);
            assert(lang.contains(lang[k]));
        }
    }
}

/// The audio has at most one place in a prompt.
pub proof fn law_the_audio_has_one_place(
    ids: Seq<u32>,
    placeholder: u32,
    start: int,
    end: int,
    start2: int,
    end2: int,
)
    requires
        is_audio_run(ids, placeholder, start, end),
        is_audio_run(ids, placeholder, start2, end2),
    ensures
        start == start2,
        end == end2,
{
    assert(ids[start] == placeholder);
    assert(ids[start2] == placeholder);
    assert(ids[end - 1] == placeholder);
    assert(ids[end2 - 1] == placeholder);
}

/// What is said of tokens that stand for no text, before the reason.
pub open spec fn undecoded() -> Seq<char> {
    "Failed to decode tokens: "@
}

/// Whether `res` is what generated tokens come to: the transcript of the text
/// they stand for, or what is wrong with it. Where they stand for no text the
/// reason is told, in words that are not fixed.
pub open spec fn transcribed(
    tokenizer: Recipe,
    tokens: Seq<u32>,
    res: Result<Seq<char>, Seq<char>>,
) -> bool {
    match decoding(tokenizer, tokens) {
        Some(text) => match transcript(text) {
            Some(cleaned) => res == Ok::<Seq<char>, Seq<char>>(cleaned),
            None => res == Err::<Seq<char>, Seq<char>>(
                "mel feature generation produced invalid output"@,
            ),
        },
        None => res is Err && begins_with(res->Err_0, undecoded()),
    }
}

/// A result with its texts as sequences of characters.
pub open spec fn told(res: Result<String, String>) -> Result<Seq<char>, Seq<char>> {
    match res {
        Ok(text) => Ok(text@),
        Err(e) => Err(e@),
    }
}

/// The transcript generated tokens come to.
pub fn transcript_of(tokenizer: &tekken::Tekkenizer, tokens: &[u32]) -> (res: Result<
    String,
    String,
>)
    ensures
        transcribed(recipe_of(*tokenizer), tokens@, told(res)),
{
    match text(tokenizer, tokens, "Failed to decode tokens: ") {
        Ok(text) => post_process_transcription(&text),
        Err(e) => Err(e),
    }
}

/// A prompt, position by position: `<s>`, `[INST]` and `[BEGIN_AUDIO]`, the
/// placeholders, `[/INST]`, the tokens of the hint in their order, and
/// `[TRANSCRIBE]` last, for any number of placeholders and any hint.
pub proof fn law_a_prompt_position_by_position(
    audio_tokens: nat,
    audio_token_id: u32,
    lang: Seq<u32>,
)
    ensures
        ({
            let ids = prompt_tokens(audio_tokens, audio_token_id, lang);
            let n = audio_tokens as int;
            &&& ids.len() == n + 5 + lang.len()
            &&& ids[0] == 1 && ids[1] == 3 && ids[2] == 25
            &&& forall|i: int| 3 <= i < 3 + n ==> #[trigger] ids[i] == audio_token_id
            &&& ids[3 + n] == 4
            &&& forall|k: int| 0 <= k < lang.len() ==> ids[4 + n + k] == #[trigger] lang[k]
            &&& ids[4 + n + lang.len()] == 34
        }),
{
}

/// The hint in a prompt is the tokens of `lang:` and the code.
pub proof fn law_the_hint_names_the_language(
    tokenizer: Recipe,
    audio_tokens: nat,
    audio_token_id: u32,
    lang_code: Seq<char>,
)
    requires
        encoding(tokenizer, "lang:"@ + lang_code) is Some,
    ensures
        ({
            let ids = prompted(tokenizer, audio_tokens, audio_token_id, lang_code);
            let lang = encoding(tokenizer, "lang:"@ + lang_code)->0;
            &&& ids.len() == audio_tokens + 5 + lang.len()
            &&& ids.subrange(4 + audio_tokens as int, ids.len() - 1) == lang
            &&& ids.last() == 34
            &&& forall|i: int| 3 <= i < 3 + audio_tokens ==> #[trigger] ids[i] == audio_token_id
        }),
{
    let ids = prompted(tokenizer, audio_tokens, audio_token_id, lang_code);
    let lang = encoding(tokenizer, "lang:"@ + lang_code)->0;
    law_a_prompt_position_by_position(audio_tokens, audio_token_id, lang);
    assert(ids.subrange(4 + audio_tokens as int, ids.len() - 1) =~= lang);
}

/// A language is asked for by its code, and English where there is none or it
/// is `auto`.
pub proof fn law_a_language_is_asked_for_by_its_code(code: &str)
    ensures
        hinted(None) == "en"@,
        hinted(Some(code)) == if code@ == "auto"@ {
            "en"@
        } else {
            code@
        },
{
}

/// The audio goes where the placeholders are and nowhere else.
pub proof fn law_the_audio_goes_where_the_placeholders_are(
    before: Seq<u32>,
    placeholder: u32,
    rows: nat,
    after: Seq<u32>,
)
    requires
        rows > 0,
        forall|i: int| 0 <= i < before.len() ==> #[trigger] before[i] != placeholder,
        forall|i: int| 0 <= i < after.len() ==> #[trigger] after[i] != placeholder,
    ensures
        is_audio_run(
            before + Seq::new(rows, |i: int| placeholder) + after,
            placeholder,
            before.len() as int,
            (before.len() + rows) as int,
        ),
{
}

/// Of a run of placeholders every one is a placeholder, and no other token is.
pub proof fn law_a_run_holds_every_placeholder(
    ids: Seq<u32>,
    placeholder: u32,
    start: int,
    end: int,
    i: int,
)
    requires
        is_audio_run(ids, placeholder, start, end),
        0 <= i < ids.len(),
    ensures
        0 <= start < end <= ids.len(),
        ids[i] == placeholder <==> start <= i < end,
{
}

/// Placeholders that the audio does not fill are told by the number it has.
pub proof fn law_placeholders_are_told_by_their_number(rows: nat)
    ensures
        no_such_run(rows) == "the prompt's audio placeholders do not form one run of the "@
            + decimal(rows) + " the audio fills"@,
        undecoded() == "Failed to decode tokens: "@,
{
}

/// Generated tokens come to the transcript of the text they stand for, or to
/// an error where that says nothing or there is none.
pub proof fn law_tokens_come_to_the_transcript_of_their_text(
    tokenizer: Recipe,
    tokens: Seq<u32>,
    text: Seq<char>,
    res: Result<Seq<char>, Seq<char>>,
)
    requires
        transcribed(tokenizer, tokens, res),
    ensures
        decoding(tokenizer, tokens) == Some(text) ==> match transcript(text) {
            Some(cleaned) => res == Ok::<Seq<char>, Seq<char>>(cleaned),
            None => res == Err::<Seq<char>, Seq<char>>(
                "mel feature generation produced invalid output"@,
            ),
        },
        decoding(tokenizer, tokens) is None ==> res is Err,
{
}

/// A result is told by its own text.
pub proof fn law_a_result_is_told_by_its_text(text: String)
    ensures
        told(Ok(text)) == Ok::<Seq<char>, Seq<char>>(text@),
        told(Err(text)) == Err::<Seq<char>, Seq<char>>(text@),
{
}

/// The hint for a language is `lang:` and its code.
pub proof fn law_a_hint_is_the_code_behind_its_prefix(lang_code: Seq<char>)
    ensures
        hint(lang_code) == "lang:"@ + lang_code,
        hint(lang_code).len() == 5 + lang_code.len(),
{
    reveal_strlit("lang:");
}

} // verus!
