//! The engine the `/v1` handlers drive: which accelerator it runs on and in
//! which type, how far a load has to go, and how a request becomes a prompt.

use vstd::prelude::*;

use crate::arith::{lemma_ceil_div_unique, round_up};
use crate::audio::{chunk_count, frame_count, CHUNK_SAMPLES, SAMPLE_RATE};
use crate::checkpoint::Dtype;
use crate::config::VoxtralConfig;
use crate::decoding::{cache_capacity, MAX_NEW_TOKENS};
use crate::prompt::{
    hint, hint_fits, hinted, is_audio_run, language_code, law_a_prompt_holds_one_run,
    law_the_hint_names_the_language, prompt, prompt_open, prompt_tokens, prompted, told,
    transcribed, transcript_of, undecoded, INST_CLOSE, TRANSCRIBE,
};
use crate::protocol::{chars, Phase, Step};
use crate::shapes::{audio_tokens, law_the_audio_fills_its_placeholders, placeholders};
use crate::text::{begins_with, chars_of, concat, decimal, decimal_of, text_of, trim, trimmed};
use crate::tokenizer::{encodes, encoding, recipe_of, Recipe, TotalTokenizer, MAX_TEXT};

verus! {

/// An accelerator a build can be compiled for. Every one is a GPU; the models
/// are too big for a CPU build to be worth shipping.
#[derive(Debug, Clone, Copy, PartialEq, Eq, Structural)]
pub enum Accelerator {
    Cuda,
    Rocm,
    Vulkan,
    Metal,
}

impl Accelerator {
    /// The accelerator's name.
    pub open spec fn wire(self) -> Seq<char> {
        match self {
            Accelerator::Cuda => "cuda"@,
            Accelerator::Rocm => "rocm"@,
            Accelerator::Vulkan => "vulkan"@,
            Accelerator::Metal => "metal"@,
        }
    }

    /// The accelerator's name.
    pub fn as_str(self) -> (res: &'static str)
        ensures
            res@ == self.wire(),
    {
        match self {
            Accelerator::Cuda => "cuda",
            Accelerator::Rocm => "rocm",
            Accelerator::Vulkan => "vulkan",
            Accelerator::Metal => "metal",
        }
    }

    /// The accelerator of a build that has the named ones compiled in. One
    /// build serves one accelerator: of several it takes the first.
    pub fn of_build(cuda: bool, rocm: bool, vulkan: bool) -> (res: Accelerator)
        ensures
            cuda ==> res == Accelerator::Cuda,
            !cuda && rocm ==> res == Accelerator::Rocm,
            !cuda && !rocm && vulkan ==> res == Accelerator::Vulkan,
            !cuda && !rocm && !vulkan ==> res == Accelerator::Metal,
    {
        if cuda {
            Accelerator::Cuda
        } else if rocm {
            Accelerator::Rocm
        } else if vulkan {
            Accelerator::Vulkan
        } else {
            Accelerator::Metal
        }
    }

    /// The entries a first load's warm-up writes to the kernel cache, which is
    /// what its progress is measured against. Only the pace of the bar rides
    /// on it.
    pub fn warm_up_cache_entries(self) -> (res: u64)
        ensures
            res == (if self == Accelerator::Cuda || self == Accelerator::Rocm {
                714u64
            } else {
                286u64
            }),
    {
        match self {
            Accelerator::Cuda => 714,
            Accelerator::Rocm => 714,
            Accelerator::Vulkan => 286,
            Accelerator::Metal => 286,
        }
    }
}

/// `c`, in lower case if it is an ASCII letter.
pub open spec fn ascii_lower(c: char) -> char {
    if 'A' <= c && c <= 'Z' {
        (c as u32 + 32) as char
    } else {
        c
    }
}

/// Whether two texts differ at most in the case of their ASCII letters.
pub open spec fn same_ignoring_case(a: Seq<char>, b: Seq<char>) -> bool {
    &&& a.len() == b.len()
    &&& forall|i: int| 0 <= i < a.len() ==> ascii_lower(a[i]) == ascii_lower(b[i])
}

/// `c`, in lower case if it is an ASCII letter.
fn lower(c: char) -> (res: char)
    ensures
        res == ascii_lower(c),
{
    if 'A' <= c && c <= 'Z' {
        ((c as u8) + 32) as char
    } else {
        c
    }
}

/// Whether two texts differ at most in the case of their ASCII letters.
fn matches_ignoring_case(a: &Vec<char>, b: &Vec<char>) -> (res: bool)
    ensures
        res == same_ignoring_case(a@, b@),
{
    if a.len() != b.len() {
        return false;
    }
    let mut i: usize = 0;
    while i < a.len()
        invariant
            i <= a@.len(),
            a@.len() == b@.len(),
            forall|j: int| 0 <= j < i ==> ascii_lower(a@[j]) == ascii_lower(b@[j]),
        decreases a@.len() - i,
    {
        if lower(a[i]) != lower(b[i]) {
            return false;
        }
        i = i + 1;
    }
    true
}

/// The device a load runs on.
#[derive(Debug, Clone)]
pub struct Selection {
    /// The name `GET /v1/status` reports.
    pub name: &'static str,
    /// What was asked for instead.
    pub mismatch: Option<String>,
}

/// What was asked for of a build for `built_for`, where that is something
/// else.
pub open spec fn mismatch(requested: Option<&str>, built_for: Accelerator) -> Option<Seq<char>> {
    match requested {
        Some(r) if trim(r@).len() > 0 && !same_ignoring_case(trim(r@), built_for.wire()) => Some(
            trim(r@),
        ),
        _ => None,
    }
}

/// The device a build for `built_for` runs on.
///
/// The daemon sends the accelerator it resolved for the installed asset, or
/// nothing. A build has exactly one backend compiled in, so the request is a
/// cross-check rather than a choice, and a mismatch is worth a line in the log
/// because it means the wrong asset was installed for the host.
pub fn select_device(requested: Option<&str>, built_for: Accelerator) -> (res: Selection)
    ensures
        res.name@ == built_for.wire(),
        chars(res.mismatch) == mismatch(requested, built_for),
{
    let mut mismatch: Option<String> = None;
    if let Some(r) = requested {
        let asked: Vec<char> = trimmed(&chars_of(r));
        let own: Vec<char> = chars_of(built_for.as_str());
        if asked.len() > 0 && !matches_ignoring_case(&asked, &own) {
            mismatch = Some(text_of(&asked));
        }
    }
    Selection { name: built_for.as_str(), mismatch }
}

/// The type the weights are cast to: half precision on every accelerator, and
/// single on a device without it.
pub fn model_dtype(supports_half: bool) -> (res: Dtype)
    ensures
        res == if supports_half {
            Dtype::F16
        } else {
            Dtype::F32
        },
{
    if supports_half {
        Dtype::F16
    } else {
        Dtype::F32
    }
}

/// Which kind of load this is: an initial setup unless the model's marker says
/// that this build warmed it up before. Without a place for a marker every
/// load compiles everything, and so is an initial setup.
pub fn load_phase(marked: Option<bool>) -> (res: Phase)
    ensures
        res == if marked == Some(true) {
            Phase::Loading
        } else {
            Phase::InitialSetup
        },
{
    match marked {
        Some(true) => Phase::Loading,
        _ => Phase::InitialSetup,
    }
}

/// What the warm-up of a load is called: in an initial setup it builds the
/// kernels.
pub fn warm_up_step(phase: Phase) -> (res: Step)
    ensures
        res == match phase {
            Phase::InitialSetup => Step::BuildingKernels,
            Phase::Loading => Step::WarmingUp,
        },
{
    match phase {
        Phase::InitialSetup => Step::BuildingKernels,
        Phase::Loading => Step::WarmingUp,
    }
}

/// The sum of `sizes`.
pub open spec fn sum(sizes: Seq<u64>) -> nat
    decreases sizes.len(),
{
    if sizes.len() == 0 {
        0
    } else {
        sum(sizes.drop_last()) + sizes.last() as nat
    }
}

proof fn lemma_sum_grows(sizes: Seq<u64>, i: int)
    requires
        0 <= i <= sizes.len(),
    ensures
        sum(sizes.take(i)) <= sum(sizes),
    decreases sizes.len() - i,
{
    if i < sizes.len() {
        lemma_sum_grows(sizes, i + 1);
        assert(sizes.take(i + 1).drop_last() =~= sizes.take(i));
    } else {
        assert(sizes.take(i) =~= sizes);
    }
}

/// How many bytes a load reads, given the sizes of the shards, or `None` when
/// they are more than can be counted.
pub fn total_bytes(sizes: &[u64]) -> (res: Option<u64>)
    ensures
        match res {
            Some(total) => total == sum(sizes@),
            None => sum(sizes@) > u64::MAX,
        },
{
    let mut total: u64 = 0;
    let mut i: usize = 0;
    while i < sizes.len()
        invariant
            i <= sizes@.len(),
            total == sum(sizes@.take(i as int)),
        decreases sizes@.len() - i,
    {
        proof {
            lemma_sum_grows(sizes@, i + 1);
            assert(sizes@.take(i + 1).drop_last() =~= sizes@.take(i as int));
        }
        if sizes[i] > u64::MAX - total {
            return None;
        }
        total = total + sizes[i];
        i = i + 1;
    }
    assert(sizes@.take(sizes@.len() as int) =~= sizes@);
    Some(total)
}

/// What the warm-up feeds the decoder. Any tokens do: only the shapes they run
/// at matter. Three, so the steady state after the first step's compile is
/// reached too.
pub fn warm_up_tokens() -> (res: Vec<u32>)
    ensures
        res@ == seq![0u32, 0u32, 0u32],
{
    let res: Vec<u32> = vec![0, 0, 0];
    assert(res@ =~= seq![0u32, 0u32, 0u32]);
    res
}

/// The prompt of a clip whose features are `chunks` chunks, in the language
/// `lang_code`. The tokenizer has tokens for the hint.
pub fn request_prompt(
    tokenizer: &tekken::Tekkenizer,
    config: &VoxtralConfig,
    chunks: usize,
    lang_code: &str,
) -> (res: Result<Vec<u32>, String>)
    requires
        config.audio_config.hidden_size > 0,
        config.fold() > 0,
        placeholders(*config, chunks as nat) <= usize::MAX,
        encodes(recipe_of(*tokenizer), hint(lang_code@)),
    ensures
        res is Ok,
        res->Ok_0@ == prompted(
            recipe_of(*tokenizer),
            placeholders(*config, chunks as nat),
            config.audio_token_id,
            lang_code@,
        ),
{
    prompt(tokenizer, audio_tokens(config, chunks), config.audio_token_id, lang_code)
}

/// What a transcription of `chunks` chunks prompts the model with. Its sample
/// rate plays no part: the clip is taken as it is.
pub open spec fn asked(
    tokenizer: Recipe,
    config: VoxtralConfig,
    chunks: nat,
    sample_rate: u32,
    language: Option<&str>,
) -> Seq<u32> {
    prompted(tokenizer, placeholders(config, chunks), config.audio_token_id, hinted(language))
}

/// What is worth a line in the log about a clip at `sample_rate`: the daemon
/// is to send 16 kHz.
pub fn rate_warning(sample_rate: u32) -> (res: Option<String>)
    ensures
        match res {
            Some(line) => sample_rate != SAMPLE_RATE && line@ == "Voxtral expects 16000Hz; got "@
                + decimal(sample_rate as nat) + "Hz (daemon should resample)"@,
            None => sample_rate == SAMPLE_RATE,
        },
{
    if sample_rate == SAMPLE_RATE {
        return None;
    }
    let mut line = "Voxtral expects 16000Hz; got ".to_string();
    line.append(&decimal_of(sample_rate as u64));
    line.append("Hz (daemon should resample)");
    Some(line)
}

/// Whether `res` answers a transcription whose model made `generated` of its
/// prompt: the transcript of its tokens, or why there are none.
pub open spec fn answers(
    tokenizer: Recipe,
    generated: Result<Vec<u32>, String>,
    res: Result<Seq<char>, Seq<char>>,
) -> bool {
    match generated {
        Ok(tokens) => transcribed(tokenizer, tokens@, res),
        Err(e) => res == Err::<Seq<char>, Seq<char>>("Failed to generate tokens: "@ + e@),
    }
}

/// Whether `res` is what a transcription comes to when `generate` runs the
/// model on its prompt.
pub open spec fn transcription<F: FnOnce(Vec<u32>) -> Result<Vec<u32>, String>>(
    tokenizer: Recipe,
    config: VoxtralConfig,
    chunks: nat,
    sample_rate: u32,
    language: Option<&str>,
    generate: F,
    res: Result<Seq<char>, Seq<char>>,
) -> bool {
    exists|ids: Vec<u32>, generated: Result<Vec<u32>, String>|
        ids@ == asked(tokenizer, config, chunks, sample_rate, language)
            && #[trigger] generate.ensures((ids,), generated) && answers(tokenizer, generated, res)
}

/// Transcribe a clip whose features are `chunks` chunks: prompt the model, run
/// it with `generate`, and turn its tokens into a transcript. The tokenizer has
/// tokens for the language's hint.
pub fn transcribe<F: FnOnce(Vec<u32>) -> Result<Vec<u32>, String>>(
    tokenizer: &tekken::Tekkenizer,
    config: &VoxtralConfig,
    chunks: usize,
    sample_rate: u32,
    language: Option<&str>,
    generate: F,
) -> (res: Result<String, String>)
    requires
        config.audio_config.hidden_size > 0,
        config.fold() > 0,
        placeholders(*config, chunks as nat) <= usize::MAX,
        encodes(recipe_of(*tokenizer), hint(hinted(language))),
        forall|ids: Vec<u32>| #[trigger] generate.requires((ids,)),
    ensures
        transcription(
            recipe_of(*tokenizer),
            *config,
            chunks as nat,
            sample_rate,
            language,
            generate,
            told(res),
        ),
{
    let lang_code = language_code(language);
    let ids = match request_prompt(tokenizer, config, chunks, &lang_code) {
        Ok(ids) => ids,
        Err(e) => {
            return Err(e);
        },
    };
    match generate(ids) {
        Ok(tokens) => transcript_of(tokenizer, &tokens),
        Err(e) => Err(generation_failed(&e)),
    }
}

/// `transcribe` with a tokenizer that is known to be total, or `None` where the
/// language's hint is too long to know.
pub fn checked_transcribe<F: FnOnce(Vec<u32>) -> Result<Vec<u32>, String>>(
    tokenizer: &TotalTokenizer,
    config: &VoxtralConfig,
    chunks: usize,
    sample_rate: u32,
    language: Option<&str>,
    generate: F,
) -> (res: Option<Result<String, String>>)
    requires
        config.audio_config.hidden_size > 0,
        config.fold() > 0,
        placeholders(*config, chunks as nat) <= usize::MAX,
        forall|ids: Vec<u32>| #[trigger] generate.requires((ids,)),
    ensures
        match res {
            Some(res) => hint(hinted(language)).len() <= MAX_TEXT && transcription(
                tokenizer@,
                *config,
                chunks as nat,
                sample_rate,
                language,
                generate,
                told(res),
            ),
            None => hint(hinted(language)).len() > MAX_TEXT,
        },
{
    if hint_fits(&language_code(language)) {
        Some(
            transcribe(tokenizer.inner(), config, chunks, sample_rate, language, generate),
        )
    } else {
        None
    }
}

/// No language, `auto` and `en` ask for the same, at any two sample rates, and
/// so one model gives them one answer. Any other code is asked for as it is.
pub proof fn law_no_language_is_english_at_any_rate(
    tokenizer: Recipe,
    config: VoxtralConfig,
    chunks: nat,
    r1: u32,
    r2: u32,
    auto: &str,
    english: &str,
    code: &str,
)
    requires
        auto@ == "auto"@,
        english@ == "en"@,
        code@ != "auto"@,
    ensures
        asked(tokenizer, config, chunks, r1, None) == asked(
            tokenizer,
            config,
            chunks,
            r2,
            Some(auto),
        ),
        asked(tokenizer, config, chunks, r1, None) == asked(
            tokenizer,
            config,
            chunks,
            r2,
            Some(english),
        ),
        asked(tokenizer, config, chunks, r1, Some(code)) == prompted(
            tokenizer,
            placeholders(config, chunks),
            config.audio_token_id,
            code@,
        ),
{
    reveal_strlit("auto");
    reveal_strlit("en");
    assert("auto"@.len() != "en"@.len());
}

/// Whether running the model twice on the same prompt makes the same of it.
pub open spec fn is_steady<F: FnOnce(Vec<u32>) -> Result<Vec<u32>, String>>(generate: F) -> bool {
    forall|a: Vec<u32>, b: Vec<u32>, x: Result<Vec<u32>, String>, y: Result<Vec<u32>, String>|
        #![trigger generate.ensures((a,), x), generate.ensures((b,), y)]
        a@ == b@ && generate.ensures((a,), x) && generate.ensures((b,), y) ==> match (x, y) {
            (Ok(s), Ok(t)) => s@ == t@,
            (Err(s), Err(t)) => s@ == t@,
            _ => false,
        }
}

/// Transcribing the same clip with no language, with `auto` and with `en`, at
/// any two sample rates, comes to one result when the model is steady. Only
/// the reason why tokens stand for no text is not fixed.
pub proof fn law_no_language_transcribes_as_english<
    F: FnOnce(Vec<u32>) -> Result<Vec<u32>, String>,
>(
    tokenizer: Recipe,
    config: VoxtralConfig,
    chunks: nat,
    r1: u32,
    r2: u32,
    auto: &str,
    english: &str,
    generate: F,
    none: Result<Seq<char>, Seq<char>>,
    other: Result<Seq<char>, Seq<char>>,
)
    requires
        auto@ == "auto"@,
        english@ == "en"@,
        is_steady(generate),
        transcription(tokenizer, config, chunks, r1, None, generate, none),
        transcription(tokenizer, config, chunks, r2, Some(auto), generate, other)
            || transcription(tokenizer, config, chunks, r2, Some(english), generate, other),
    ensures
        none == other || (none is Err && other is Err && begins_with(none->Err_0, undecoded())
            && begins_with(other->Err_0, undecoded())),
{
    reveal_strlit("auto");
    reveal_strlit("en");
    assert("auto"@.len() != "en"@.len());
    law_no_language_is_english_at_any_rate(
        tokenizer,
        config,
        chunks,
        r1,
        r2,
        auto,
        english,
        english,
    );
}

/// What a request is told when the generation failed.
pub fn generation_failed(error: &str) -> (res: String)
    ensures
        res@ == "Failed to generate tokens: "@ + error@,
{
    concat("Failed to generate tokens: ", error)
}

/// A build serves its own accelerator whatever it is asked for, and asking for
/// that one, in any case and with white space around it, is no mismatch.
pub proof fn law_asking_for_the_own_accelerator_is_no_mismatch(
    requested: &str,
    built_for: Accelerator,
)
    requires
        same_ignoring_case(trim(requested@), built_for.wire()),
    ensures
        mismatch(Some(requested), built_for) is None,
{
}

/// The warm-up runs at the shapes of every clip of up to one chunk: silence
/// and clip are padded to as many samples, cut into as many chunks, prompted
/// with as many placeholders and given caches of the same capacity.
pub proof fn law_the_warm_up_runs_at_the_shapes_of_a_short_clip(
    config: VoxtralConfig,
    samples: nat,
    lang: Seq<u32>,
    clip_lang: Seq<u32>,
)
    requires
        0 < samples <= CHUNK_SAMPLES,
        lang.len() == clip_lang.len(),
    ensures
        round_up(samples, CHUNK_SAMPLES as nat) == CHUNK_SAMPLES,
        ({
            let silence = chunk_count(frame_count(CHUNK_SAMPLES as nat));
            let clip = chunk_count(frame_count(round_up(samples, CHUNK_SAMPLES as nat)));
            let warm_up = prompt_tokens(placeholders(config, silence), config.audio_token_id, lang);
            let request = prompt_tokens(
                placeholders(config, clip),
                config.audio_token_id,
                clip_lang,
            );
            &&& silence == clip
            &&& warm_up.len() == request.len()
            &&& cache_capacity(warm_up.len(), MAX_NEW_TOKENS as nat) == cache_capacity(
                request.len(),
                MAX_NEW_TOKENS as nat,
            )
        }),
{
    lemma_ceil_div_unique(samples, CHUNK_SAMPLES as nat, 1);
}

/// The audio of a clip has a place in its prompt: the embeddings the projector
/// makes of `chunks` chunks are as many as the placeholders behind the
/// prompt's opening. The id of the placeholder is none of the other tokens',
/// and a chunk's frames come out even over its embeddings.
pub proof fn law_the_audio_has_its_place_in_the_prompt(
    config: VoxtralConfig,
    chunks: nat,
    rows: nat,
    lang: Seq<u32>,
)
    requires
        config.problem() is None,
        config.fold() > 0,
        config.audio_config.max_source_positions as nat % config.fold() == 0,
        rows * config.audio_config.intermediate_size == chunks
            * config.audio_config.max_source_positions * config.audio_config.hidden_size,
        rows > 0,
        !prompt_open().contains(config.audio_token_id),
        config.audio_token_id != INST_CLOSE,
        config.audio_token_id != TRANSCRIBE,
        !lang.contains(config.audio_token_id),
    ensures
        is_audio_run(
            prompt_tokens(placeholders(config, chunks), config.audio_token_id, lang),
            config.audio_token_id,
            3,
            3 + rows as int,
        ),
{
    law_the_audio_fills_its_placeholders(config, chunks, rows);
    law_a_prompt_holds_one_run(rows, config.audio_token_id, lang);
}

/// Each accelerator has its own name.
pub proof fn law_accelerators_have_their_names()
    ensures
        Accelerator::Cuda.wire() == "cuda"@,
        Accelerator::Rocm.wire() == "rocm"@,
        Accelerator::Vulkan.wire() == "vulkan"@,
        Accelerator::Metal.wire() == "metal"@,
{
}

/// The case of a letter makes no difference, and nothing else is overlooked.
pub proof fn law_only_case_is_overlooked(a: Seq<char>, b: Seq<char>, c: char, d: char)
    ensures
        same_ignoring_case(a, a),
        same_ignoring_case(a, b) == same_ignoring_case(b, a),
        same_ignoring_case(seq![c] + a, seq![d] + b) <==> ascii_lower(c) == ascii_lower(d)
            && same_ignoring_case(a, b),
        !same_ignoring_case(seq![c] + a, Seq::empty()),
        ascii_lower(c) == ascii_lower(d) <==> {
            ||| c == d
            ||| 'A' <= c && c <= 'Z' && d as int == c as int + 32
            ||| 'A' <= d && d <= 'Z' && c as int == d as int + 32
        },
{
    let x = seq![c] + a;
    let y = seq![d] + b;
    if same_ignoring_case(x, y) {
        assert(x[0] == c && y[0] == d);
        assert forall|i: int| 0 <= i < a.len() implies ascii_lower(a[i]) == ascii_lower(b[i]) by {
            assert(x[i + 1] == a[i] && y[i + 1] == b[i]);
        }
    }
    if ascii_lower(c) == ascii_lower(d) && same_ignoring_case(a, b) {
        assert forall|i: int| 0 <= i < x.len() implies ascii_lower(x[i]) == ascii_lower(y[i]) by {
            if i > 0 {
                assert(x[i] == a[i - 1] && y[i] == b[i - 1]);
            }
        }
    }
}

/// A request is a mismatch when it says something, white space apart, that is
/// not the name of the build's accelerator in some case; and it is told without
/// the white space around it.
pub proof fn law_another_accelerator_is_a_mismatch(requested: &str, built_for: Accelerator)
    ensures
        mismatch(None, built_for) is None,
        trim(requested@).len() == 0 ==> mismatch(Some(requested), built_for) is None,
        trim(requested@).len() > 0 && !same_ignoring_case(trim(requested@), built_for.wire())
            ==> mismatch(Some(requested), built_for) == Some(trim(requested@)),
{
}

/// The bytes of two lists of shards are those of the one and of the other.
pub proof fn law_sizes_add_up(a: Seq<u64>, b: Seq<u64>, x: u64)
    ensures
        sum(a + b) == sum(a) + sum(b),
        sum(seq![x]) == x,
        sum(Seq::empty()) == 0,
    decreases b.len(),
{
    assert(seq![x].drop_last() =~= Seq::<u64>::empty());
    assert(sum(seq![x].drop_last()) == 0);
    if b.len() > 0 {
        law_sizes_add_up(a, b.drop_last(), x);
        assert((a + b).drop_last() =~= a + b.drop_last());
    } else {
        assert(a + b =~= a);
    }
}

/// A transcription asks for its chunks' placeholders and its language.
pub proof fn law_a_transcription_asks_for_its_language(
    tokenizer: Recipe,
    config: VoxtralConfig,
    chunks: nat,
    sample_rate: u32,
    code: &str,
)
    requires
        code@ != "auto"@,
        encoding(tokenizer, "lang:"@ + code@) is Some,
    ensures
        ({
            let ids = asked(tokenizer, config, chunks, sample_rate, Some(code));
            let n = chunks * (config.audio_config.max_source_positions as nat / config.fold());
            let lang = encoding(tokenizer, "lang:"@ + code@)->0;
            &&& ids.len() == n + 5 + lang.len()
            &&& ids.subrange(4 + n as int, ids.len() - 1) == lang
            &&& forall|i: int| 3 <= i < 3 + n ==> #[trigger] ids[i] == config.audio_token_id
        }),
{
    law_the_hint_names_the_language(
        tokenizer,
        placeholders(config, chunks),
        config.audio_token_id,
        code@,
    );
}

/// A transcription is answered with what its tokens come to, or with why there
/// are none.
pub proof fn law_a_transcription_is_answered(
    tokenizer: Recipe,
    tokens: Vec<u32>,
    error: String,
    res: Result<Seq<char>, Seq<char>>,
)
    ensures
        answers(tokenizer, Ok(tokens), res) <==> transcribed(tokenizer, tokens@, res),
        answers(tokenizer, Err(error), res) <==> res == Err::<Seq<char>, Seq<char>>(
            "Failed to generate tokens: "@ + error@,
        ),
{
}

} // verus!
