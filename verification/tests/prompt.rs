use tekken::config::{TokenInfo, TokenizerVersion};
use tekken::Tekkenizer;
use voxtral::config::{EncoderConfig, TextConfig, VoxtralConfig};
use voxtral::engine::{checked_transcribe, rate_warning, request_prompt, transcribe};
use voxtral::prompt::{
    audio_run, hint_fits, language_code, prompt, prompt_with, transcript_of,
};
use voxtral::reference::{checked_reference_prompt, reference_prompt};
use voxtral::tokenizer::{text, Special, Token, TotalTokenizer, MAX_TEXT, PATTERN};

const ALPHABET: &[u8] = b"ABCDEFGHIJKLMNOPQRSTUVWXYZabcdefghijklmnopqrstuvwxyz0123456789+/";

fn base64(bytes: &[u8]) -> String {
    let mut out = String::new();
    for group in bytes.chunks(3) {
        let b = [group[0], *group.get(1).unwrap_or(&0), *group.get(2).unwrap_or(&0)];
        let word = (b[0] as usize) << 16 | (b[1] as usize) << 8 | b[2] as usize;
        for k in 0..4 {
            if k <= group.len() {
                out.push(ALPHABET[word >> (18 - 6 * k) & 63] as char);
            } else {
                out.push('=');
            }
        }
    }
    out
}

/// A vocabulary that has `lang` and `en` where the published one has them.
fn vocab() -> Vec<Token> {
    (0..8_910usize)
        .map(|rank| {
            let bytes: Vec<u8> = match rank {
                0..=255 => vec![rank as u8],
                256 => b"la".to_vec(),
                257 => b"ng".to_vec(),
                262 => b"en".to_vec(),
                8_909 => b"lang".to_vec(),
                _ => vec![0xff, (rank >> 8) as u8, rank as u8, 0xff],
            };
            Token { rank, bytes: base64(&bytes) }
        })
        .collect()
}

/// A tokenizer of that vocabulary behind a thousand special tokens, which is
/// known to be total.
fn total() -> TotalTokenizer {
    match TotalTokenizer::new(&vocab(), &vec![], PATTERN, 9_910, 1_000, "v7", None) {
        Ok(Some(tokenizer)) => tokenizer,
        Ok(None) => panic!("not known to be total"),
        Err(e) => panic!("{e}"),
    }
}

/// A tokenizer that is not known to be total.
fn other(vocab: Vec<Token>, pattern: &str, vocab_size: usize) -> Tekkenizer {
    let vocab = vocab
        .into_iter()
        .map(|t| TokenInfo { rank: t.rank, token_bytes: t.bytes, token_str: None })
        .collect();
    Tekkenizer::new(vocab, &vec![], pattern, vocab_size, 1_000, TokenizerVersion::V7, None)
        .expect("a tokenizer")
}

/// A tokenizer of that vocabulary with a pattern of its own.
fn tokenizer() -> Tekkenizer {
    other(vocab(), r"[^\s]+|\s+", 9_910)
}

#[test]
fn total_tokenizers_are_known_by_what_they_are_made_of() {
    let all = vocab();
    let new = |vocab: &Vec<Token>, pattern: &str, size: usize, special: usize, version: &str| {
        TotalTokenizer::new(vocab, &vec![], pattern, size, special, version, None)
            .map(|tokenizer| tokenizer.is_some())
    };
    assert_eq!(new(&all, PATTERN, 9_910, 1_000, "v11"), Ok(true));
    assert_eq!(new(&all, PATTERN, 1_256, 1_000, "v13"), Ok(true));
    assert_eq!(new(&all, PATTERN, 1_255, 1_000, "v13"), Ok(false));
    assert_eq!(new(&all, PATTERN, 999, 1_000, "v3"), Ok(false));
    assert_eq!(new(&all, r"[^\s]*", 9_910, 1_000, "v11"), Ok(false));
    let lacking: Vec<Token> = vocab().into_iter().skip(1).collect();
    assert_eq!(new(&lacking, PATTERN, 9_909, 1_000, "v7"), Ok(false));
    assert_eq!(
        new(&all, PATTERN, 9_910, 1_000, "v5").unwrap_err(),
        "Invalid configuration: Unknown version: v5"
    );
    let too_large = new(&all, PATTERN, 9_911, 1_000, "v7").unwrap_err();
    assert!(too_large.starts_with("Invalid configuration: vocab_size (9911)"), "{too_large}");
    let twice = || Special { rank: 0, text: "<s>".to_string(), is_control: true };
    let twice = vec![twice(), twice()];
    match TotalTokenizer::new(&all, &twice, PATTERN, 9_910, 1_000, "v7", None) {
        Err(e) => assert_eq!(e, "Invalid configuration: Duplicate special token: <s>"),
        Ok(_) => panic!("a special token twice"),
    }
}

#[test]
fn any_tokenizer_with_tokens_for_the_hint_will_do() {
    // A pattern that finds nothing in the hint, and no vocabulary at all.
    assert_eq!(prompt(&other(vec![], "x", 1_000), 1, 24, "en").unwrap(), [1, 3, 25, 24, 4, 34]);
    // The bytes the hint needs, and no others.
    let few: Vec<Token> = vocab().into_iter().take(123).collect();
    let few = other(few, PATTERN, 1_123);
    let expected: Vec<u32> = "lang:xz".bytes().map(|b| 1_000 + u32::from(b)).collect();
    assert_eq!(prompt(&few, 0, 24, "xz").unwrap()[4..11], expected);
    assert_eq!(prompt(total().inner(), 1, 24, "en"), prompt(&tokenizer(), 1, 24, "en"));
}

/// The vocabulary is made up, so the ids hold by construction: this holds the
/// way to the tokenizer and back, not the published vocabulary.
#[test]
fn lang_prompt_encoding_is_stable() {
    let ids = prompt(&tokenizer(), 0, 24, "en").unwrap();
    assert_eq!(
        &ids[4..7],
        &[9909, 1058, 1262],
        "lang:en tokenization changed — the Voxtral prompt would break",
    );
}

#[test]
fn prompt_wraps_the_audio_placeholders() {
    let ids = prompt(&tokenizer(), 750, 24, "en").unwrap();
    assert_eq!(&ids[..3], &[1, 3, 25]);
    assert!(ids[3..753].iter().all(|&id| id == 24));
    assert_eq!(&ids[753..], &[4, 9909, 1058, 1262, 34]);
}

#[test]
fn a_hint_of_any_text_is_tokenized() {
    let ids = prompt(&tokenizer(), 1, 24, "é").unwrap();
    assert_eq!(ids, [1, 3, 25, 24, 4, 9909, 1058, 1000 + 0xc3, 1000 + 0xa9, 34]);
    let ids = prompt(&tokenizer(), 1, 24, "").unwrap();
    assert_eq!(ids, [1, 3, 25, 24, 4, 9909, 1058, 34]);
}

#[test]
fn a_prompt_is_laid_out_around_its_hint() {
    assert_eq!(prompt_with(2, 7, &[8, 9]), [1, 3, 25, 7, 7, 4, 8, 9, 34]);
    assert_eq!(prompt_with(0, 7, &[]), [1, 3, 25, 4, 34]);
}

#[test]
fn a_request_has_the_placeholders_of_its_chunks() {
    let cfg = VoxtralConfig::of_sections(EncoderConfig::default(), TextConfig::default());
    let ids = request_prompt(&tokenizer(), &cfg, 2, "en").unwrap();
    assert_eq!(ids, prompt(&tokenizer(), 750, 24, "en").unwrap());
    assert_eq!(audio_run(&ids, 24, 750), Ok((3, 753)));
}

#[test]
fn the_reference_prompt_takes_a_token_id() {
    let ids = reference_prompt(&tokenizer(), 2, 24, "en").unwrap();
    assert_eq!(ids, prompt(&tokenizer(), 750, 24, "en").unwrap());
    assert_eq!(
        reference_prompt(&tokenizer(), 2, 1 << 32, "en").unwrap_err(),
        "out of range integral type conversion attempted"
    );
    assert_eq!(checked_reference_prompt(&total(), 2, 24, "en"), Some(Ok(ids)));
    assert!(matches!(checked_reference_prompt(&total(), 2, 1 << 32, "en"), Some(Err(_))));
}

#[test]
fn no_language_is_english() {
    assert_eq!(language_code(None), "en");
    assert_eq!(language_code(Some("auto")), "en");
    assert_eq!(language_code(Some("fr")), "fr");
    assert_eq!(language_code(Some("Auto")), "Auto");
}

#[test]
fn the_audio_takes_the_place_of_its_run() {
    assert_eq!(audio_run(&[1, 9, 9, 9, 2], 9, 3), Ok((1, 4)));
    assert_eq!(audio_run(&[9], 9, 1), Ok((0, 1)));
    let refused = "the prompt's audio placeholders do not form one run of the 2 the audio fills";
    assert_eq!(audio_run(&[1, 9, 9, 9, 2], 9, 2), Err(refused.to_string()));
    assert_eq!(audio_run(&[9, 1, 9], 9, 2), Err(refused.to_string()));
    assert_eq!(audio_run(&[9, 9, 1, 9], 9, 2), Err(refused.to_string()));
    assert_eq!(
        audio_run(&[1, 2], 9, 0),
        Err("the prompt has no audio placeholder".to_string())
    );
}

#[test]
fn hints_up_to_the_bound_have_tokens() {
    let t = total();
    let long = " ".repeat(MAX_TEXT - 5);
    assert!(hint_fits(&long) && prompt(t.inner(), 1, 24, &long).is_ok());
    let upper = "\u{300}".to_string() + &"X".repeat(MAX_TEXT - 6);
    assert!(hint_fits(&upper) && prompt(t.inner(), 1, 24, &upper).is_ok());
    let longer = format!("{long} ");
    assert!(!hint_fits(&longer));
    assert!(prompt(t.inner(), 1, 24, &longer).is_ok());
    assert_eq!(checked_reference_prompt(&t, 1, 24, &longer), None);
}

#[test]
fn no_language_auto_and_english_transcribe_alike() {
    let cfg = VoxtralConfig::of_sections(EncoderConfig::default(), TextConfig::default());
    let t = tokenizer();
    // A model that says back the language it was asked for.
    let model = |ids: Vec<u32>| Ok(ids[754..ids.len() - 1].to_vec());
    let asked = |rate, language| transcribe(&t, &cfg, 2, rate, language, model).unwrap();
    assert_eq!(asked(16_000, None), "lang:en");
    assert_eq!(asked(8_000, Some("auto")), "lang:en");
    assert_eq!(asked(44_100, Some("en")), "lang:en");
    assert_eq!(asked(16_000, Some("fr")), "lang:fr");
    assert_eq!(
        transcribe(&t, &cfg, 2, 16_000, None, |_| Err("no".to_string())).unwrap_err(),
        "Failed to generate tokens: no"
    );
    let total = total();
    assert_eq!(
        checked_transcribe(&total, &cfg, 2, 16_000, None, model),
        Some(Ok("lang:en".to_string()))
    );
    let long = " ".repeat(MAX_TEXT);
    assert_eq!(checked_transcribe(&total, &cfg, 2, 16_000, Some(&long), model), None);
    assert_eq!(rate_warning(16_000), None);
    assert_eq!(
        rate_warning(8_000).unwrap(),
        "Voxtral expects 16000Hz; got 8000Hz (daemon should resample)"
    );
}

#[test]
fn tokens_become_a_transcript() {
    let t = tokenizer();
    let spoken: Vec<u32> = "  'lang   en\" ".bytes().map(|b| 1_000 + u32::from(b)).collect();
    assert_eq!(transcript_of(&t, &spoken).unwrap(), "lang en");
    assert_eq!(transcript_of(&t, &[9909, 1058, 1262, 2]).unwrap(), "lang:en");
    assert_eq!(
        transcript_of(&t, &[1, 2]).unwrap_err(),
        "mel feature generation produced invalid output"
    );
}

#[test]
fn tokens_outside_the_vocabulary_are_an_error() {
    let err = transcript_of(&tokenizer(), &[1_200_000]).unwrap_err();
    assert!(err.starts_with("Failed to decode tokens: Tokenizers error: "), "{err}");
    let err = text(&tokenizer(), &[1_200_000], "decode: ").unwrap_err();
    assert!(err.starts_with("decode: Tokenizers error: "), "{err}");
    assert_eq!(text(&tokenizer(), &[1, 9909, 2], "decode: ").unwrap(), "lang");
}
