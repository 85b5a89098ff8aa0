use voxtral::transcript::post_process_transcription;

#[test]
fn post_process_trims_and_collapses_whitespace() {
    assert_eq!(
        post_process_transcription("  hello   world  ").unwrap(),
        "hello world"
    );
}

#[test]
fn post_process_strips_leading_quote_apostrophe() {
    assert_eq!(
        post_process_transcription("\"'hello world").unwrap(),
        "hello world"
    );
    assert_eq!(
        post_process_transcription("'\"hello world").unwrap(),
        "hello world"
    );
}

#[test]
fn post_process_strips_leading_apostrophe() {
    assert_eq!(post_process_transcription("'hello").unwrap(), "hello");
}

#[test]
fn post_process_strips_trailing_quote_and_apostrophe() {
    assert_eq!(post_process_transcription("hello\"").unwrap(), "hello");
    assert_eq!(post_process_transcription("hello'").unwrap(), "hello");
}

#[test]
fn post_process_rejects_empty_and_bare_dot() {
    assert!(post_process_transcription("").is_err());
    assert!(post_process_transcription("    ").is_err());
    assert!(post_process_transcription(".").is_err());
}

#[test]
fn a_refused_transcript_says_why() {
    assert_eq!(
        post_process_transcription(" . ").unwrap_err(),
        "mel feature generation produced invalid output"
    );
}

#[test]
fn quotes_between_words_become_a_space() {
    assert_eq!(
        post_process_transcription("hello \"' world '\" again").unwrap(),
        "hello world again"
    );
}

#[test]
fn every_kind_of_white_space_becomes_one_space() {
    assert_eq!(
        post_process_transcription("\u{3000}a\t\u{a0}\u{2028}b\r\nc\u{205f}").unwrap(),
        "a b c"
    );
    assert_eq!(post_process_transcription("a\u{200b}b").unwrap(), "a\u{200b}b");
}

#[test]
fn outer_white_space_is_ignored() {
    assert_eq!(
        post_process_transcription("\n\n\"'hi\"'\t").unwrap(),
        post_process_transcription("\"'hi\"'").unwrap()
    );
}

#[test]
fn apostrophes_go_before_quotes_at_the_end() {
    assert_eq!(post_process_transcription("hi\"'").unwrap(), "hi");
    assert_eq!(post_process_transcription("hi'\"").unwrap(), "hi'");
    assert_eq!(post_process_transcription("x'''").unwrap(), "x");
}

#[test]
fn only_the_words_make_the_transcript() {
    let words = ["\"'", "\"'hello", "it's", "'\"", "so\""];
    let one = post_process_transcription(&words.join(" ")).unwrap();
    let other = format!("\n{}\u{3000}", words.join("\t \u{a0}"));
    assert_eq!(post_process_transcription(&other).unwrap(), one);
    assert_eq!(one, "\"'hello it's so");
}
