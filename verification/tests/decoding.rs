use voxtral::decoding::{capacity, read_failed, Decoder, Next};

/// Runs a generation on the model's picks, and what it was fed.
fn run(mut decoder: Decoder, picks: &[i64]) -> (Vec<u32>, Vec<(u32, i64)>) {
    let mut fed = Vec::new();
    let mut picks = picks.iter();
    while !decoder.finished() {
        match decoder.step(*picks.next().expect("a pick")) {
            Ok(Next::Feed { token, pos }) => fed.push((token, pos)),
            Ok(Next::Done) => assert!(decoder.finished()),
            Err(e) => panic!("{e}"),
        }
    }
    (decoder.into_tokens(), fed)
}

#[test]
fn a_generation_ends_with_its_end_of_sequence_token() {
    for eos in [2, 128_001, 128_009, 128_256] {
        let d = Decoder::start(10, 1_000, None).unwrap();
        let (tokens, fed) = run(d, &[5, 6, eos, 7]);
        assert_eq!(tokens, [5, 6, eos as u32]);
        assert_eq!(fed, [(5, 10), (6, 11)]);
    }
}

#[test]
fn five_zeros_end_a_generation() {
    let d = Decoder::start(1, 1_000, None).unwrap();
    let (tokens, _) = run(d, &[0, 0, 0, 0, 9, 0, 0, 0, 0, 0, 0]);
    assert_eq!(tokens, [0, 0, 0, 0, 9, 0, 0, 0, 0, 0]);
}

#[test]
fn a_generation_ends_after_its_last_step() {
    let d = Decoder::start(4, 3, None).unwrap();
    let (tokens, fed) = run(d, &[7, 8, 9, 10]);
    assert_eq!(tokens, [7, 8, 9]);
    assert_eq!(fed, [(7, 4), (8, 5)]);
    let d = Decoder::start(4, 0, None).unwrap();
    assert_eq!(run(d, &[]), (vec![], vec![]));
}

#[test]
fn forced_tokens_are_fed_instead_of_the_models() {
    let d = Decoder::start(4, 1_000, Some(vec![0, 0, 0])).unwrap();
    assert_eq!(d.capacity(), 1_024);
    let (tokens, fed) = run(d, &[2, 2, 2, 2]);
    assert_eq!(tokens, [2, 2, 2]);
    assert_eq!(fed, [(0, 4), (0, 5)]);
    let d = Decoder::start(4, 1_000, Some(vec![])).unwrap();
    assert!(d.finished());
}

#[test]
fn more_forced_tokens_than_the_caches_hold_are_refused() {
    assert_eq!(
        Decoder::start(4, 2, Some(vec![1, 2, 3])).unwrap_err(),
        "3 forced tokens are more than the 2 the caches are sized for"
    );
}

#[test]
fn an_argmax_that_is_no_token_is_an_error() {
    for argmax in [-1, 1 << 32] {
        let mut d = Decoder::start(4, 2, None).unwrap();
        assert_eq!(
            d.step(argmax).unwrap_err(),
            "the argmax is not a token id"
        );
        assert_eq!(d.step_number(), 0);
    }
}

#[test]
fn a_position_past_i64_is_an_error() {
    let mut d = Decoder::start(1 << 63, 2, None).unwrap();
    assert_eq!(d.step(5).unwrap_err(), "a position past i64");
}

#[test]
fn caches_come_in_granules() {
    assert_eq!(capacity(1, 0), 512);
    assert_eq!(capacity(24, 1_000), 1_024);
    assert_eq!(capacity(25, 1_000), 1_536);
    assert_eq!(read_failed("lost"), "reading the next token failed: lost");
}
