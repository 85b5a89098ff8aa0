use voxtral::taps::{tap_name, Taps};

#[test]
fn taps_record_only_when_on() {
    let mut off: Taps<f32> = Taps::off();
    assert!(!off.is_on());
    off.record("mel", vec![1.0]);
    off.record_with(|| unreachable!("a name nothing is recorded under"), vec![1.0]);
    assert!(off.into_records().is_empty());

    let mut on: Taps<f32> = Taps::on();
    assert!(on.is_on());
    on.record("mel", vec![1.0]);
    on.record_with(|| tap_name("dec.layer", 12), vec![]);
    assert_eq!(
        on.into_records(),
        [("mel".to_string(), vec![1.0]), ("dec.layer.12".to_string(), vec![])]
    );
}
