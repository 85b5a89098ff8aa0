use voxtral::text::{decimal_of, has_text, joined_texts};

#[test]
fn numbers_are_written_in_decimal() {
    for n in [0, 9, 10, 101, 1_000, u64::MAX] {
        assert_eq!(decimal_of(n), n.to_string());
    }
}

#[test]
fn texts_are_joined() {
    let list = vec!["a".to_string(), String::new(), "b".to_string()];
    assert_eq!(joined_texts(&list, ", "), "a, , b");
    assert_eq!(joined_texts(&vec![], ", "), "");
    assert!(has_text(&list, "") && has_text(&list, "b") && !has_text(&list, "c"));
}
