use collab_rooms::text::{decimal_text, same_text, tag_message};

#[test]
fn decimal_of_zero_is_one_digit() {
    assert_eq!(decimal_text(0), "0");
}

#[test]
fn decimal_of_single_digits() {
    assert_eq!(decimal_text(1), "1");
    assert_eq!(decimal_text(7), "7");
    assert_eq!(decimal_text(9), "9");
}

#[test]
fn decimal_of_round_numbers_keeps_the_zeros() {
    assert_eq!(decimal_text(10), "10");
    assert_eq!(decimal_text(100), "100");
    assert_eq!(decimal_text(407), "407");
    assert_eq!(decimal_text(1000000), "1000000");
}

#[test]
fn decimal_agrees_with_the_standard_formatting() {
    let samples: Vec<usize> = vec![0, 5, 11, 99, 101, 12345, 4294967295, usize::MAX];
    for n in samples {
        assert_eq!(decimal_text(n), format!("{}", n));
    }
}

#[test]
fn tag_puts_the_room_in_brackets_before_the_body() {
    assert_eq!(tag_message("den", "hello"), "[den] hello");
}

#[test]
fn tag_of_empty_parts() {
    assert_eq!(tag_message("", ""), "[] ");
    assert_eq!(tag_message("den", ""), "[den] ");
    assert_eq!(tag_message("", "x"), "[] x");
}

#[test]
fn tag_keeps_text_outside_ascii() {
    assert_eq!(tag_message("caf\u{e9}", "\u{4f60}\u{597d}"), "[caf\u{e9}] \u{4f60}\u{597d}");
}

#[test]
fn same_text_compares_whole_texts() {
    assert!(same_text("Lock", "Lock"));
    assert!(same_text("", ""));
    assert!(!same_text("Lock", "lock"));
    assert!(!same_text("Lock", "Lock "));
    assert!(!same_text("Lock", "Unlock"));
}
