use merkle_gpu::text::{decimal_text, join_texts, push_decimal, push_usize};

#[test]
fn decimal_notation() {
    assert_eq!(decimal_text(0), "0");
    assert_eq!(decimal_text(7), "7");
    assert_eq!(decimal_text(10), "10");
    assert_eq!(decimal_text(90210), "90210");
    assert_eq!(decimal_text(u64::MAX), "18446744073709551615");
}

#[test]
fn appending_numbers() {
    let mut out = String::from("a=");
    push_decimal(&mut out, 12);
    out.push_str(", b=");
    push_usize(&mut out, 305);
    assert_eq!(out, "a=12, b=305");
}

#[test]
fn joining() {
    let pieces = vec![String::from("a"), String::from(""), String::from("c")];
    assert_eq!(join_texts(&pieces, ", "), "a, , c");
    assert_eq!(join_texts(&vec![String::from("x")], "--"), "x");
    assert_eq!(join_texts(&Vec::new(), "--"), "");
}
