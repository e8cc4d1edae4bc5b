use jarvis_core::text::{chars_of, contains_str, push_decimal, split_whitespace, str_eq, trim_str};

#[test]
fn trimming_unicode_whitespace() {
    assert_eq!(trim_str("\u{a0} a b \u{2003}\n"), "a b");
    assert_eq!(trim_str(""), "");
    assert_eq!(trim_str("x"), "x");
}

#[test]
fn splitting_on_whitespace() {
    let v = chars_of("  two\tplus \u{3000}three ");
    let words: Vec<String> = split_whitespace(&v).into_iter().map(|w| w.into_iter().collect()).collect();
    assert_eq!(words, vec!["two", "plus", "three"]);
    assert!(split_whitespace(&chars_of("   ")).is_empty());
}

#[test]
fn searching_and_comparing() {
    let v = chars_of("пять плюс два");
    assert!(contains_str(&v, "плюс"));
    assert!(contains_str(&v, ""));
    assert!(!contains_str(&v, "минус"));
    assert!(str_eq("ёж", "ёж"));
    assert!(!str_eq("ёж", "еж"));
}

#[test]
fn decimal_numbers() {
    let mut s = String::from("n");
    push_decimal(&mut s, 0);
    push_decimal(&mut s, 1907);
    assert_eq!(s, "n01907");
}
