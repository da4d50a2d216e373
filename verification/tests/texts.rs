use finance_ledger::text::{
    chars_of, contains_chars, contains_text, push_int, push_nat, same_chars, string_of,
};

#[test]
fn chars_and_back() {
    let v = chars_of("h\u{e9}llo \u{20B1}");
    assert_eq!(v, vec!['h', '\u{e9}', 'l', 'l', 'o', ' ', '\u{20B1}']);
    assert_eq!(string_of(&v), "h\u{e9}llo \u{20B1}");
    assert_eq!(chars_of(""), Vec::<char>::new());
}

#[test]
fn substring_search() {
    assert!(contains_text("Debt:In", "Debt"));
    assert!(contains_text("xDebt", "Debt"));
    assert!(contains_text("Debt", "Debt"));
    assert!(contains_text("Debt", ""));
    assert!(contains_text("", ""));
    assert!(!contains_text("", "a"));
    assert!(!contains_text("Deb", "Debt"));
    assert!(!contains_text("debt", "Debt"));
    assert!(!contains_text("De bt", "Debt"));
    assert!(contains_text("aab", "ab"));
    assert!(contains_chars(&vec!['a', 'b', 'c'], &vec!['c']));
    assert!(!contains_chars(&vec!['a', 'b', 'c'], &vec!['c', 'a']));
}

#[test]
fn same_chars_compares_whole_texts() {
    assert!(same_chars(&chars_of("date"), &chars_of("date")));
    assert!(!same_chars(&chars_of("date"), &chars_of("dat")));
    assert!(!same_chars(&chars_of("date"), &chars_of("dote")));
    assert!(same_chars(&chars_of(""), &chars_of("")));
}

#[test]
fn decimal_numerals() {
    let mut out = vec!['x'];
    push_nat(&mut out, 0);
    push_nat(&mut out, 10);
    push_nat(&mut out, 907);
    assert_eq!(string_of(&out), "x010907");
    let mut out = Vec::new();
    push_nat(&mut out, u64::MAX);
    assert_eq!(string_of(&out), "18446744073709551615");
    let mut out = Vec::new();
    push_int(&mut out, -42);
    push_int(&mut out, 0);
    push_int(&mut out, 7);
    assert_eq!(string_of(&out), "-4207");
    let mut out = Vec::new();
    push_int(&mut out, i64::MIN);
    assert_eq!(string_of(&out), "-9223372036854775808");
}
