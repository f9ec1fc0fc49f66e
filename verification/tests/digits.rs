use hyprhalo::text::{chars_of, decimal_string, push_hex2, push_radix, str_eq};

#[test]
fn decimal_rendering() {
    assert_eq!(decimal_string(0), "0");
    assert_eq!(decimal_string(42), "42");
    assert_eq!(decimal_string(-7), "-7");
    assert_eq!(decimal_string(i64::MAX), i64::MAX.to_string());
    assert_eq!(decimal_string(i64::MIN), i64::MIN.to_string());
}

#[test]
fn radix_rendering() {
    let mut s = String::from("n=");
    push_radix(&mut s, 255, 16);
    assert_eq!(s, "n=ff");
    let mut s = String::new();
    push_radix(&mut s, 5, 2);
    assert_eq!(s, "101");
    let mut s = String::new();
    push_radix(&mut s, u64::MAX, 10);
    assert_eq!(s, u64::MAX.to_string());
}

#[test]
fn two_digit_hex() {
    let mut s = String::new();
    for n in [0u32, 9, 10, 15, 16, 171, 255, 256] {
        push_hex2(&mut s, n);
        s.push(' ');
    }
    assert_eq!(s, "00 09 0a 0f 10 ab ff 100 ");
}

#[test]
fn text_comparison() {
    assert!(str_eq("abc", "abc"));
    assert!(!str_eq("abc", "abd"));
    assert!(!str_eq("abc", "ab"));
    assert!(str_eq("", ""));
    assert_eq!(chars_of("añb"), vec!['a', 'ñ', 'b']);
}
