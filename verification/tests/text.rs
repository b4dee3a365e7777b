use dedupe_utils::text::{
    chars_of, push_all, push_decimal, push_range, push_signed_decimal, push_str, string_of,
};

fn decimal(n: u128) -> String {
    let mut buffer = Vec::new();
    push_decimal(&mut buffer, n);
    string_of(&buffer)
}

fn signed(n: i32) -> String {
    let mut buffer = Vec::new();
    push_signed_decimal(&mut buffer, n);
    string_of(&buffer)
}

#[test]
fn characters_go_there_and_back() {
    for s in ["", "a", "hello", "gr\u{fc}\u{df}e", "\u{1f600} ok", "a\tb\nc"] {
        let chars = chars_of(s);
        assert_eq!(chars, s.chars().collect::<Vec<char>>());
        assert_eq!(string_of(&chars), s);
    }
}

#[test]
fn decimal_numerals_have_no_leading_zero() {
    assert_eq!(decimal(0), "0");
    assert_eq!(decimal(7), "7");
    assert_eq!(decimal(10), "10");
    assert_eq!(decimal(12), "12");
    assert_eq!(decimal(2008), "2008");
    assert_eq!(decimal(1_000_000), "1000000");
    assert_eq!(decimal(u128::MAX), "340282366920938463463374607431768211455");
    assert_eq!(
        decimal(275633487630418693378022278012862368828),
        "275633487630418693378022278012862368828"
    );
}

#[test]
fn decimal_numerals_agree_with_the_standard_library() {
    let mut n: u128 = 1;
    for _ in 0..128 {
        assert_eq!(decimal(n), n.to_string());
        assert_eq!(decimal(n - 1), (n - 1).to_string());
        n = n.wrapping_mul(2);
        if n == 0 {
            break;
        }
    }
}

#[test]
fn negative_numbers_carry_a_minus_sign() {
    assert_eq!(signed(0), "0");
    assert_eq!(signed(2008), "2008");
    assert_eq!(signed(-1), "-1");
    assert_eq!(signed(-262144), "-262144");
    assert_eq!(signed(i32::MAX), "2147483647");
    assert_eq!(signed(i32::MIN), "-2147483648");
}

#[test]
fn pushing_appends() {
    let mut buffer = vec!['a'];
    push_str(&mut buffer, "bc");
    push_all(&mut buffer, &['d', 'e']);
    push_range(&mut buffer, &['x', 'f', 'g', 'y'], 1, 3);
    push_decimal(&mut buffer, 42);
    assert_eq!(string_of(&buffer), "abcdefg42");
}
