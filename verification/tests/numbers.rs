use forty_two_sniper::text::{
    contains_text, decimal_text, joined, lines_of, lowercased, parts_of, trimmed,
    without_trailing_slashes,
};
use forty_two_sniper::u256::U256;

#[test]
fn wraps_sums_and_products() {
    let one = U256::from(1u64);
    let two = U256::from(2u64);
    assert_eq!(U256::max_value().wrapping_sum(two), one);
    assert_eq!(U256::max_value().wrapping_product(two), U256::max_value().minus(one));
    assert_eq!(U256::from(6u64).wrapping_product(U256::from(7u64)), U256::from(42u64));
    assert_eq!(one.wrapping_sum(two), U256::from(3u64));
}

#[test]
fn cuts_products_and_differences_off() {
    let two = U256::from(2u64);
    assert_eq!(U256::max_value().saturating_product(two), U256::max_value());
    assert_eq!(U256::from(6u64).saturating_product(two), U256::from(12u64));
    assert_eq!(two.saturating_minus(U256::from(3u64)), U256::zero());
    assert_eq!(U256::from(3u64).saturating_minus(two), U256::from(1u64));
}

#[test]
fn divides_with_remainder() {
    let value = U256::from(17u64);
    assert_eq!(value.quotient(U256::from(5u64)), U256::from(3u64));
    assert_eq!(value.remainder(U256::from(5u64)), U256::from(2u64));
}

#[test]
fn orders_numbers_by_their_highest_word() {
    let low = U256 { w0: u64::MAX, w1: 0, w2: 0, w3: 0 };
    let high = U256 { w0: 0, w1: 1, w2: 0, w3: 0 };
    assert!(low.at_most(high));
    assert!(!high.at_most(low));
    assert_eq!(low.larger(high), high);
    assert_eq!(low.smaller(high), low);
    assert_eq!(high.capped(), u64::MAX);
    assert_eq!(U256::from(9u64).capped(), 9);
    assert_eq!(high.to_decimal(), "18446744073709551616");
}

#[test]
fn handles_texts() {
    assert_eq!(trimmed(" \u{3000}a b\t\n"), "a b");
    assert_eq!(without_trailing_slashes("a//b//"), "a//b");
    assert_eq!(parts_of("a..b", '.'), vec!["a", "", "b"]);
    assert_eq!(joined(&vec!["a".to_owned(), "".to_owned(), "b".to_owned()], '/'), "a//b");
    assert_eq!(lines_of("a\r\nb\n\nc\r"), vec!["a", "b", "", "c\r"]);
    assert_eq!(lines_of("a\nb\n"), vec!["a", "b"]);
    assert_eq!(lines_of(""), Vec::<String>::new());
    assert!(contains_text("rate limited", "e lim"));
    assert!(!contains_text("rate", "rates"));
    assert!(contains_text("rate", ""));
    assert_eq!(lowercased("Rate LIMIT \u{c9}"), "rate limit \u{c9}");
    assert_eq!(decimal_text(0), "0");
    assert_eq!(decimal_text(u64::MAX), "18446744073709551615");
}

#[test]
fn appended_text_adds_its_lines() {
    let front = "a\nb\n";
    let back = "c\n\nd";
    let mut apart = lines_of(front);
    apart.extend(lines_of(back));
    assert_eq!(lines_of(&format!("{front}{back}")), apart);
}
