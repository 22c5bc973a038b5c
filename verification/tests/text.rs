use solana_build_tool::text::{copy_texts, decimal_text, digit_text, digits_text, join_with};

fn texts(items: &[&str]) -> Vec<String> {
    items.iter().map(|s| s.to_string()).collect()
}

#[test]
fn join_places_separator_between_parts() {
    assert_eq!(join_with(&texts(&["prod", "staking"]), ","), "prod,staking");
    assert_eq!(join_with(&texts(&["a", "b", "c"]), ", "), "a, b, c");
}

#[test]
fn join_of_one_part_is_that_part() {
    assert_eq!(join_with(&texts(&["prod"]), ","), "prod");
}

#[test]
fn join_of_nothing_is_empty() {
    assert_eq!(join_with(&Vec::new(), ","), "");
}

#[test]
fn join_keeps_empty_parts() {
    assert_eq!(join_with(&texts(&["", "x", ""]), "-"), "-x-");
}

#[test]
fn copy_texts_gives_equal_texts() {
    let original = texts(&["one", "two", ""]);
    assert_eq!(copy_texts(&original), original);
}

#[test]
fn digit_text_covers_all_digits() {
    let all: Vec<&str> = (0..10u64).map(digit_text).collect();
    assert_eq!(all, vec!["0", "1", "2", "3", "4", "5", "6", "7", "8", "9"]);
}

#[test]
fn digits_text_writes_naturals() {
    assert_eq!(digits_text(0), "0");
    assert_eq!(digits_text(7), "7");
    assert_eq!(digits_text(10), "10");
    assert_eq!(digits_text(101), "101");
    assert_eq!(digits_text(u64::MAX), "18446744073709551615");
}

#[test]
fn decimal_text_writes_integers() {
    assert_eq!(decimal_text(0), "0");
    assert_eq!(decimal_text(1), "1");
    assert_eq!(decimal_text(255), "255");
    assert_eq!(decimal_text(-1), "-1");
    assert_eq!(decimal_text(i32::MAX), "2147483647");
    assert_eq!(decimal_text(i32::MIN), "-2147483648");
}

#[test]
fn decimal_text_agrees_with_std() {
    for n in [-100_000, -12, -9, 9, 12, 1000, 65_536] {
        assert_eq!(decimal_text(n), format!("{}", n));
    }
}
