use knam::number::{decimal_string, parse_usize};
use knam::text::{chars_of, string_of};

fn parse(s: &str) -> Option<usize> {
    let chars: Vec<char> = s.chars().collect();
    parse_usize(&chars, 0, chars.len())
}

#[test]
fn chars_of_lists_the_characters() {
    assert_eq!(chars_of(""), Vec::<char>::new());
    assert_eq!(chars_of("abc"), vec!['a', 'b', 'c']);
    assert_eq!(chars_of("é✓x"), vec!['é', '✓', 'x']);
}

#[test]
fn string_of_takes_a_range() {
    let chars = vec!['h', 'é', 'l', 'l', 'o'];
    assert_eq!(string_of(&chars, 0, 5), "héllo");
    assert_eq!(string_of(&chars, 1, 3), "él");
    assert_eq!(string_of(&chars, 2, 2), "");
    assert_eq!(string_of(&chars, 5, 5), "");
}

#[test]
fn decimal_string_writes_shortest_numerals() {
    assert_eq!(decimal_string(0), "0");
    assert_eq!(decimal_string(7), "7");
    assert_eq!(decimal_string(10), "10");
    assert_eq!(decimal_string(41), "41");
    assert_eq!(decimal_string(1_000_000), "1000000");
    assert_eq!(decimal_string(9_876_543_210), "9876543210");
    assert_eq!(decimal_string(u64::MAX), "18446744073709551615");
}

#[test]
fn parse_usize_reads_numerals() {
    assert_eq!(parse("0"), Some(0));
    assert_eq!(parse("8"), Some(8));
    assert_eq!(parse("16"), Some(16));
    assert_eq!(parse("0012"), Some(12));
    assert_eq!(parse("+5"), Some(5));
    assert_eq!(parse("+0"), Some(0));
    assert_eq!(parse(&usize::MAX.to_string()), Some(usize::MAX));
}

#[test]
fn parse_usize_rejects_everything_else() {
    for s in ["", "+", "-", "-1", "++1", "+-1", "1+", " 1", "1 ", "1_000", "1.0", "0x10", "a",
        "12a", "٣", "１２"]
    {
        assert_eq!(parse(s), None, "input {s:?}");
    }
    let too_big = format!("{}0", usize::MAX);
    assert_eq!(parse(&too_big), None);
    let one_more = (usize::MAX as u128 + 1).to_string();
    assert_eq!(parse(&one_more), None);
}

#[test]
fn parse_usize_agrees_with_the_standard_parser() {
    for s in ["", "0", "+", "+1", "-1", "007", "18446744073709551615", "18446744073709551616",
        "4294967295", "4294967296", "1e3", "12 ", "+ 1", "9999999999999999999"]
    {
        assert_eq!(parse(s), s.parse::<usize>().ok(), "input {s:?}");
    }
}

#[test]
fn parse_usize_reads_a_range_only() {
    let chars: Vec<char> = "rand:12}".chars().collect();
    assert_eq!(parse_usize(&chars, 5, 7), Some(12));
    assert_eq!(parse_usize(&chars, 5, 6), Some(1));
    assert_eq!(parse_usize(&chars, 5, 8), None);
    assert_eq!(parse_usize(&chars, 5, 5), None);
    assert_eq!(parse_usize(&chars, 0, 7), None);
}

#[test]
fn numerals_read_back() {
    for n in [0u64, 1, 9, 10, 99, 100, 12345, 4_294_967_295] {
        assert_eq!(parse(&decimal_string(n)), Some(n as usize));
    }
}
