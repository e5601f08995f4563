use fakehub::range::{parse_range, RangeParse};

#[test]
fn parse_range_happy_paths() {
    assert!(matches!(parse_range("bytes=0-0", 10), RangeParse::Valid(0, 0)));
    assert!(matches!(parse_range("bytes=5-9", 10), RangeParse::Valid(5, 9)));
    assert!(matches!(parse_range("bytes=5-", 10), RangeParse::Valid(5, 9)));
    assert!(matches!(parse_range("bytes=-3", 10), RangeParse::Valid(7, 9)));
}

#[test]
fn parse_range_bad_cases() {
    assert!(matches!(parse_range("bits=0-1", 10), RangeParse::Invalid));
    assert!(matches!(parse_range("bytes=10-10", 10), RangeParse::Unsatisfiable));
    assert!(matches!(parse_range("bytes=0-1000", 100), RangeParse::Valid(0, 99)));
}

#[test]
fn range_suffix_longer_than_file_starts_at_zero() {
    assert_eq!(parse_range("bytes=-50", 10), RangeParse::Valid(0, 9));
}

#[test]
fn range_zero_suffix_is_invalid() {
    assert_eq!(parse_range("bytes=-0", 10), RangeParse::Invalid);
}

#[test]
fn range_on_empty_file_is_unsatisfiable() {
    assert_eq!(parse_range("bytes=-3", 0), RangeParse::Unsatisfiable);
    assert_eq!(parse_range("bytes=0-", 0), RangeParse::Unsatisfiable);
}

#[test]
fn range_end_before_start_is_unsatisfiable() {
    assert_eq!(parse_range("bytes=5-2", 10), RangeParse::Unsatisfiable);
}

#[test]
fn range_only_first_of_several_counts() {
    assert_eq!(parse_range("bytes=2-3, 5-6", 10), RangeParse::Valid(2, 3));
}

#[test]
fn range_unit_is_case_insensitive_and_trimmed() {
    assert_eq!(parse_range("  BYTES=1-2  ", 10), RangeParse::Valid(1, 2));
    assert_eq!(parse_range("bytes= 1-2", 10), RangeParse::Valid(1, 2));
}

#[test]
fn range_bad_syntax_is_invalid() {
    assert_eq!(parse_range("bytes=a-b", 10), RangeParse::Invalid);
    assert_eq!(parse_range("bytes=12", 10), RangeParse::Invalid);
    assert_eq!(parse_range("bytes", 10), RangeParse::Invalid);
    assert_eq!(parse_range("bytes=1-2x", 10), RangeParse::Invalid);
    assert_eq!(parse_range("bytes=99999999999999999999-", 10), RangeParse::Invalid);
}

#[test]
fn range_plus_sign_accepted_as_u64_parse_does() {
    assert_eq!(parse_range("bytes=+1-+2", 10), RangeParse::Valid(1, 2));
}
