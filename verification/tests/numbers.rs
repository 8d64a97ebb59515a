use notedock::num::{i64_chars, parse_i64, u64_chars};

fn text(v: Vec<char>) -> String {
    v.into_iter().collect()
}

#[test]
fn integers_are_written_in_decimal() {
    assert_eq!(text(u64_chars(0)), "0");
    assert_eq!(text(u64_chars(1234)), "1234");
    assert_eq!(text(i64_chars(-42)), "-42");
    assert_eq!(text(i64_chars(i64::MIN)), i64::MIN.to_string());
    assert_eq!(text(i64_chars(i64::MAX)), i64::MAX.to_string());
}

#[test]
fn parsing_matches_std() {
    for case in ["0", "+7", "-0", "-9223372036854775808", "9223372036854775807", "9223372036854775808",
        "", "-", "+", "1 ", " 1", "12a", "99999999999999999999999999"] {
        assert_eq!(parse_i64(case), case.parse::<i64>().ok(), "case {case:?}");
    }
}
