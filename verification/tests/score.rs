use big_five::score::parse_score;

#[test]
fn score_of_plain_numerals() {
    assert_eq!(parse_score("0"), Some(0));
    assert_eq!(parse_score("7"), Some(7));
    assert_eq!(parse_score("54"), Some(54));
    assert_eq!(parse_score("100"), Some(100));
    assert_eq!(parse_score("255"), Some(255));
}

#[test]
fn score_accepts_leading_zeros() {
    assert_eq!(parse_score("007"), Some(7));
    assert_eq!(parse_score("000"), Some(0));
    assert_eq!(parse_score("0000000000000000000000255"), Some(255));
}

#[test]
fn score_above_255_is_rejected() {
    assert_eq!(parse_score("256"), None);
    assert_eq!(parse_score("300"), None);
    assert_eq!(parse_score("1000"), None);
    assert_eq!(parse_score("0256"), None);
    assert_eq!(parse_score("99999999999999999999999999999999"), None);
}

#[test]
fn score_of_empty_run_is_rejected() {
    assert_eq!(parse_score(""), None);
}

#[test]
fn score_with_other_characters_is_rejected() {
    assert_eq!(parse_score("12a"), None);
    assert_eq!(parse_score("a12"), None);
    assert_eq!(parse_score(" 12"), None);
    assert_eq!(parse_score("12 "), None);
    assert_eq!(parse_score("-1"), None);
    assert_eq!(parse_score("+5"), None);
    assert_eq!(parse_score("1.5"), None);
    assert_eq!(parse_score("1_0"), None);
}

#[test]
fn score_in_other_scripts_is_rejected() {
    // Arabic-Indic digits are digits to the score pattern, not to the score.
    assert_eq!(parse_score("\u{0663}"), None);
    assert_eq!(parse_score("1\u{0663}"), None);
}

#[test]
fn every_score_is_read_back_from_its_numeral() {
    for value in 0..=255u8 {
        assert_eq!(parse_score(&value.to_string()), Some(value));
    }
}

#[test]
fn score_agrees_with_the_standard_parser_on_digit_runs() {
    for value in 0..2000u32 {
        let numeral = value.to_string();
        assert_eq!(parse_score(&numeral), numeral.parse::<u8>().ok());
        let padded = format!("00{}", numeral);
        assert_eq!(parse_score(&padded), padded.parse::<u8>().ok());
    }
}
