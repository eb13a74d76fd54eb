use big_five::domain::{assemble, parse_result};
use big_five::grammar::ScorePattern;
use big_five::BigFiveError;

fn message_of_input_error(error: BigFiveError) -> &str {
    match error {
        BigFiveError::InputError(message) => message,
        BigFiveError::SimpleError(message) => panic!("a setup error: {}", message),
    }
}

type Read<'a> = Result<(&'a str, u8), BigFiveError<'a>>;

#[test]
fn domain_from_header_and_lines() {
    let fields: Vec<Read> = vec![Ok(("Trust", 70)), Ok(("Morality", 89))];
    let domain = assemble(Ok(("AGREEABLENESS", 96)), &fields).unwrap();
    assert_eq!(domain.name(), "AGREEABLENESS");
    assert_eq!(domain.overall_score(), 96);
    assert_eq!(domain.facets().len(), 2);
    assert_eq!(domain.facets().get("Trust"), Some(70));
    assert_eq!(domain.facets().get("Morality"), Some(89));
}

#[test]
fn domain_without_lines_has_no_facets() {
    let domain = assemble(Ok(("AGREEABLENESS", 96)), &vec![]).unwrap();
    assert_eq!(domain.name(), "AGREEABLENESS");
    assert_eq!(domain.overall_score(), 96);
    assert_eq!(domain.facets().len(), 0);
}

#[test]
fn domain_keeps_the_last_score_of_a_label() {
    let fields: Vec<Read> = vec![Ok(("Trust", 70)), Ok(("Morality", 89)), Ok(("Trust", 75))];
    let domain = assemble(Ok(("AGREEABLENESS", 96)), &fields).unwrap();
    assert_eq!(domain.facets().len(), 2);
    assert_eq!(domain.facets().get("Trust"), Some(75));
    assert_eq!(domain.facets().get("Morality"), Some(89));
}

#[test]
fn domain_is_rejected_by_its_header() {
    let fields: Vec<Read> = vec![Ok(("Trust", 70))];
    let error = assemble(Err(BigFiveError::InputError("Could not parse header")), &fields).unwrap_err();
    assert_eq!(message_of_input_error(error), "Could not parse header");
}

#[test]
fn domain_is_rejected_by_any_line() {
    for at in 0..3 {
        let mut fields: Vec<Read> = vec![Ok(("Trust", 70)), Ok(("Morality", 89))];
        fields.insert(at, Err(BigFiveError::InputError("Could not parse field score")));
        let error = assemble(Ok(("AGREEABLENESS", 96)), &fields).unwrap_err();
        assert_eq!(message_of_input_error(error), "Could not parse field score");
    }
}

#[test]
fn domain_is_rejected_by_its_header_before_its_lines() {
    let fields: Vec<Read> = vec![Err(BigFiveError::InputError("Could not parse field"))];
    let error = assemble(Err(BigFiveError::InputError("Could not parse header")), &fields).unwrap_err();
    assert_eq!(message_of_input_error(error), "Could not parse header");
}

#[test]
fn domain_is_rejected_by_its_first_bad_line() {
    let fields: Vec<Read> = vec![
        Ok(("Trust", 70)),
        Err(BigFiveError::InputError("Could not parse field")),
        Err(BigFiveError::InputError("Could not parse field score")),
    ];
    let error = assemble(Ok(("AGREEABLENESS", 96)), &fields).unwrap_err();
    assert_eq!(message_of_input_error(error), "Could not parse field");
}

#[test]
fn domain_keeps_the_kind_of_the_error() {
    let fields: Vec<Read> = vec![Err(BigFiveError::SimpleError("Could not compile Regex"))];
    match assemble(Ok(("AGREEABLENESS", 96)), &fields) {
        Err(BigFiveError::SimpleError(message)) => assert_eq!(message, "Could not compile Regex"),
        other => panic!("not a setup error: {:?}", other),
    }
}

#[test]
fn result_from_header_and_block() {
    let pattern = ScorePattern::new().unwrap();
    let result = parse_result(
        &pattern,
        "AGREEABLENESS...96\n",
        "Trust...........70\nMorality........89\nAltruism........80\n",
    )
    .unwrap();
    assert_eq!(result.name(), "AGREEABLENESS");
    assert_eq!(result.overall_score(), 96);
    assert_eq!(result.facets().entries(), &vec![("Trust", 70), ("Morality", 89), ("Altruism", 80)]);
}

#[test]
fn result_passes_over_empty_lines() {
    let pattern = ScorePattern::new().unwrap();
    let result = parse_result(&pattern, "AGREEABLENESS...96\n", "\nTrust...70\n\n\nMorality...89\n\n").unwrap();
    assert_eq!(result.facets().entries(), &vec![("Trust", 70), ("Morality", 89)]);
    let result = parse_result(&pattern, "AGREEABLENESS...96\n", "\n").unwrap();
    assert_eq!(result.facets().len(), 0);
    let result = parse_result(&pattern, "AGREEABLENESS...96\n", "Trust...70\r\n\r\n").unwrap();
    assert_eq!(result.facets().entries(), &vec![("Trust", 70)]);
}

#[test]
fn result_does_not_pass_over_lines_of_spaces() {
    let pattern = ScorePattern::new().unwrap();
    let error = parse_result(&pattern, "AGREEABLENESS...96\n", "Trust...70\n   \n").unwrap_err();
    assert_eq!(message_of_input_error(error), "Could not parse field score");
}

#[test]
fn result_keeps_the_last_score_of_a_label() {
    let pattern = ScorePattern::new().unwrap();
    let result = parse_result(&pattern, "AGREEABLENESS...96\n", "Trust...70\nTrust...75\n").unwrap();
    assert_eq!(result.facets().len(), 1);
    assert_eq!(result.facets().get("Trust"), Some(75));
}

#[test]
fn result_is_rejected_by_bad_header() {
    let pattern = ScorePattern::new().unwrap();
    let error = parse_result(&pattern, "AGREEABLENESS 96\n", "Trust...70\n").unwrap_err();
    assert_eq!(message_of_input_error(error), "Could not parse header");
    let error = parse_result(&pattern, "AGREEABLENESS...256\n", "Trust...70\n").unwrap_err();
    assert_eq!(message_of_input_error(error), "Could not parse field score");
}

#[test]
fn result_is_rejected_by_bad_line() {
    let pattern = ScorePattern::new().unwrap();
    let bodies = [
        "Trust 70\nMorality...89\n",
        "Trust...70\nMorality\n",
        "Trust...70\nMorality...\n",
        "Trust...70\nMorality...high\n",
        "Trust...70\nMorality...256\n",
        "Trust...300\nMorality...89\n",
    ];
    for body in bodies {
        let error = parse_result(&pattern, "AGREEABLENESS...96\n", body).unwrap_err();
        assert_eq!(message_of_input_error(error), "Could not parse field score", "for {:?}", body);
    }
}

#[test]
fn result_with_labels_beyond_ascii() {
    let pattern = ScorePattern::new().unwrap();
    let result = parse_result(
        &pattern,
        "OUVERTURE...12\n",
        "\u{c9}motivit\u{e9}....12\n\u{4e2d}\u{6587}....7\n",
    )
    .unwrap();
    assert_eq!(result.facets().get("\u{c9}motivit\u{e9}"), Some(12));
    assert_eq!(result.facets().get("\u{4e2d}\u{6587}"), Some(7));
}
