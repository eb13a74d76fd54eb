use std::collections::HashSet;

use big_five::{new, BigFiveError};

const TEST_INPUT_1: &str = "EXTRAVERSION.........54
Friendliness.........94
Gregariousness.......72
Assertiveness........44
Activity Level.......18
Excitement-Seeking...17
Cheerfulness.........57
";

const TEST_INPUT_2: &str = "AGREEABLENESS...96
Trust...........70
Morality........89
Altruism........80
Cooperation.....93
Modesty.........95
Sympathy........73
";

#[test]
fn test_new() {
    let results = new("Sean", TEST_INPUT_1).unwrap();
    assert_eq!(results.results().len(), 1);
    let result = results.results().get(0).unwrap();
    assert_eq!(result.name(), "EXTRAVERSION");
    assert_eq!(result.overall_score(), 54);
    let expected_facets = [
        ("Friendliness", 94),
        ("Gregariousness", 72),
        ("Assertiveness", 44),
        ("Activity Level", 18),
        ("Excitement-Seeking", 17),
        ("Cheerfulness", 57),
    ]
    .iter()
    .cloned()
    .collect::<HashSet<_>>();
    assert!(expected_facets
        .difference(&result.facets().entries().clone().into_iter().collect::<HashSet<_>>())
        .collect::<Vec<_>>()
        .is_empty());
}

#[test]
fn test_multiple_results() {
    let concat_input = format!("{}{}", TEST_INPUT_1, TEST_INPUT_2);
    let results = new("Sean", &concat_input).unwrap();
    assert_eq!(results.results().len(), 2);
    let result = results.results().get(1).unwrap();
    assert_eq!(result.name(), "AGREEABLENESS");
    assert_eq!(result.overall_score(), 96);
    let expected_facets =
        [("Trust", 70), ("Morality", 89), ("Altruism", 80), ("Cooperation", 93), ("Modesty", 95), ("Sympathy", 73)]
            .iter()
            .cloned()
            .collect::<HashSet<_>>();
    assert!(expected_facets
        .difference(&result.facets().entries().clone().into_iter().collect::<HashSet<_>>())
        .collect::<Vec<_>>()
        .is_empty());
}

fn message_of_input_error(error: BigFiveError) -> &str {
    match error {
        BigFiveError::InputError(message) => message,
        BigFiveError::SimpleError(message) => panic!("a setup error: {}", message),
    }
}

#[test]
fn report_keeps_the_subject_name() {
    let results = new("Sean", TEST_INPUT_1).unwrap();
    assert_eq!(results.name(), "Sean");
    let results = new("", TEST_INPUT_1).unwrap();
    assert_eq!(results.name(), "");
}

#[test]
fn report_has_one_domain_per_header_in_order() {
    let names = ["OPENNESS", "CONSCIENTIOUSNESS", "EXTRAVERSION", "AGREEABLENESS", "NEUROTICISM"];
    let mut input = String::new();
    for (i, name) in names.iter().enumerate() {
        input.push_str(&format!("{}...{}\nFirst facet...{}\nSecond facet...{}\n", name, 10 + i, 20 + i, 30 + i));
    }
    let results = new("Sean", &input).unwrap();
    assert_eq!(results.results().len(), names.len());
    for (i, name) in names.iter().enumerate() {
        let result = &results.results()[i];
        assert_eq!(result.name(), *name);
        assert_eq!(result.overall_score() as usize, 10 + i);
        assert_eq!(result.facets().get("First facet").map(usize::from), Some(20 + i));
        assert_eq!(result.facets().get("Second facet").map(usize::from), Some(30 + i));
        assert_eq!(result.facets().len(), 2);
    }
}

#[test]
fn report_without_text_has_no_domains() {
    let results = new("Sean", "").unwrap();
    assert_eq!(results.results().len(), 0);
}

#[test]
fn report_may_end_without_line_feed() {
    let results = new("Sean", "EXTRAVERSION...54\nFriendliness...94").unwrap();
    assert_eq!(results.results().len(), 1);
    assert_eq!(results.results()[0].facets().get("Friendliness"), Some(94));
}

#[test]
fn report_passes_over_empty_lines_between_blocks() {
    let input = format!("{}\n{}", TEST_INPUT_1, TEST_INPUT_2);
    let results = new("Sean", &input).unwrap();
    assert_eq!(results.results().len(), 2);
    assert_eq!(results.results()[0].facets().len(), 6);
    assert_eq!(results.results()[1].facets().len(), 6);
}

#[test]
fn report_domain_names_keep_hyphens_and_spaces() {
    let results = new("Sean", "OPENNESS TO-EXPERIENCE...54\nImagination...94\n").unwrap();
    assert_eq!(results.results()[0].name(), "OPENNESS TO-EXPERIENCE");
}

#[test]
fn report_keeps_the_last_score_of_a_label() {
    let results = new("Sean", "AGREEABLENESS...96\nTrust...70\nMorality...89\nTrust...75\n").unwrap();
    let facets = results.results()[0].facets();
    assert_eq!(facets.get("Trust"), Some(75));
    assert_eq!(facets.len(), 2);
}

#[test]
fn report_with_text_before_the_first_header_is_rejected() {
    let input = format!("Results for Sean\n{}", TEST_INPUT_1);
    let error = new("Sean", &input).unwrap_err();
    assert_eq!(message_of_input_error(error), "Headers did not match number of results");
}

#[test]
fn report_with_header_without_block_is_rejected() {
    let error = new("Sean", "EXTRAVERSION...54\n").unwrap_err();
    assert_eq!(message_of_input_error(error), "Headers did not match number of results");
    let error = new("Sean", "EXTRAVERSION...54\nAGREEABLENESS...96\nTrust...70\n").unwrap_err();
    assert_eq!(message_of_input_error(error), "Headers did not match number of results");
}

#[test]
fn report_without_header_is_rejected() {
    let error = new("Sean", "Friendliness...94\nTrust...70\n").unwrap_err();
    assert_eq!(message_of_input_error(error), "Headers did not match number of results");
}

#[test]
fn report_with_header_without_leader_is_rejected() {
    let error = new("Sean", "EXTRAVERSION 54\nFriendliness...94\n").unwrap_err();
    assert_eq!(message_of_input_error(error), "Headers did not match number of results");
}

#[test]
fn report_with_header_without_digits_is_rejected() {
    let error = new("Sean", "EXTRAVERSION...\nFriendliness...94\n").unwrap_err();
    assert_eq!(message_of_input_error(error), "Headers did not match number of results");
    let error = new("Sean", "EXTRAVERSION...high\nFriendliness...94\n").unwrap_err();
    assert_eq!(message_of_input_error(error), "Headers did not match number of results");
}

#[test]
fn report_with_facet_line_without_leader_is_rejected() {
    let error = new("Sean", "EXTRAVERSION...54\nFriendliness 94\nCheerfulness...57\n").unwrap_err();
    assert_eq!(message_of_input_error(error), "Could not parse field score");
}

#[test]
fn report_with_facet_line_without_digits_is_rejected() {
    let error = new("Sean", "EXTRAVERSION...54\nFriendliness...94\nCheerfulness...\n").unwrap_err();
    assert_eq!(message_of_input_error(error), "Could not parse field score");
}

#[test]
fn report_with_word_for_facet_score_is_rejected() {
    let error = new("Sean", "EXTRAVERSION...54\nFriendliness...high\nCheerfulness...57\n").unwrap_err();
    assert_eq!(message_of_input_error(error), "Could not parse field score");
}

#[test]
fn report_with_overall_score_of_256_is_rejected() {
    let error = new("Sean", "EXTRAVERSION...256\nFriendliness...94\n").unwrap_err();
    assert_eq!(message_of_input_error(error), "Could not parse field score");
    assert!(new("Sean", "EXTRAVERSION...255\nFriendliness...94\n").is_ok());
}

#[test]
fn report_with_facet_score_of_256_is_rejected() {
    let error = new("Sean", "EXTRAVERSION...54\nFriendliness...256\n").unwrap_err();
    assert_eq!(message_of_input_error(error), "Could not parse field score");
    let error = new("Sean", "EXTRAVERSION...54\nFriendliness...94\nCheerfulness...1000\n").unwrap_err();
    assert_eq!(message_of_input_error(error), "Could not parse field score");
    assert!(new("Sean", "EXTRAVERSION...54\nFriendliness...255\n").is_ok());
}

#[test]
fn report_with_bad_line_in_a_later_block_returns_nothing() {
    let input = format!("{}AGREEABLENESS...96\nTrust 70\n", TEST_INPUT_1);
    let error = new("Sean", &input).unwrap_err();
    assert_eq!(message_of_input_error(error), "Could not parse field score");
}

#[test]
fn report_scores_are_read_for_every_value() {
    for value in 0..=255u8 {
        let input = format!("EXTRAVERSION...{}\nFriendliness...{}\n", value, value);
        let results = new("Sean", &input).unwrap();
        let result = &results.results()[0];
        assert_eq!(result.overall_score(), value);
        assert_eq!(result.facets().get("Friendliness"), Some(value));
    }
}

#[test]
fn error_message_is_the_text_carried() {
    assert_eq!(BigFiveError::InputError("Could not parse header").message(), "Could not parse header");
    assert_eq!(BigFiveError::SimpleError("Could not compile Regex").message(), "Could not compile Regex");
}
