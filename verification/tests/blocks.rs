use big_five::blocks::pair_blocks;
use big_five::BigFiveError;

fn message_of_input_error(error: BigFiveError) -> &str {
    match error {
        BigFiveError::InputError(message) => message,
        BigFiveError::SimpleError(message) => panic!("a setup error: {}", message),
    }
}

#[test]
fn blocks_pair_in_order() {
    let headers = vec![Some("A...1\n"), Some("B...2\n")];
    let parts = vec!["", "x...3\n", "y...4\n"];
    let blocks = pair_blocks(&headers, &parts).unwrap();
    assert_eq!(blocks, vec![("A...1\n", "x...3\n"), ("B...2\n", "y...4\n")]);
}

#[test]
fn blocks_of_nothing() {
    let blocks = pair_blocks(&vec![], &vec![""]).unwrap();
    assert!(blocks.is_empty());
    let blocks = pair_blocks(&vec![], &vec![]).unwrap();
    assert!(blocks.is_empty());
}

#[test]
fn blocks_drop_empty_parts_only() {
    let headers = vec![Some("A...1\n")];
    let parts = vec!["", "", "\n", ""];
    let blocks = pair_blocks(&headers, &parts).unwrap();
    assert_eq!(blocks, vec![("A...1\n", "\n")]);
}

#[test]
fn blocks_pass_over_missing_headers() {
    let headers = vec![None, Some("A...1\n"), None];
    let parts = vec!["x...3\n"];
    let blocks = pair_blocks(&headers, &parts).unwrap();
    assert_eq!(blocks, vec![("A...1\n", "x...3\n")]);
}

#[test]
fn blocks_reject_text_before_the_first_header() {
    let headers = vec![Some("A...1\n")];
    let parts = vec!["stray\n", "x...3\n"];
    let error = pair_blocks(&headers, &parts).unwrap_err();
    assert_eq!(message_of_input_error(error), "Headers did not match number of results");
}

#[test]
fn blocks_reject_header_without_block() {
    let headers = vec![Some("A...1\n"), Some("B...2\n")];
    let parts = vec!["", "", "y...4\n"];
    let error = pair_blocks(&headers, &parts).unwrap_err();
    assert_eq!(message_of_input_error(error), "Headers did not match number of results");
}

#[test]
fn blocks_reject_block_without_header() {
    let error = pair_blocks(&vec![], &vec!["x...3\n"]).unwrap_err();
    assert_eq!(message_of_input_error(error), "Headers did not match number of results");
}
