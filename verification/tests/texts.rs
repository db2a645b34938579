use hub_store::managers::error::ServerError;
use hub_store::managers::text::{chars_of, contains, equal, split};

fn strings(items: &[&str]) -> Vec<String> {
    items.iter().map(|s| s.to_string()).collect()
}

#[test]
fn split_cuts_at_every_separator() {
    assert_eq!(split("INS x 5", ' '), strings(&["INS", "x", "5"]));
    assert_eq!(split("a.b.c", '.'), strings(&["a", "b", "c"]));
    assert_eq!(split("flat", '.'), strings(&["flat"]));
}

#[test]
fn split_keeps_empty_pieces() {
    assert_eq!(split("", ' '), strings(&[""]));
    assert_eq!(split(" ", ' '), strings(&["", ""]));
    assert_eq!(split("a  b", ' '), strings(&["a", "", "b"]));
    assert_eq!(split(".a.", '.'), strings(&["", "a", ""]));
}

#[test]
fn split_works_on_characters_not_bytes() {
    assert_eq!(split("é/ü/漢", '/'), strings(&["é", "ü", "漢"]));
    assert_eq!(split("aébéc", 'é'), strings(&["a", "b", "c"]));
}

#[test]
fn contains_finds_runs_of_characters() {
    assert!(contains("data.json", ".json"));
    assert!(contains("an error here", "error"));
    assert!(contains("abc", "abc"));
    assert!(contains("abc", ""));
    assert!(contains("", ""));
    assert!(contains("aab", "ab"));
    assert!(!contains("abc", "abcd"));
    assert!(!contains("", "a"));
    assert!(!contains("data.jso", ".json"));
    assert!(!contains("Error", "error"));
}

#[test]
fn equal_compares_texts() {
    assert!(equal("NEW", "NEW"));
    assert!(equal("", ""));
    assert!(!equal("NEW", "new"));
    assert!(!equal("NEW", "NEW "));
}

#[test]
fn chars_of_lists_the_characters() {
    assert_eq!(chars_of("aé漢"), vec!['a', 'é', '漢']);
    assert_eq!(chars_of(""), Vec::<char>::new());
}

#[test]
fn every_error_has_its_diagnostic_line() {
    assert_eq!(ServerError::TEST.produce_error(), "Error: ");
    assert_eq!(ServerError::NONE.produce_error(), "Error: None");
    assert_eq!(ServerError::TAKEN.produce_error(), "Error: Taken");
    assert_eq!(ServerError::MISSING_DATA.produce_error(), "Error: Missing Data");
    assert_eq!(ServerError::INVALID_JSON.produce_error(), "Error: Invalid Json");
    assert_eq!(ServerError::INVALID_DATA.produce_error(), "Error: Invalid Data");
    assert_eq!(ServerError::INVALID_ARG.produce_error(), "Error: Invalid Arg");
    assert_eq!(ServerError::INVALID_FILE.produce_error(), "Error: Invalid File");
    assert_eq!(ServerError::CONNECTION.produce_error(), "Error: Connection");
    assert_eq!(ServerError::NO_VALUE.produce_error(), "Error: No Value");
    assert_eq!(ServerError::FAILED_READ.produce_error(), "Error: Failed to Read");
    assert_eq!(ServerError::FAILED_WRITE.produce_error(), "Error: Failed to Write");
    assert_eq!(ServerError::INCOMPLETE_OPERATION.produce_error(), "Error: Incomplete operation");
    assert_eq!(
        ServerError::INCOMPATIBLE_DATA_TYPES.produce_error(),
        "Error: Incompatible data types"
    );
}

#[test]
fn every_error_has_its_user_facing_text() {
    assert_eq!(ServerError::TEST.to_text(), "Error occured sorry! TEST");
    assert_eq!(ServerError::NONE.to_text(), "Error occured sorry! NONE");
    assert_eq!(ServerError::TAKEN.to_text(), "Error occured sorry! TAKEN");
    assert_eq!(ServerError::MISSING_DATA.to_text(), "Error occured sorry! MISSING_DATA");
    assert_eq!(ServerError::INVALID_JSON.to_text(), "Error occured sorry! INVALID_JSON");
    assert_eq!(ServerError::INVALID_DATA.to_text(), "Error occured sorry! INVALID_DATA");
    assert_eq!(ServerError::INVALID_ARG.to_text(), "Error occured sorry! INVALID_ARG");
    assert_eq!(ServerError::INVALID_FILE.to_text(), "Error occured sorry! INVALID_FILE");
    assert_eq!(ServerError::CONNECTION.to_text(), "Error occured sorry! CONNECTION");
    assert_eq!(ServerError::NO_VALUE.to_text(), "Error occured sorry! NO_VALUE");
    assert_eq!(ServerError::FAILED_READ.to_text(), "Error occured sorry! FAILED_READ");
    assert_eq!(ServerError::FAILED_WRITE.to_text(), "Error occured sorry! FAILED_WRITE");
    assert_eq!(
        ServerError::INCOMPLETE_OPERATION.to_text(),
        "Error occured sorry! INCOMPLETE_OPERATION"
    );
    assert_eq!(
        ServerError::INCOMPATIBLE_DATA_TYPES.to_text(),
        "Error occured sorry! INCOMPATIBLE_DATA_TYPES"
    );
    assert_eq!(ServerError::TAKEN.name(), "TAKEN");
}
