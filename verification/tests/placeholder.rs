use rstest_bdd_macros::placeholder::{
    contains_placeholders, extract_placeholder_names, substitute_placeholders,
};

#[test]
fn error_on_undefined_placeholder() {
    let text = "I have <undefined> items";
    let headers = vec!["count".to_owned()];
    let row = vec!["5".to_owned()];

    let Err(err) = substitute_placeholders(text, &headers, &row) else {
        panic!("undefined placeholder should fail substitution");
    };
    assert_eq!(err.placeholder, "undefined");
    assert_eq!(err.available_columns, vec!["count".to_owned()]);
}

#[test]
fn placeholder_with_underscores() {
    let text = "The <user_name> has <item_count> items";
    let headers = vec!["user_name".to_owned(), "item_count".to_owned()];
    let row = vec!["Alice".to_owned(), "42".to_owned()];

    let Ok(result) = substitute_placeholders(text, &headers, &row) else {
        panic!("placeholder substitution should succeed");
    };
    assert_eq!(result, "The Alice has 42 items");
}

#[test]
fn placeholder_with_spaces_and_hyphens() {
    let text = "The <start count> includes <item-id>";
    let headers = vec!["start count".to_owned(), "item-id".to_owned()];
    let row = vec!["3".to_owned(), "apples".to_owned()];

    let Ok(result) = substitute_placeholders(text, &headers, &row) else {
        panic!("placeholder substitution should succeed");
    };
    assert_eq!(result, "The 3 includes apples");
}

#[test]
fn contains_placeholders_returns_true() {
    assert!(contains_placeholders("I have <count> items"));
    assert!(contains_placeholders("<a> and <b>"));
}

#[test]
fn contains_placeholders_returns_false() {
    assert!(!contains_placeholders("I have 5 items"));
    assert!(!contains_placeholders("No placeholders here"));
    assert!(!contains_placeholders("Angle brackets < > without names"));
}

#[test]
fn extract_placeholder_names_finds_all() {
    let names = extract_placeholder_names("I have <count> <item> and <count> more");
    assert_eq!(names, vec!["count", "item", "count"]);
}

#[test]
fn extract_placeholder_names_empty_when_none() {
    let names = extract_placeholder_names("No placeholders here");
    assert!(names.is_empty());
}

#[test]
fn substitutes_repeated_placeholders_and_empty_values() {
    let headers = vec!["count".to_owned()];
    let row = vec![String::new()];
    let Ok(result) = substitute_placeholders("I have <count> items", &headers, &row) else {
        panic!("placeholder substitution should succeed");
    };
    assert_eq!(result, "I have  items");
    let row = vec!["2".to_owned()];
    let Ok(result) = substitute_placeholders("<count> and <count>", &headers, &row) else {
        panic!("placeholder substitution should succeed");
    };
    assert_eq!(result, "2 and 2");
}

#[test]
fn placeholder_error_message_lists_columns() {
    let headers = vec!["a".to_owned(), "b".to_owned()];
    let row = vec!["1".to_owned(), "2".to_owned()];
    let Err(err) = substitute_placeholders("<c>", &headers, &row) else {
        panic!("undefined placeholder should fail substitution");
    };
    assert_eq!(
        err.to_string(),
        "Placeholder '<c>' not found in Examples table. Available columns: [a, b]"
    );
}

#[test]
fn contains_and_extract_agree() {
    for text in ["<x>", "none", "< x>", "<x", "a <b c> d"] {
        assert_eq!(
            contains_placeholders(text),
            !extract_placeholder_names(text).is_empty()
        );
    }
}

#[test]
fn documented_substitution_examples() {
    let headers = vec!["count".to_string(), "item".to_string()];
    let row = vec!["5".to_string(), "apples".to_string()];
    assert_eq!(
        substitute_placeholders("I have <count> <item>", &headers, &row),
        Ok("I have 5 apples".to_string())
    );
    let headers = vec!["count".to_string()];
    let row = vec!["5".to_string()];
    assert_eq!(
        substitute_placeholders("Given I have <count> items", &headers, &row),
        Ok("Given I have 5 items".to_string())
    );
}
