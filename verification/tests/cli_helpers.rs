use fintech_platform::cli::constants::SEPARATOR;
use fintech_platform::cli::helpers::{help_contents_full, help_contents_short, is_valid_name};

#[test]
fn helpers_test_help_contents() {
    let expected = "help deposit withdraw send print ledger txlog accounts \
    client order orderbook orderbookbyprice quit"
        .trim()
        .to_string();
    assert_eq!(help_contents_full(), expected);
}

#[test]
fn helpers_test_help_contents_short() {
    let expected = "h d w s p l t a c o ob obp q".to_string();
    assert_eq!(help_contents_short(), expected);
}

#[test]
fn helpers_test_separator() {
    let expected = "--".to_string();
    assert_eq!(SEPARATOR, expected);
}

#[test]
fn helpers_test_valid_name_passes() {
    assert!(is_valid_name("Ivan"));
}

#[test]
fn helpers_test_empty_name_fails() {
    assert!(!is_valid_name(""));
}

#[test]
fn logic_test_help_contents() {
    let expected = "help deposit withdraw send print ledger txlog accounts \
    client order orderbook orderbookbyprice quit"
        .trim()
        .to_string();
    assert_eq!(help_contents_full(), expected);
}

#[test]
fn logic_test_help_contents_short() {
    let expected = "h d w s p l t a c o ob obp q".to_string();
    assert_eq!(help_contents_short(), expected);
}

#[test]
fn logic_test_separator() {
    let expected = "--".to_string();
    assert_eq!(SEPARATOR, expected);
}
