use fintech_platform::web_service::is_valid_name;

#[test]
fn handlers_test_valid_name_passes() {
    assert!(is_valid_name("Ivan").is_ok());
}

#[test]
fn handlers_test_empty_name_fails() {
    assert!(is_valid_name("").is_err());
}
