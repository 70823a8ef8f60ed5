use redsharp::template::{parse_selector, PortSelector};

#[test]
fn selector_input() {
    assert_eq!(
        parse_selector(&"i-0-3".to_string()),
        Some(PortSelector { input: true, ordinal: 0, bit: 3 })
    );
}

#[test]
fn selector_quoted_output() {
    assert_eq!(
        parse_selector(&"\"o-1-7\"".to_string()),
        Some(PortSelector { input: false, ordinal: 1, bit: 7 })
    );
}

#[test]
fn selector_with_plus_sign_and_other_prefix() {
    assert_eq!(
        parse_selector(&"x-+2-10".to_string()),
        Some(PortSelector { input: false, ordinal: 2, bit: 10 })
    );
}

#[test]
fn selector_malformed() {
    assert_eq!(parse_selector(&"i-0".to_string()), None);
    assert_eq!(parse_selector(&"i-x-3".to_string()), None);
    assert_eq!(parse_selector(&"i-0-3-4".to_string()), None);
    assert_eq!(parse_selector(&"i--3".to_string()), None);
    assert_eq!(parse_selector(&"i-0-+".to_string()), None);
    assert_eq!(parse_selector(&"".to_string()), None);
    assert_eq!(parse_selector(&"i-99999999999999999999999-0".to_string()), None);
}
