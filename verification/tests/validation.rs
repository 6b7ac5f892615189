use ghfetch::types::Username;
use ghfetch::validation::valid_username;

fn valid(s: &str) -> bool {
    Username::new(s).is_some()
}

#[test]
fn accepts_simple_username() {
    assert!(valid("torvalds"));
}

#[test]
fn accepts_username_with_hyphen() {
    assert!(valid("pring-nt"));
}

#[test]
fn accepts_alphanumeric() {
    assert!(valid("user123"));
}

#[test]
fn rejects_empty() {
    assert!(!valid(""));
}

#[test]
fn rejects_too_long() {
    assert!(!valid(&"a".repeat(40)));
}

#[test]
fn rejects_leading_hyphen() {
    assert!(!valid("-username"));
}

#[test]
fn rejects_trailing_hyphen() {
    assert!(!valid("username-"));
}

#[test]
fn rejects_double_hyphen() {
    assert!(!valid("user--name"));
}

#[test]
fn rejects_special_chars() {
    assert!(!valid("user@name"));
    assert!(!valid("user name"));
    assert!(!valid("user.name"));
    assert!(!valid("<script>"));
}

#[test]
fn normalizes_to_lowercase() {
    let u = Username::new("AmaneKai").unwrap();
    assert_eq!(u.as_str(), "amanekai");
}

#[test]
fn accepts_max_length() {
    assert!(valid(&"a".repeat(39)));
}

#[test]
fn rejects_whitespace_only() {
    assert!(!valid("   "));
}

#[test]
fn normalized_login_is_accepted_unchanged() {
    let u = Username::new("Some-User-42").unwrap();
    assert_eq!(u.as_str(), "some-user-42");
    let again = Username::new(u.as_str()).unwrap();
    assert_eq!(again.as_str(), u.as_str());
}

#[test]
fn rejects_non_ascii_letters() {
    assert!(!valid("usér"));
    assert!(!valid("名前"));
}

#[test]
fn accepts_single_character_and_digits_only() {
    assert!(valid("a"));
    assert!(valid("1234"));
    assert!(!valid("-"));
}

#[test]
fn valid_username_agrees_with_username_new() {
    assert_eq!(valid_username("ABC-d").unwrap().as_str(), "abc-d");
    assert!(valid_username("a_b").is_none());
}
