use gecos::sanitized::illegal_passwd_char;
use gecos::{GecosError, GecosSanitizedString};

fn illegal_char_of(text: &str) -> char {
    match GecosSanitizedString::new(text.to_string()) {
        Ok(_) => panic!("{:?} was accepted", text),
        Err(GecosError::IllegalPasswdChar(c)) => c,
    }
}

#[test]
fn new_keeps_plain_text() {
    let field = GecosSanitizedString::new("Another name".to_string()).unwrap();
    assert_eq!(field.to_string(), "Another name");
    assert_eq!(field.as_str(), "Another name");
}

#[test]
fn new_keeps_whitespace_and_case() {
    let field = GecosSanitizedString::new("  MiXed\tCase  ".to_string()).unwrap();
    assert_eq!(field.to_string(), "  MiXed\tCase  ");
}

#[test]
fn new_keeps_text_beyond_ascii() {
    let field = GecosSanitizedString::new("Zoë Müller 東京".to_string()).unwrap();
    assert_eq!(field.to_string(), "Zoë Müller 東京");
}

#[test]
fn new_accepts_the_empty_text() {
    let field = GecosSanitizedString::new(String::new()).unwrap();
    assert_eq!(field.to_string(), "");
    assert!(field.is_empty());
}

#[test]
fn is_empty_tells_empty_from_blank() {
    let field = GecosSanitizedString::new(" ".to_string()).unwrap();
    assert!(!field.is_empty());
}

#[test]
fn new_refuses_each_reserved_char() {
    assert_eq!(illegal_char_of("a,b"), ',');
    assert_eq!(illegal_char_of("a:b"), ':');
    assert_eq!(illegal_char_of("a=b"), '=');
    assert_eq!(illegal_char_of("a\\b"), '\\');
    assert_eq!(illegal_char_of("a\"b"), '"');
    assert_eq!(illegal_char_of("a\nb"), '\n');
}

#[test]
fn new_refuses_a_lone_reserved_char() {
    assert_eq!(illegal_char_of(","), ',');
    assert_eq!(illegal_char_of("\n"), '\n');
}

#[test]
fn new_reports_the_leftmost_reserved_char() {
    assert_eq!(illegal_char_of("a:b,c"), ':');
    assert_eq!(illegal_char_of("name=\"x\", room:1"), '=');
    assert_eq!(illegal_char_of("\n\\\"=:,"), '\n');
    assert_eq!(illegal_char_of("ü\"ö,"), '"');
}

#[test]
fn new_reports_a_reserved_char_at_the_end() {
    assert_eq!(illegal_char_of("St. 9\\"), '\\');
}

#[test]
fn illegal_passwd_char_knows_the_six() {
    for c in [',', ':', '=', '\\', '"', '\n'] {
        assert!(illegal_passwd_char(c));
    }
    for c in ['a', 'Z', '0', ' ', '\t', '\r', ';', '.', '/', '\'', '-', 'ü'] {
        assert!(!illegal_passwd_char(c));
    }
}

#[test]
fn try_from_is_new() {
    let field: GecosSanitizedString = "St. 9".to_string().try_into().unwrap();
    assert_eq!(field.to_string(), "St. 9");
    let refused: Result<GecosSanitizedString, GecosError> = "a=b".to_string().try_into();
    assert!(matches!(refused, Err(GecosError::IllegalPasswdChar('='))));
}

#[test]
fn string_reference_from_field() {
    let field = GecosSanitizedString::new("H-1.13".to_string()).unwrap();
    let text: &String = (&field).into();
    assert_eq!(text, "H-1.13");
}

#[test]
fn equal_texts_are_equal_fields() {
    let a = GecosSanitizedString::new("574".to_string()).unwrap();
    let b = GecosSanitizedString::new("574".to_string()).unwrap();
    let c = GecosSanitizedString::new("575".to_string()).unwrap();
    assert!(a == b);
    assert!(a != c);
}

#[test]
fn clone_keeps_the_text() {
    let a = GecosSanitizedString::new("+491606799999".to_string()).unwrap();
    let b = a.clone();
    assert_eq!(a, b);
    assert_eq!(b.to_string(), "+491606799999");
}

#[test]
fn error_message_names_the_reserved_chars() {
    let err = GecosSanitizedString::new("a:b".to_string()).unwrap_err();
    assert_eq!(
        err.to_string(),
        "String contains invalid char, which is not allowed inside a Gecos field! (Chars ',', ':', '=', '\\', '\"', '\\n' are not allowed)"
    );
}
