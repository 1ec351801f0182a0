use zero2prod::domain::SubscriberName;

#[test]
fn a_256_grapheme_long_name_is_valid() {
    let name = "ë".repeat(256);
    assert!(SubscriberName::parse(name).is_ok());
}

#[test]
fn a_name_longer_than_256_grapheme_is_rejected() {
    let name = "a".repeat(257);
    assert!(SubscriberName::parse(name).is_err());
}

#[test]
fn whitespace_only_names_are_rejected() {
    let name = " ".to_string();
    assert!(SubscriberName::parse(name).is_err());
}

#[test]
fn empty_string_is_rejected() {
    let name = "".to_string();
    assert!(SubscriberName::parse(name).is_err());
}

#[test]
fn names_containing_an_invalid_character_are_rejected() {
    for name in &['/', '(', ')', '"', '<', '>', '\\', '{', '}'] {
        let name = name.to_string();
        assert!(SubscriberName::parse(name).is_err());
    }
}

#[test]
fn a_valid_name_is_parsed_successfully() {
    let name = "Ursula Le Guin".to_string();
    assert!(SubscriberName::parse(name).is_ok());
}

#[test]
fn combining_marks_count_as_one_grapheme() {
    // 256 graphemes of 'e' followed by a combining diaeresis: 512 chars.
    let name = "e\u{0308}".repeat(256);
    assert_eq!(name.chars().count(), 512);
    assert!(SubscriberName::parse(name).is_ok());
    let name = "e\u{0308}".repeat(257);
    assert!(SubscriberName::parse(name).is_err());
}

#[test]
fn unicode_whitespace_only_names_are_rejected() {
    let name = "\u{00A0}\u{2003}\t".to_string();
    assert!(SubscriberName::parse(name).is_err());
}

#[test]
fn refused_names_get_a_message() {
    let err = SubscriberName::parse("a<b".to_string()).unwrap_err();
    assert_eq!(err, "a<b is not a valid subscriber name.");
}

#[test]
fn parse_counted_uses_the_given_count() {
    assert!(SubscriberName::parse_counted("abc".to_string(), 256).is_ok());
    assert!(SubscriberName::parse_counted("abc".to_string(), 257).is_err());
}
