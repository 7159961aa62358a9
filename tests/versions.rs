use tiny_ver::{is_valid_name, split_versioned_name, NameError, ParseError, SplitError, TinyVersion};

#[test]
fn add_to_name() {
    assert_eq!(
        "1.2.3-alpha.1"
            .parse::<TinyVersion>()
            .unwrap()
            .versioned_name("myapp")
            .unwrap(),
        "myapp-1.2.3-alpha.1"
    );
}

#[test]
fn invalid_format() {
    let version = "1.2".parse::<TinyVersion>();
    assert_eq!(version, Err(ParseError::InvalidFormat));
}

#[test]
fn invalid_number() {
    let version = "a.2.3".parse::<TinyVersion>();
    assert_eq!(version, Err(ParseError::InvalidNumber));
}

#[test]
fn invalid_pre_release() {
    let version = "1.2.3-!alpha".parse::<TinyVersion>();
    assert_eq!(version, Err(ParseError::InvalidPreRelease));
}

#[test]
fn add_to_name_without_pre_release() {
    let version: TinyVersion = "1.2.3".parse().unwrap();
    let result = version.versioned_name("lib").unwrap();
    assert_eq!(result, "lib-1.2.3");
}

#[test]
fn add_to_name_with_pre_release() {
    let version: TinyVersion = "1.2.3-beta".parse().unwrap();
    let result = version.versioned_name("lib").unwrap();
    assert_eq!(result, "lib-1.2.3-beta");
}

#[test]
fn invalid_numeric_identifier_with_leading_zero() {
    let version = "1.2.3-rc.01".parse::<TinyVersion>();
    assert_eq!(version, Err(ParseError::InvalidPreRelease));
}

#[test]
fn valid_strict_pre_release() {
    let version: TinyVersion = "1.2.3-rc.1".parse().unwrap();
    assert_eq!(version.to_string(), "1.2.3-rc.1");
}

#[test]
fn valid_names() {
    assert!(is_valid_name("foo"));
    assert!(is_valid_name("foo_bar"));
    assert!(is_valid_name("foobar"));
    assert!(is_valid_name("tiny_ver"));
}

#[test]
fn invalid_empty_name() {
    assert!(!is_valid_name(""));
}

#[test]
fn invalid_start_or_end_with_underscore() {
    assert!(!is_valid_name("_foo"));
    assert!(!is_valid_name("foo_"));
}

#[test]
fn invalid_uppercase_letters() {
    assert!(!is_valid_name("Foo"));
    assert!(!is_valid_name("fooBar"));
    assert!(!is_valid_name("FOOBAR"));
}

#[test]
fn invalid_characters() {
    assert!(!is_valid_name("foo-bar"));
    assert!(!is_valid_name("foo1bar"));
    assert!(!is_valid_name("foo!bar"));
}

#[test]
fn round_trip_keeps_version() {
    for text in ["1.2.3", "0.0.0", "1.2.3-rc.0", "10.200.3000-alpha-beta.x.7", "4294967295.0.1"] {
        let v: TinyVersion = text.parse().unwrap();
        assert_eq!(v.to_string(), text);
        assert_eq!(v.to_string().parse::<TinyVersion>(), Ok(v.clone()));
    }
}

#[test]
fn round_trip_drops_leading_zeros_of_numbers() {
    let v: TinyVersion = "01.002.0003".parse().unwrap();
    assert_eq!(v.to_string(), "1.2.3");
    assert_eq!(TinyVersion::parse(&v.to_string()), Ok(v));
}

#[test]
fn single_zero_identifier_is_allowed() {
    let v = TinyVersion::parse("1.2.3-rc.0").unwrap();
    assert_eq!(v.to_string(), "1.2.3-rc.0");
    assert_eq!(TinyVersion::parse("1.2.3-0"), Ok(TinyVersion::parse("1.2.3-0").unwrap()));
}

#[test]
fn pre_release_keeps_later_hyphens() {
    let v = TinyVersion::parse("1.2.3-alpha-1.beta").unwrap();
    assert_eq!(v.to_string(), "1.2.3-alpha-1.beta");
}

#[test]
fn field_count_is_checked_first() {
    assert_eq!(TinyVersion::parse(""), Err(ParseError::InvalidFormat));
    assert_eq!(TinyVersion::parse("1.2.3.4"), Err(ParseError::InvalidFormat));
    assert_eq!(TinyVersion::parse("a.2-!!"), Err(ParseError::InvalidFormat));
    assert_eq!(TinyVersion::parse("-1.2.3"), Err(ParseError::InvalidFormat));
}

#[test]
fn numbers_are_checked_before_pre_release() {
    assert_eq!(TinyVersion::parse("a.2.3-!!"), Err(ParseError::InvalidNumber));
    assert_eq!(TinyVersion::parse("1..3"), Err(ParseError::InvalidNumber));
    assert_eq!(TinyVersion::parse("+1.2.3"), Err(ParseError::InvalidNumber));
    assert_eq!(TinyVersion::parse("1. 2.3"), Err(ParseError::InvalidNumber));
    assert_eq!(TinyVersion::parse("4294967296.0.0"), Err(ParseError::InvalidNumber));
}

#[test]
fn malformed_pre_release() {
    assert_eq!(TinyVersion::parse("1.2.3-"), Err(ParseError::InvalidPreRelease));
    assert_eq!(TinyVersion::parse("1.2.3-a..b"), Err(ParseError::InvalidPreRelease));
    assert_eq!(TinyVersion::parse("1.2.3-a."), Err(ParseError::InvalidPreRelease));
    assert_eq!(TinyVersion::parse("1.2.3-00"), Err(ParseError::InvalidPreRelease));
    assert_eq!(TinyVersion::parse("1.2.3-é"), Err(ParseError::InvalidPreRelease));
}

#[test]
fn versioned_name_rejects_invalid_name() {
    let v = TinyVersion::parse("1.2.3").unwrap();
    assert_eq!(v.versioned_name("Bad"), Err(NameError::InvalidName("Bad".to_string())));
    assert_eq!(v.versioned_name(""), Err(NameError::InvalidName(String::new())));
}

#[test]
fn single_letter_names() {
    assert!(is_valid_name("a"));
    assert!(!is_valid_name("_"));
    assert!(is_valid_name("a__b"));
}

#[test]
fn split_missing_hyphen() {
    assert_eq!(split_versioned_name("noversion"), Err(SplitError::MissingHyphen));
}

#[test]
fn split_unparseable_tail() {
    assert_eq!(
        split_versioned_name("name-1.2"),
        Err(SplitError::VersionParseError(ParseError::InvalidFormat))
    );
    assert_eq!(
        split_versioned_name("name-1.2.3-"),
        Err(SplitError::VersionParseError(ParseError::InvalidPreRelease))
    );
}

#[test]
fn split_does_not_check_name() {
    let (name, v) = split_versioned_name("Foo-1.0.0").unwrap();
    assert_eq!(name, "Foo");
    assert_eq!(v.to_string(), "1.0.0");
}

#[test]
fn split_inverts_versioned_name() {
    for (name, text) in [("lib", "1.2.3"), ("tiny_ver", "1.2.3-beta-2.x"), ("a", "0.0.0-0")] {
        let v: TinyVersion = text.parse().unwrap();
        let full = v.versioned_name(name).unwrap();
        assert_eq!(full, format!("{}-{}", name, text));
        assert_eq!(split_versioned_name(&full), Ok((name.to_string(), v)));
    }
}

#[test]
fn from_str_keeps_later_hyphen_in_pre_release() {
    let v = "1.2.3-rc-1".parse::<TinyVersion>().unwrap();
    assert_eq!(v.to_string(), "1.2.3-rc-1");
    assert_eq!("1.2.3-rc.0".parse::<TinyVersion>().unwrap().to_string(), "1.2.3-rc.0");
}
