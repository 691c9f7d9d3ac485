use cred::clock::Timestamp;
use cred::names::{check_name, validate_name, NameProblem};
use cred::text::{
    byte_prefix, contains, decimal, is_white, join, pad, same, size, split_limited, strip_prefix,
    trim,
};

#[test]
fn white_space_is_that_of_unicode() {
    for n in 0..=0x10ffffu32 {
        if let Some(c) = char::from_u32(n) {
            assert_eq!(is_white(c), c.is_whitespace(), "{:?}", c);
        }
    }
}

#[test]
fn trimming_as_std_does() {
    for s in ["", " ", " a ", "\t\u{a0}a b\u{3000}\n", "ab", "\u{2003}"] {
        assert_eq!(trim(s), s.trim());
    }
}

#[test]
fn splitting_as_std_does() {
    for s in ["", "a", "a/b", "a/b/c", "/", "a//b"] {
        for n in 1..4usize {
            let want: Vec<String> = s.splitn(n, '/').map(|p| p.to_string()).collect();
            assert_eq!(split_limited(s, '/', n), want);
        }
    }
}

#[test]
fn prefixes_as_std_does() {
    for (s, p) in [("Bearer x", "Bearer "), ("Bea", "Bearer "), ("", ""), ("é!", "é")] {
        assert_eq!(strip_prefix(s, p), s.strip_prefix(p).map(|r| r.to_string()));
    }
}

#[test]
fn searching_as_std_does() {
    for (s, p) in [("github", "hub"), ("github", ""), ("aab", "ab"), ("a", "ab"), ("", "x")] {
        assert_eq!(contains(s, p), s.contains(p));
    }
}

#[test]
fn numbers_in_decimal() {
    for n in [0u64, 7, 10, 12345, u64::MAX] {
        assert_eq!(decimal(n), n.to_string());
    }
}

#[test]
fn bytes_are_cut_between_characters_only() {
    assert_eq!(byte_prefix("aéb", 1), Some("a".to_string()));
    assert_eq!(byte_prefix("aéb", 2), None);
    assert_eq!(byte_prefix("aéb", 3), Some("aé".to_string()));
    assert_eq!(byte_prefix("aéb", 5), None);
    assert_eq!(size("aéb"), 4);
}

#[test]
fn padding_counts_characters() {
    assert_eq!(pad("é", 3, ' '), format!("{:<3}", "é"));
    assert_eq!(pad("", 3, '-'), "---");
    assert_eq!(pad("abcd", 3, '-'), "abcd");
}

#[test]
fn joining_and_comparing() {
    assert_eq!(join(&vec![], ", "), "");
    assert_eq!(join(&vec!["a".to_string(), "b".to_string()], ", "), "a, b");
    assert!(same("é", "é"));
    assert!(!same("e", "é"));
}

#[test]
fn proper_names() {
    for name in ["github", "api-key", "a.b_c-D9", "x"] {
        assert_eq!(check_name(name), None);
        assert!(validate_name(name, "service").is_ok());
    }
    assert_eq!(check_name(&"a".repeat(128)), None);
}

#[test]
fn improper_names() {
    assert_eq!(check_name(""), Some(NameProblem::Empty));
    assert_eq!(check_name(&"a".repeat(129)), Some(NameProblem::TooLong));
    for name in ["a/b", "a b", "é", "a\n", "*"] {
        assert_eq!(check_name(name), Some(NameProblem::Characters));
    }
    assert_eq!(
        validate_name("", "service"),
        Err("service name cannot be empty".to_string())
    );
    assert_eq!(
        validate_name(&"a".repeat(129), "key"),
        Err("key name too long (max 128 characters)".to_string())
    );
    assert_eq!(
        validate_name("a b", "key"),
        Err("key name may only contain alphanumeric characters, hyphens, underscores and dots"
            .to_string())
    );
}

#[test]
fn points_in_time_as_texts() {
    let t = Timestamp::new(1_704_164_645, 0).unwrap();
    assert_eq!(t.to_rfc3339(), "2024-01-02T03:04:05+00:00");
    assert_eq!(t.to_minute(), "2024-01-02 03:04");
    let u = Timestamp::new(1_704_164_645, 500_000_000).unwrap();
    assert_eq!(u.to_rfc3339(), "2024-01-02T03:04:05.500+00:00");
    assert!(t.at_or_before(&u));
    assert!(!u.at_or_before(&t));
}

#[test]
fn points_in_time_from_texts() {
    let t = Timestamp::parse_rfc3339("2024-01-02T04:04:05+01:00").unwrap();
    assert_eq!((t.secs(), t.nanos()), (1_704_164_645, 0));
    assert!(Timestamp::parse_rfc3339("2024-01-02 03:04:05").is_none());
    assert!(Timestamp::parse_rfc3339("yesterday").is_none());
}

#[test]
fn points_in_time_outside_the_calendar() {
    assert!(Timestamp::new(i64::MAX, 0).is_none());
    assert!(Timestamp::new(0, 2_000_000_000).is_none());
    assert!(Timestamp::new(0, 1_000_000_000).is_none());
    assert!(Timestamp::new(59, 1_999_999_999).is_some());
    assert!(Timestamp::new(-8_334_601_228_800, 0).unwrap().to_rfc3339().len() > 0);
    assert!(Timestamp::new(8_210_266_876_799, 0).unwrap().to_rfc3339().len() > 0);
}

#[test]
fn the_present_is_after_the_past() {
    let past = Timestamp::new(1_704_164_645, 0).unwrap();
    let now = Timestamp::now();
    assert!(past.at_or_before(&now));
    assert!(now.nanos() < 1_000_000_000);
    assert_eq!(Timestamp::new(now.secs(), now.nanos()), Some(now));
}
