use keep_a_changelog_parser::header::{header_parse_exec, HeaderErr};
use keep_a_changelog_parser::sections::{classify, SectionKind};
use keep_a_changelog_parser::{Date, Version};

#[test]
fn header_text_with_version_and_date() {
    let text = b"[1.2.3] - 2020-01-02".to_vec();
    let parsed = header_parse_exec(&text);
    assert_eq!(
        parsed,
        Ok((
            Some(Version { major: 1, minor: 2, patch: 3 }),
            Some(Date { year: 2020, month: 1, day: 2 }),
        ))
    );
}

#[test]
fn header_text_with_bare_version() {
    let text = b"10.20.30".to_vec();
    let parsed = header_parse_exec(&text);
    assert_eq!(parsed, Ok((Some(Version { major: 10, minor: 20, patch: 30 }), None)));
}

#[test]
fn header_text_unreleased_any_case() {
    for word in ["Unreleased", "unreleased", "UNRELEASED", "  Unreleased  "] {
        let text = word.as_bytes().to_vec();
        assert_eq!(header_parse_exec(&text), Ok((None, None)));
    }
}

#[test]
fn header_text_failures_name_the_failing_token() {
    assert_eq!(
        header_parse_exec(&b"Not A Version".to_vec()),
        Err(HeaderErr::ExpectedVersion)
    );
    assert_eq!(header_parse_exec(&b"1.2".to_vec()), Err(HeaderErr::ExpectedVersion));
    assert_eq!(
        header_parse_exec(&b"[1.2.3] - 2020-1-2".to_vec()),
        Err(HeaderErr::BadDate)
    );
    assert_eq!(
        header_parse_exec(&b"[1.2.3] - 2020-13-02".to_vec()),
        Err(HeaderErr::BadDate)
    );
    assert_eq!(
        header_parse_exec(&b"[1.2.3] - 2020-01-02 tail".to_vec()),
        Err(HeaderErr::Trailing)
    );
}

#[test]
fn version_components_must_fit_a_u64() {
    assert_eq!(
        header_parse_exec(&b"18446744073709551615.0.0".to_vec()),
        Ok((Some(Version { major: u64::MAX, minor: 0, patch: 0 }), None))
    );
    assert_eq!(
        header_parse_exec(&b"0.18446744073709551615.1".to_vec()),
        Ok((Some(Version { major: 0, minor: u64::MAX, patch: 1 }), None))
    );
    assert_eq!(
        header_parse_exec(&b"18446744073709551616.0.0".to_vec()),
        Err(HeaderErr::ExpectedVersion)
    );
}

#[test]
fn classify_matches_the_section_vocabulary_case_insensitively() {
    assert_eq!(classify(&b"Added".to_vec()), SectionKind::Added);
    assert_eq!(classify(&b" ADDED ".to_vec()), SectionKind::Added);
    assert_eq!(classify(&b"changed".to_vec()), SectionKind::Changed);
    assert_eq!(classify(&b"FiXeD".to_vec()), SectionKind::Fixed);
    assert_eq!(classify(&b"Deprecated".to_vec()), SectionKind::Unrecognized);
    assert_eq!(classify(&b"Addedd".to_vec()), SectionKind::Unrecognized);
    assert_eq!(classify(&b"".to_vec()), SectionKind::Unrecognized);
}
