use keep_a_changelog_parser::{parse, Date, Diagnostics, Item, MdEvent, Severity, Span, Version};

fn file_id_for(src: &str) -> codespan::FileId {
    let mut files = codespan::Files::new();
    files.add("CHANGELOG.md", src.to_string())
}

/// The text an item's own body events spell, ignoring everything but text.
fn item_text(item: &Item) -> String {
    let mut out = String::new();
    for ev in &item.body {
        if let MdEvent::Text(bytes) = ev {
            out.push_str(&String::from_utf8(bytes.clone()).unwrap());
        }
    }
    out
}

#[test]
fn no_level_2_headings_mean_no_releases_and_no_diagnostics() {
    let src = "Just a paragraph.\n\n# A top-level heading\n\n### A deeper heading\n\n- a list\n";
    let mut diags = Diagnostics::new();
    let log = parse(file_id_for(src), src, &mut diags);
    assert_eq!(log.releases.len(), 0);
    assert_eq!(diags.diagnostics().len(), 0);
    assert!(!diags.contains_at_least(Severity::Help));
}

#[test]
fn well_formed_heading_gives_version_date_and_span() {
    let src = "## [1.2.3] - 2020-01-02";
    let mut diags = Diagnostics::new();
    let log = parse(file_id_for(src), src, &mut diags);
    assert_eq!(diags.diagnostics().len(), 0);
    assert_eq!(log.releases.len(), 1);
    let rel = &log.releases[0];
    assert_eq!(rel.version, Some(Version { major: 1, minor: 2, patch: 3 }));
    assert_eq!(rel.date, Some(Date { year: 2020, month: 1, day: 2 }));
    assert_eq!(rel.span, Span { start: 0, end: src.len() });
}

#[test]
fn unreleased_heading_parses_without_version_or_date() {
    for src in ["## Unreleased", "## UNRELEASED", "## uNrElEaSeD"] {
        let mut diags = Diagnostics::new();
        let log = parse(file_id_for(src), src, &mut diags);
        assert_eq!(diags.diagnostics().len(), 0);
        assert_eq!(log.releases.len(), 1);
        assert_eq!(log.releases[0].version, None);
        assert_eq!(log.releases[0].date, None);
    }
}

#[test]
fn unparsable_heading_gives_one_diagnostic_and_resynchronizes() {
    let src = "## Not A Version\n\n## [1.0.0] - 2020-01-02\n";
    let mut diags = Diagnostics::new();
    let log = parse(file_id_for(src), src, &mut diags);
    assert_eq!(diags.diagnostics().len(), 1);
    let d = &diags.diagnostics()[0];
    assert_eq!(d.severity, Severity::Error);
    assert_eq!(d.message, "expected a semantic version or the word Unreleased");
    assert!(diags.contains_at_least(Severity::Error));
    assert!(!diags.contains_at_least(Severity::Bug));
    assert_eq!(log.releases.len(), 1);
    assert_eq!(log.releases[0].version, Some(Version { major: 1, minor: 0, patch: 0 }));
}

#[test]
fn bad_date_gives_one_diagnostic() {
    let src = "## [1.0.0] - not-a-date\n";
    let mut diags = Diagnostics::new();
    let log = parse(file_id_for(src), src, &mut diags);
    assert_eq!(log.releases.len(), 0);
    assert_eq!(diags.diagnostics().len(), 1);
    assert_eq!(diags.diagnostics()[0].message, "expected a release date like 2020-01-02");
}

#[test]
fn trailing_text_after_date_gives_one_diagnostic() {
    let src = "## [1.0.0] - 2020-01-02 oops\n";
    let mut diags = Diagnostics::new();
    let log = parse(file_id_for(src), src, &mut diags);
    assert_eq!(log.releases.len(), 0);
    assert_eq!(diags.diagnostics().len(), 1);
    assert_eq!(diags.diagnostics()[0].message, "unexpected text after the release date");
}

#[test]
fn huge_version_number_is_rejected() {
    let src = "## [99999999999999999999.0.0] - 2020-01-02\n";
    let mut diags = Diagnostics::new();
    let log = parse(file_id_for(src), src, &mut diags);
    assert_eq!(log.releases.len(), 0);
    assert_eq!(diags.diagnostics().len(), 1);
    assert_eq!(diags.diagnostics()[0].message, "expected a semantic version or the word Unreleased");
}

#[test]
fn added_items_populate_added_in_order_and_unrecognized_sections_drop() {
    let src = "## [1.0.0] - 2020-01-02\n\n### Added\n\n- First entry\n- Second entry\n\n### Deprecated\n\n- Hidden entry\n";
    let mut diags = Diagnostics::new();
    let log = parse(file_id_for(src), src, &mut diags);
    assert_eq!(diags.diagnostics().len(), 0);
    assert_eq!(log.releases.len(), 1);
    let changes = &log.releases[0].changes;
    assert_eq!(changes.added.len(), 2);
    assert_eq!(item_text(&changes.added[0]), "First entry");
    assert_eq!(item_text(&changes.added[1]), "Second entry");
    assert_eq!(changes.changed.len(), 0);
    assert_eq!(changes.fixed.len(), 0);
}

#[test]
fn nested_list_items_become_children() {
    let src = "## [1.0.0] - 2020-01-02\n\n### Added\n\n- Parent entry\n  - Child entry\n";
    let mut diags = Diagnostics::new();
    let log = parse(file_id_for(src), src, &mut diags);
    assert_eq!(diags.diagnostics().len(), 0);
    assert_eq!(log.releases.len(), 1);
    let added = &log.releases[0].changes.added;
    assert_eq!(added.len(), 1);
    assert_eq!(item_text(&added[0]), "Parent entry");
    assert_eq!(added[0].children.len(), 1);
    assert_eq!(item_text(&added[0].children[0]), "Child entry");
}

#[test]
fn link_definition_is_attached_to_the_release() {
    let src = "## [1.0.0] - 2020-01-02\n\n[1.0.0]: https://example.com/v1\n";
    let mut diags = Diagnostics::new();
    let log = parse(file_id_for(src), src, &mut diags);
    assert_eq!(log.releases.len(), 1);
    assert_eq!(log.releases[0].link, Some(b"https://example.com/v1".to_vec()));
}

#[test]
fn reparsing_the_same_source_is_idempotent() {
    let src = "## [2.0.0] - 2021-06-01\n\n### Added\n\n- Support X\n\n## Not A Version\n\n## Unreleased\n";
    let mut diags1 = Diagnostics::new();
    let log1 = parse(file_id_for(src), src, &mut diags1);
    let mut diags2 = Diagnostics::new();
    let log2 = parse(file_id_for(src), src, &mut diags2);
    assert_eq!(log1, log2);
    assert_eq!(diags1.diagnostics().len(), diags2.diagnostics().len());
}

#[test]
fn changelog_span_covers_the_whole_source() {
    let sources = [
        "",
        "plain text",
        "## [1.2.3] - 2020-01-02\n\n### Added\n\n- One entry\n",
        "## Not A Version\n",
    ];
    for src in sources {
        let mut diags = Diagnostics::new();
        let log = parse(file_id_for(src), src, &mut diags);
        assert_eq!(log.span, Span { start: 0, end: src.len() });
    }
}

#[test]
fn two_releases_end_to_end() {
    let src = "## [2.0.0] - 2021-06-01\n\n### Added\n\n- Support X\n\n## [1.0.0] - 2021-01-01\n\n### Fixed\n\n- Crash on Y\n";
    let mut diags = Diagnostics::new();
    let log = parse(file_id_for(src), src, &mut diags);
    assert_eq!(diags.diagnostics().len(), 0);
    assert_eq!(log.releases.len(), 2);

    let first = &log.releases[0];
    assert_eq!(first.version, Some(Version { major: 2, minor: 0, patch: 0 }));
    assert_eq!(first.date, Some(Date { year: 2021, month: 6, day: 1 }));
    assert_eq!(first.changes.added.len(), 1);
    assert_eq!(item_text(&first.changes.added[0]), "Support X");
    assert_eq!(first.changes.changed.len(), 0);
    assert_eq!(first.changes.fixed.len(), 0);

    let second = &log.releases[1];
    assert_eq!(second.version, Some(Version { major: 1, minor: 0, patch: 0 }));
    assert_eq!(second.date, Some(Date { year: 2021, month: 1, day: 1 }));
    assert_eq!(second.changes.fixed.len(), 1);
    assert_eq!(item_text(&second.changes.fixed[0]), "Crash on Y");
    assert_eq!(second.changes.added.len(), 0);
    assert_eq!(second.changes.changed.len(), 0);
}
