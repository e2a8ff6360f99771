use rs_commitizien::commit::{format_string, CommitFooter, CommitType, ConventionalCommit};
use rs_commitizien::parser::{
    exitst_breaking_change_footer, parse_body_and_footers, parse_conventional_commit,
    validate_commit, CommitDefect, ParseError,
};

#[test]
fn plain_keyword_message_parses_cleanly() {
    let commit = parse_conventional_commit("build: add release pipeline").unwrap();
    let expected = ConventionalCommit {
        commit_type: CommitType::Build,
        scope: None,
        is_breaking_change: false,
        summary: "add release pipeline".to_owned(),
        body: None,
        footer: None,
    };
    assert_eq!(commit, expected);
}

#[test]
fn tests_keyword_is_an_alias_for_test() {
    let commit = parse_conventional_commit("tests: cover the parser").unwrap();
    assert_eq!(commit.commit_type, CommitType::Test);
    assert_eq!(commit.summary, "cover the parser".to_owned());
}

#[test]
fn bang_header_is_breaking() {
    let commit = parse_conventional_commit("feat!: description").unwrap();
    assert_eq!(commit.commit_type, CommitType::Feat);
    assert!(commit.is_breaking_change);
    assert_eq!(commit.scope, None);
}

#[test]
fn scoped_bang_header_is_breaking_with_scope() {
    let commit = parse_conventional_commit("feat(api)!: description").unwrap();
    assert_eq!(commit.commit_type, CommitType::Feat);
    assert_eq!(commit.scope, Some("api".to_owned()));
    assert!(commit.is_breaking_change);
}

#[test]
fn bang_and_breaking_footer_together() {
    let commit = parse_conventional_commit("chore!: drop support for X\n\nBREAKING CHANGE: detail text").unwrap();
    assert!(commit.is_breaking_change);
    assert_eq!(
        commit.footer,
        Some(vec![CommitFooter {
            token: "BREAKING CHANGE".to_owned(),
            value: "detail text".to_owned(),
        }])
    );
}

#[test]
fn multi_paragraph_body_keeps_separators_and_drops_trailing_blank() {
    let commit = parse_conventional_commit(
        "fix: summary\n\nline1\nline2\n\nline3\n\nReviewed-by: Z\nRefs: #123",
    )
    .unwrap();
    assert_eq!(commit.summary, "summary".to_owned());
    assert_eq!(commit.body, Some("line1\nline2\n\nline3".to_owned()));
    assert_eq!(
        commit.footer,
        Some(vec![
            CommitFooter { token: "Reviewed-by".to_owned(), value: "Z".to_owned() },
            CommitFooter { token: "Refs".to_owned(), value: "#123".to_owned() },
        ])
    );
}

#[test]
fn parsing_twice_yields_equal_records() {
    let msg = "fix(core)!: stop the race\n\nSome body text.\n\nRefs: #9";
    let first = parse_conventional_commit(msg).unwrap();
    let second = parse_conventional_commit(msg).unwrap();
    assert_eq!(first, second);
}

#[test]
fn invalid_type_token_is_reported() {
    let err = parse_conventional_commit("foo: bar").unwrap_err();
    assert_eq!(
        err,
        ParseError::InvalidCommit(vec![CommitDefect::InvalidType("foo".to_owned())])
    );
}

#[test]
fn empty_summary_is_reported() {
    let err = parse_conventional_commit("feat: ").unwrap_err();
    assert_eq!(err, ParseError::InvalidCommit(vec![CommitDefect::EmptySummary]));
}

#[test]
fn missing_separator_is_malformed() {
    let err = parse_conventional_commit("feat:").unwrap_err();
    assert_eq!(err, ParseError::MalformedHeader);
    let err = parse_conventional_commit("just some words").unwrap_err();
    assert_eq!(err, ParseError::MalformedHeader);
}

#[test]
fn both_defects_are_reported_together() {
    let err = parse_conventional_commit("foo: ").unwrap_err();
    assert_eq!(
        err,
        ParseError::InvalidCommit(vec![
            CommitDefect::InvalidType("foo".to_owned()),
            CommitDefect::EmptySummary,
        ])
    );
}

#[test]
fn missing_type_is_reported() {
    let err = parse_conventional_commit(": no type here").unwrap_err();
    assert_eq!(err, ParseError::InvalidCommit(vec![CommitDefect::MissingType]));
}

#[test]
fn empty_scope_parens_mean_no_scope() {
    let commit = parse_conventional_commit("feat(): add it").unwrap();
    assert_eq!(commit.scope, None);
}

#[test]
fn footer_lines_before_a_blank_line_stay_in_the_summary() {
    let commit = parse_conventional_commit("feat: a\nRefs: #1").unwrap();
    assert_eq!(commit.summary, "a\nRefs: #1".to_owned());
    assert_eq!(commit.body, None);
    assert_eq!(commit.footer, None);
}

#[test]
fn empty_footer_token_is_kept() {
    let commit = parse_conventional_commit("feat: s\n\n: v").unwrap();
    assert_eq!(
        commit.footer,
        Some(vec![CommitFooter { token: "".to_owned(), value: "v".to_owned() }])
    );
    assert_eq!(commit.body, None);
}

#[test]
fn footer_value_is_everything_after_the_first_separator() {
    let commit = parse_conventional_commit("feat: s\n\nRefs: a: b").unwrap();
    assert_eq!(
        commit.footer,
        Some(vec![CommitFooter { token: "Refs".to_owned(), value: "a: b".to_owned() }])
    );
}

#[test]
fn all_blank_tail_segment_means_no_body() {
    let commit = parse_conventional_commit("feat: s\n\n\n").unwrap();
    assert_eq!(commit.body, None);
    assert_eq!(commit.footer, None);
}

#[test]
fn body_lines_around_a_footer_both_count() {
    let commit = parse_conventional_commit("feat: s\n\nbody1\nRefs: 1\nbody2").unwrap();
    assert_eq!(commit.body, Some("body1\nbody2\n".to_owned()));
    assert_eq!(
        commit.footer,
        Some(vec![CommitFooter { token: "Refs".to_owned(), value: "1".to_owned() }])
    );
}

#[test]
fn classify_strips_bangs_and_keeps_diagnostic_token() {
    assert_eq!(CommitType::classify("feat"), CommitType::Feat);
    assert_eq!(CommitType::classify("feat!"), CommitType::Feat);
    assert_eq!(CommitType::classify("tests"), CommitType::Test);
    assert_eq!(CommitType::classify(""), CommitType::MissingType);
    assert_eq!(CommitType::classify("!"), CommitType::MissingType);
    assert_eq!(
        CommitType::classify("fo!o"),
        CommitType::InvalidType("foo".to_owned())
    );
    assert_eq!(CommitType::classify("Feat"), CommitType::InvalidType("Feat".to_owned()));
}

#[test]
fn labels_are_fixed_phrases() {
    assert_eq!(CommitType::Feat.label(), "feat".to_owned());
    assert_eq!(CommitType::Refactor.label(), "refactor".to_owned());
    assert_eq!(
        CommitType::InvalidType("whatever".to_owned()).label(),
        "Invalid Commit Type".to_owned()
    );
    assert_eq!(CommitType::MissingType.label(), "Missing Commit Type".to_owned());
}

#[test]
fn format_string_wraps_in_quotes() {
    assert_eq!(format_string("abc".to_owned()), "\"abc\"".to_owned());
    assert_eq!(format_string("".to_owned()), "\"\"".to_owned());
}

#[test]
fn validate_commit_lists_every_defect() {
    let commit = ConventionalCommit {
        commit_type: CommitType::InvalidType("zzz".to_owned()),
        scope: None,
        is_breaking_change: false,
        summary: "".to_owned(),
        body: None,
        footer: None,
    };
    let defects = validate_commit(&commit);
    assert_eq!(
        defects,
        vec![CommitDefect::InvalidType("zzz".to_owned()), CommitDefect::EmptySummary]
    );
}

#[test]
fn breaking_change_footer_detection_is_exact() {
    let footers = Some(vec![
        CommitFooter { token: "Refs".to_owned(), value: "#1".to_owned() },
        CommitFooter { token: "BREAKING CHANGE".to_owned(), value: "x".to_owned() },
    ]);
    assert!(exitst_breaking_change_footer(&footers));
    let footers = Some(vec![CommitFooter {
        token: "BREAKING-CHANGE".to_owned(),
        value: "x".to_owned(),
    }]);
    assert!(!exitst_breaking_change_footer(&footers));
    assert!(!exitst_breaking_change_footer(&None));
}

#[test]
fn parse_body_and_footers_classifies_per_line() {
    let (body, footers) = parse_body_and_footers(Some("line1\nRefs: 1\nline2"));
    assert_eq!(body, Some("line1\nline2\n".to_owned()));
    assert_eq!(
        footers,
        Some(vec![CommitFooter { token: "Refs".to_owned(), value: "1".to_owned() }])
    );
    let (body, footers) = parse_body_and_footers(None);
    assert_eq!(body, None);
    assert_eq!(footers, None);
}
