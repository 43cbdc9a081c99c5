//! Unit-level scenarios for the commit parser.

use lib::{parse, CommitKind, Error, Section};

#[test]
fn parses_a_minimal_header() {
    let commit = parse("feat: send password reset emails").unwrap();

    assert_eq!(commit.kind, CommitKind::Feat);
    assert_eq!(commit.scope, None);
    assert!(!commit.breaking);
    assert_eq!(commit.description, "send password reset emails");
    assert_eq!(commit.body, None);
    assert!(commit.footers.is_empty());
}

#[test]
fn parses_scope_and_bang_marker() {
    let commit = parse("fix(api)!: stop crashing on empty input").unwrap();

    assert_eq!(commit.kind, CommitKind::Fix);
    assert_eq!(commit.scope.as_deref(), Some("api"));
    assert!(commit.breaking);
}

#[test]
fn breaking_change_via_footer() {
    let message = "\
feat: switch the config format

The config file is now TOML.

BREAKING CHANGE: drop support for INI files";

    let commit = parse(message).unwrap();

    assert!(commit.breaking);
    assert_eq!(commit.body.as_deref(), Some("The config file is now TOML."));
    assert_eq!(commit.footers.len(), 1);
    assert_eq!(commit.footers[0].token, "BREAKING CHANGE");
    assert_eq!(commit.footers[0].value, "drop support for INI files");
}

#[test]
fn keeps_the_body_when_there_is_no_footer() {
    let message = "\
refactor: tidy the parser

The parser now normalises CRLF line endings.

It also trims trailing whitespace.";

    let commit = parse(message).unwrap();

    assert!(commit.footers.is_empty());
    assert_eq!(
        commit.body.as_deref(),
        Some(
            "The parser now normalises CRLF line endings.\n\n\
             It also trims trailing whitespace."
        )
    );
}

#[test]
fn joins_footer_continuation_lines() {
    let message = "\
feat: multi-line footer

BREAKING CHANGE: the CLI now
  requires a subcommand";

    let commit = parse(message).unwrap();

    assert_eq!(
        commit.footers[0].value,
        "the CLI now requires a subcommand"
    );
}

#[test]
fn reads_multiple_footers() {
    let message = "\
docs: expand the README

More words.

Reviewed-by: Z
Refs #1337";

    let commit = parse(message).unwrap();

    assert_eq!(commit.body.as_deref(), Some("More words."));
    assert_eq!(commit.footers.len(), 2);
    assert_eq!(commit.footers[0].token, "Reviewed-by");
    assert_eq!(commit.footers[0].value, "Z");
    assert_eq!(commit.footers[1].token, "Refs");
    assert_eq!(commit.footers[1].value, "1337");
}

#[test]
fn keeps_a_body_paragraph_that_only_looks_like_a_footer() {
    let message = "chore: cleanup\n\nSee the migration guide for details.";
    let commit = parse(message).unwrap();

    assert!(commit.footers.is_empty());
    assert_eq!(
        commit.body.as_deref(),
        Some("See the migration guide for details.")
    );
}

#[test]
fn unknown_types_fall_back_to_other() {
    let commit = parse("wibble: recalibrate the frobnicator").unwrap();

    assert_eq!(commit.kind, CommitKind::Other("wibble".to_owned()));
    assert_eq!(commit.kind.as_str(), "wibble");
    assert_eq!(commit.section(), Section::Other);
}

#[test]
fn rejects_a_header_without_a_separator() {
    let error = parse("feat send emails").unwrap_err();

    assert_eq!(
        error,
        Error::MissingSeparator {
            header: "feat send emails".to_owned()
        }
    );
}

#[test]
fn rejects_an_empty_description() {
    let error = parse("feat:   ").unwrap_err();

    assert!(matches!(error, Error::EmptyDescription { .. }));
}

#[test]
fn rejects_an_empty_scope() {
    let error = parse("feat(): add a thing").unwrap_err();

    assert!(matches!(error, Error::EmptyScope { .. }));
}

#[test]
fn rejects_a_malformed_scope() {
    let error = parse("fix)parser: handle stray parens").unwrap_err();

    assert!(matches!(error, Error::InvalidScope { .. }));
}

#[test]
fn rejects_a_message_that_is_only_whitespace() {
    assert_eq!(parse("   \n \n"), Err(Error::EmptyMessage));
}
