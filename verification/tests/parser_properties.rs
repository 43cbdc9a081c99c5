//! Laws of the parser checked on concrete messages, its edge cases, and each
//! error it can report.

use lib::report::{commit_report, split_messages};
use lib::text::is_white_space;
use lib::{parse, Commit, CommitKind, Error, Footer, Section};

fn ok(message: &str) -> Commit {
    parse(message).unwrap()
}

#[test]
fn white_space_class_matches_std() {
    for code in 0u32..=0x10FFFF {
        if let Some(c) = char::from_u32(code) {
            assert_eq!(is_white_space(c), c.is_whitespace(), "at U+{code:04X}");
        }
    }
}

#[test]
fn surrounding_whitespace_does_not_matter() {
    let plain = "feat(ui): dark mode\n\nBody text.\n\nRefs #7";
    let padded = "\u{3000} \t\n feat(ui): dark mode\n\nBody text.\n\nRefs #7 \n\u{a0}";
    assert_eq!(parse(padded), parse(plain));
    assert_eq!(ok(padded).description, "dark mode");
}

#[test]
fn crlf_and_lf_messages_parse_alike() {
    let lf = "fix(io)!: retry reads\n\nFirst paragraph\nwith two lines.\n\nReviewed-by: A\nBREAKING-CHANGE: reads\n  now retry";
    let crlf = lf.replace('\n', "\r\n");
    assert_eq!(parse(&crlf), parse(lf));
    let commit = ok(lf);
    assert_eq!(commit.body.as_deref(), Some("First paragraph\nwith two lines."));
    assert_eq!(commit.footers[1].value, "reads now retry");
}

#[test]
fn crlf_law_needs_bare_lf_endings() {
    // A `"\r\n"` already in the message is doubled by writing every `"\n"`
    // as `"\r\n"`, and normalisation then undoes only one of them.
    let mixed = "a: x\n\nB\r\nC";
    let doubled = mixed.replace('\n', "\r\n");
    assert_eq!(ok(mixed).body.as_deref(), Some("B\nC"));
    assert_eq!(ok(&doubled).body.as_deref(), Some("B\r\nC"));
}

#[test]
fn only_whitespace_is_an_empty_message() {
    assert_eq!(parse(""), Err(Error::EmptyMessage));
    assert_eq!(parse("\r\n\t \u{2028}\u{205f}"), Err(Error::EmptyMessage));
    assert!(matches!(parse("\u{200b}"), Err(Error::MissingSeparator { .. })));
}

#[test]
fn errors_name_the_trimmed_header_line() {
    assert_eq!(
        parse("  feat(): add   \r\nmore text"),
        Err(Error::EmptyScope { header: "feat(): add".to_owned() })
    );
    assert_eq!(
        parse(": nothing before"),
        Err(Error::EmptyType { header: ": nothing before".to_owned() })
    );
    assert_eq!(
        parse("fe at: spaced type"),
        Err(Error::InvalidScope { header: "fe at: spaced type".to_owned() })
    );
    assert_eq!(
        parse("feat(a(b)): nested"),
        Err(Error::InvalidScope { header: "feat(a(b)): nested".to_owned() })
    );
    assert_eq!(
        parse("feat)x(: stray"),
        Err(Error::InvalidScope { header: "feat)x(: stray".to_owned() })
    );
    assert_eq!(
        parse("docs:\t\nbody"),
        Err(Error::EmptyDescription { header: "docs:".to_owned() })
    );
    assert_eq!(
        parse("no separator here\nx: y"),
        Err(Error::MissingSeparator { header: "no separator here".to_owned() })
    );
}

#[test]
fn error_messages_read_as_before() {
    let header = "feat()".to_owned();
    assert_eq!(Error::EmptyMessage.message(), "commit message is empty");
    assert_eq!(
        Error::MissingSeparator { header: header.clone() }.message(),
        "header `feat()` has no `<type>[scope][!]:` separator"
    );
    assert_eq!(
        Error::EmptyType { header: header.clone() }.message(),
        "commit type in `feat()` is empty"
    );
    assert_eq!(
        Error::EmptyScope { header: header.clone() }.message(),
        "commit scope in `feat()` is empty"
    );
    assert_eq!(
        Error::InvalidScope { header: header.clone() }.message(),
        "type or scope in `feat()` is malformed"
    );
    assert_eq!(
        Error::EmptyDescription { header }.message(),
        "commit description in `feat()` is empty"
    );
}

#[test]
fn breaking_flag_comes_from_bang_or_footer() {
    assert!(ok("feat!: x").breaking);
    assert!(!ok("feat: x!").breaking);
    assert!(ok("feat: x\n\nBREAKING CHANGE: y").breaking);
    assert!(ok("feat: x\n\nBREAKING-CHANGE: y").breaking);
    assert!(!ok("feat: x\n\nBREAKING CHANGE:y").breaking);
    let double = ok("feat!!: x");
    assert!(double.breaking);
    assert_eq!(double.kind, CommitKind::Other("feat!".to_owned()));
}

#[test]
fn footer_lines_and_their_forms() {
    let commit = ok("feat: x\n\nBREAKING-CHANGE: old flag removed\nCloses #12\nCo-authored-by: A <a@b>");
    assert_eq!(commit.body, None);
    assert_eq!(commit.footers.len(), 3);
    assert_eq!(commit.footers[0].token, "BREAKING CHANGE");
    assert!(commit.footers[0].is_breaking());
    assert_eq!(commit.footers[1].token, "Closes");
    assert_eq!(commit.footers[1].value, "12");
    assert!(!commit.footers[1].is_breaking());
    assert_eq!(commit.footers[2].value, "A <a@b>");

    // A reference with a space, an empty value, or a line that is neither
    // footer nor continuation turns the paragraph back into body.
    for message in [
        "feat: x\n\nRefs #1 2",
        "feat: x\n\nToken: ",
        "feat: x\n\nBREAKING CHANGE: ",
        "feat: x\n\nRefs #1\nplain words",
        "feat: x\n\nNot a footer",
    ] {
        let commit = ok(message);
        assert!(commit.footers.is_empty(), "{message:?}");
        assert!(commit.body.is_some(), "{message:?}");
    }
}

#[test]
fn continuation_lines_extend_the_footer_before_them() {
    let commit = ok("feat: x\n\nA: one\n  two\n\tthree\nB #4");
    assert_eq!(commit.footers.len(), 2);
    assert_eq!(commit.footers[0].value, "one two three");
    assert_eq!(commit.footers[1].token, "B");
}

#[test]
fn body_paragraphs_are_rejoined() {
    let commit = ok("feat: x\n\n\n  first  \n\n\n\nsecond\n\nReviewed-by: Z");
    assert_eq!(commit.body.as_deref(), Some("first\n\nsecond"));
    assert_eq!(commit.footers.len(), 1);
    assert_eq!(ok("feat: x\n   \n").body, None);
}

#[test]
fn kinds_round_trip_through_their_keywords() {
    for raw in ["feat", "fix", "docs", "style", "refactor", "perf", "test", "build", "ci", "chore", "revert", "wibble", "Feat"] {
        assert_eq!(CommitKind::from_raw(raw).as_str(), raw);
    }
    let kinds = [
        CommitKind::Feat,
        CommitKind::Fix,
        CommitKind::Docs,
        CommitKind::Style,
        CommitKind::Refactor,
        CommitKind::Perf,
        CommitKind::Test,
        CommitKind::Build,
        CommitKind::Ci,
        CommitKind::Chore,
        CommitKind::Revert,
        CommitKind::Other("wibble".to_owned()),
    ];
    for kind in kinds {
        assert_eq!(CommitKind::from_raw(kind.as_str()), kind);
    }
    // `Other` spelling a recommended type is the one kind that does not
    // come back.
    assert_eq!(CommitKind::from_raw(CommitKind::Other("fix".to_owned()).as_str()), CommitKind::Fix);
    assert_eq!(CommitKind::Other("x".to_owned()).section(), Section::Other);
}

#[test]
fn every_section_has_its_heading() {
    let cases = [
        (Section::Features, "Features"),
        (Section::BugFixes, "Bug Fixes"),
        (Section::Documentation, "Documentation"),
        (Section::Styles, "Styles"),
        (Section::Refactoring, "Refactoring"),
        (Section::Performance, "Performance"),
        (Section::Testing, "Testing"),
        (Section::BuildSystem, "Build System"),
        (Section::ContinuousIntegration, "Continuous Integration"),
        (Section::MiscellaneousChores, "Miscellaneous Chores"),
        (Section::Reverts, "Reverts"),
        (Section::Other, "Other"),
    ];
    for (section, heading) in cases {
        assert_eq!(section.heading(), heading);
    }
}

#[test]
fn footer_breaking_token_is_exact() {
    let footer = Footer { token: "BREAKING CHANGE".to_owned(), value: "x".to_owned() };
    assert!(footer.is_breaking());
    let footer = Footer { token: "BREAKING-CHANGE".to_owned(), value: "x".to_owned() };
    assert!(!footer.is_breaking());
}

#[test]
fn messages_split_on_blank_lines() {
    let input = "\n\nfeat: a\n\n\n  \n\nfix: b\nbody line\n\n";
    assert_eq!(split_messages(input), vec!["feat: a".to_owned(), "fix: b\nbody line".to_owned()]);
    assert!(split_messages(" \n\n \n").is_empty());
}

#[test]
fn reports_list_every_part() {
    let source = "feat(ui)!: dark mode\n\nAdds a toggle.\n\nRefs #3\n";
    let commit = ok(source);
    assert_eq!(
        commit_report(source, &commit),
        vec![
            "feat(ui)!: dark mode\n\nAdds a toggle.\n\nRefs #3".to_owned(),
            "  section:  Features".to_owned(),
            "  type:     feat".to_owned(),
            "  scope:    ui".to_owned(),
            "  breaking: yes".to_owned(),
            "  body:     Adds a toggle.".to_owned(),
            "  footer:   Refs: 3".to_owned(),
        ]
    );
    let commit = ok("chore: tidy");
    assert_eq!(
        commit_report("chore: tidy", &commit),
        vec![
            "chore: tidy".to_owned(),
            "  section:  Miscellaneous Chores".to_owned(),
            "  type:     chore".to_owned(),
            "  scope:    -".to_owned(),
            "  breaking: no".to_owned(),
            "  body:     -".to_owned(),
        ]
    );
}

#[test]
fn non_ascii_text_is_kept_whole() {
    let commit = ok("féat(ünï): añadir ✓\n\nCuerpo — con acentos.\n\nRevisado-por: Zoë");
    assert_eq!(commit.kind, CommitKind::Other("féat".to_owned()));
    assert_eq!(commit.scope.as_deref(), Some("ünï"));
    assert_eq!(commit.description, "añadir ✓");
    // `Revisado-por: Zoë` is a footer; the token stops at ASCII word
    // characters.
    assert_eq!(commit.footers.len(), 1);
    assert_eq!(commit.footers[0].value, "Zoë");
}

#[test]
fn footer_values_are_trimmed() {
    let commit = ok("feat: x\n\nA:   one  \n  two \nB #9");
    assert_eq!(commit.footers[0].value, "one two");
    assert_eq!(commit.footers[1].value, "9");
    // A whitespace-only continuation line adds nothing.
    let commit = ok("feat: x\n\nRefs: a\n \nFixes #2");
    assert_eq!(
        commit.footers,
        vec![
            Footer { token: "Refs".to_owned(), value: "a".to_owned() },
            Footer { token: "Fixes".to_owned(), value: "2".to_owned() },
        ]
    );
}

#[test]
fn stray_parentheses_before_a_scope_are_malformed() {
    for header in ["fix)parser(x): handle stray parens", "fe)at(x): y"] {
        assert_eq!(parse(header), Err(Error::InvalidScope { header: header.to_owned() }));
    }
}

#[test]
fn scopes_hold_no_whitespace() {
    assert_eq!(parse("feat( ): x"), Err(Error::EmptyScope { header: "feat( ): x".to_owned() }));
    assert_eq!(
        parse("feat(\t\u{3000}): x"),
        Err(Error::EmptyScope { header: "feat(\t\u{3000}): x".to_owned() })
    );
    assert_eq!(
        parse("feat(my scope): x"),
        Err(Error::InvalidScope { header: "feat(my scope): x".to_owned() })
    );
    assert_eq!(ok("feat(my-scope): x").scope.as_deref(), Some("my-scope"));
}

#[test]
fn crlf_blank_lines_separate_messages() {
    assert_eq!(
        split_messages("feat: a\r\n\r\nfix: b\r\n"),
        vec!["feat: a".to_owned(), "fix: b".to_owned()]
    );
}

#[test]
fn the_header_line_decides_the_header() {
    let alone = ok("fix(io)!: retry");
    let followed = ok("fix(io)!: retry\nmore\n\nRefs #1");
    assert_eq!(followed.kind, alone.kind);
    assert_eq!(followed.scope, alone.scope);
    assert_eq!(followed.description, alone.description);
    assert!(followed.breaking);
    assert_eq!(parse("nope\n\nRefs #1"), parse("nope"));
}

#[test]
fn headers_and_footers_parse_back_from_their_parts() {
    for (kind, scope, bang, description) in [
        ("feat", None, false, "add a thing"),
        ("fix", Some("api"), true, "a: b"),
        ("wibble!", Some("x"), false, "y"),
        ("wibble!", None, true, "z"),
    ] {
        let scope_text = scope.map_or(String::new(), |s| format!("({s})"));
        let mark = if bang { "!" } else { "" };
        let commit = ok(&format!("{kind}{scope_text}{mark}: {description}"));
        assert_eq!(commit.kind, CommitKind::from_raw(kind));
        assert_eq!(commit.scope.as_deref(), scope);
        assert_eq!(commit.breaking, bang);
        assert_eq!(commit.description, description);
    }
    for (token, value) in [("Reviewed-by", "Z"), ("BREAKING", "x y"), ("a1-", "v")] {
        let commit = ok(&format!("feat: x\n\n{token}: {value}"));
        assert_eq!(commit.footers, vec![Footer { token: token.to_owned(), value: value.to_owned() }]);
        let commit = ok(&format!("feat: x\n\n{token} #{}", value.replace(' ', "")));
        assert_eq!(commit.footers[0].token, token);
    }
    // `BREAKING-CHANGE: v` reads as the `BREAKING CHANGE` token.
    assert_eq!(ok("feat: x\n\nBREAKING-CHANGE: v").footers[0].token, "BREAKING CHANGE");
    assert_eq!(ok("feat: x\n\nBREAKING-CHANGE #3").footers[0].token, "BREAKING-CHANGE");
}

#[test]
fn error_messages_quote_the_header_and_differ_by_variant() {
    let h = "h";
    let errors = [
        Error::EmptyMessage,
        Error::MissingSeparator { header: h.to_owned() },
        Error::EmptyType { header: h.to_owned() },
        Error::EmptyScope { header: h.to_owned() },
        Error::InvalidScope { header: h.to_owned() },
        Error::EmptyDescription { header: h.to_owned() },
    ];
    for (i, a) in errors.iter().enumerate() {
        if i > 0 {
            assert!(a.message().contains("`h`"));
        }
        for b in &errors[i + 1..] {
            assert_ne!(a.message(), b.message());
        }
    }
}
