//! Parsing of Conventional Commits messages.
//!
//! The parser covers the practical subset of the specification: a
//! `<type>[scope][!]: <description>` header, an optional body and an optional
//! footer block, including the `BREAKING CHANGE:` footer. Anything it cannot
//! make sense of becomes an [`Error`] instead of a guessed commit.
//!
//! Each step has a spec function over `Seq<char>` (prefixed `spec_`) that says
//! what it computes, and an executable function that works on a range of the
//! normalised message and is proved to compute exactly that.
use vstd::prelude::*;

use crate::error::{Error, SpecError};
use crate::text::{
    chars_of, contains_char, contains_white_space, find_char, has_white_space, index_of,
    join_paragraphs, joined, line_ranges, lines, normalize_newlines, normalized, paragraph_ranges,
    paragraphs, push_char, push_range, slices, starts_with, starts_with_str, str_eq, string_of,
    trim, trim_end, trim_end_range, trim_range, within,
};

verus! {

/// A single parsed commit message.
#[derive(Debug, Clone, PartialEq, Eq)]
pub struct Commit {
    /// The type of change, e.g. `feat` or `fix`.
    pub kind: CommitKind,
    /// The optional scope, e.g. `api` in `feat(api): ...`.
    pub scope: Option<String>,
    /// Whether the commit is marked as a breaking change, either through a
    /// trailing `!` in the header or a `BREAKING CHANGE:` footer.
    pub breaking: bool,
    /// The subject following the `:` in the header.
    pub description: String,
    /// The free-form body between the header and the footer block.
    pub body: Option<String>,
    /// Structured footers, e.g. `Reviewed-by: Z` or `Closes #12`.
    pub footers: Vec<Footer>,
}

/// A single footer line, e.g. `Reviewed-by: Z` or `Closes #12`.
#[derive(Debug, Clone, PartialEq, Eq)]
pub struct Footer {
    /// The footer token, e.g. `Reviewed-by`, `Closes` or `BREAKING CHANGE`.
    pub token: String,
    /// Everything after the separator, trimmed.
    pub value: String,
}

/// The type of a conventional commit.
#[derive(Debug, Clone, PartialEq, Eq)]
pub enum CommitKind {
    /// New feature (`feat`).
    Feat,
    /// Bug fix (`fix`).
    Fix,
    /// Documentation only (`docs`).
    Docs,
    /// Code style: formatting, whitespace, typos (`style`).
    Style,
    /// Refactor that neither fixes a bug nor adds a feature (`refactor`).
    Refactor,
    /// Performance improvement (`perf`).
    Perf,
    /// Adding or correcting tests (`test`).
    Test,
    /// Build system or dependency changes (`build`).
    Build,
    /// CI configuration and pipelines (`ci`).
    Ci,
    /// Maintenance that touches neither `src` nor tests (`chore`).
    Chore,
    /// Reverts a previous commit (`revert`).
    Revert,
    /// Any type outside the recommended set.
    Other(String),
}

/// The changelog section a commit is grouped under.
///
/// The headings mirror the defaults used by git-cliff so both tools agree on
/// a changelog.
#[derive(Debug, Clone, Copy, PartialEq, Eq, Structural)]
pub enum Section {
    /// Changes landed by `feat` commits.
    Features,
    /// Changes landed by `fix` commits.
    BugFixes,
    /// Changes landed by `docs` commits.
    Documentation,
    /// Changes landed by `style` commits.
    Styles,
    /// Changes landed by `refactor` commits.
    Refactoring,
    /// Changes landed by `perf` commits.
    Performance,
    /// Changes landed by `test` commits.
    Testing,
    /// Changes landed by `build` commits.
    BuildSystem,
    /// Changes landed by `ci` commits.
    ContinuousIntegration,
    /// Changes landed by `chore` commits.
    MiscellaneousChores,
    /// Changes landed by `revert` commits.
    Reverts,
    /// Anything typed outside the recommended set.
    Other,
}

/// The model of a [`CommitKind`]: the same variants, the raw type of
/// `Other` as its characters.
pub enum SpecCommitKind {
    Feat,
    Fix,
    Docs,
    Style,
    Refactor,
    Perf,
    Test,
    Build,
    Ci,
    Chore,
    Revert,
    Other(Seq<char>),
}

/// The model of a [`Footer`].
pub struct SpecFooter {
    pub token: Seq<char>,
    pub value: Seq<char>,
}

/// The model of a [`Commit`].
pub struct SpecCommit {
    pub kind: SpecCommitKind,
    pub scope: Option<Seq<char>>,
    pub breaking: bool,
    pub description: Seq<char>,
    pub body: Option<Seq<char>>,
    pub footers: Seq<SpecFooter>,
}

/// The characters of an optional string.
pub open spec fn opt_view(s: Option<String>) -> Option<Seq<char>> {
    match s {
        Some(s) => Some(s@),
        None => None,
    }
}

/// The models of a sequence of footers.
pub open spec fn footers_view(footers: Seq<Footer>) -> Seq<SpecFooter> {
    footers.map_values(|f: Footer| f@)
}

impl View for Footer {
    type V = SpecFooter;

    open spec fn view(&self) -> SpecFooter {
        SpecFooter { token: self.token@, value: self.value@ }
    }
}

impl View for CommitKind {
    type V = SpecCommitKind;

    open spec fn view(&self) -> SpecCommitKind {
        match self {
            CommitKind::Feat => SpecCommitKind::Feat,
            CommitKind::Fix => SpecCommitKind::Fix,
            CommitKind::Docs => SpecCommitKind::Docs,
            CommitKind::Style => SpecCommitKind::Style,
            CommitKind::Refactor => SpecCommitKind::Refactor,
            CommitKind::Perf => SpecCommitKind::Perf,
            CommitKind::Test => SpecCommitKind::Test,
            CommitKind::Build => SpecCommitKind::Build,
            CommitKind::Ci => SpecCommitKind::Ci,
            CommitKind::Chore => SpecCommitKind::Chore,
            CommitKind::Revert => SpecCommitKind::Revert,
            CommitKind::Other(raw) => SpecCommitKind::Other(raw@),
        }
    }
}

impl View for Commit {
    type V = SpecCommit;

    open spec fn view(&self) -> SpecCommit {
        SpecCommit {
            kind: self.kind@,
            scope: opt_view(self.scope),
            breaking: self.breaking,
            description: self.description@,
            body: opt_view(self.body),
            footers: footers_view(self.footers@),
        }
    }
}

/// The token that marks a breaking-change footer.
pub open spec fn breaking_token() -> Seq<char> {
    "BREAKING CHANGE"@
}

/// The kind that a raw header type denotes: one of the recommended types
/// when `raw` spells it exactly, [`SpecCommitKind::Other`] otherwise.
pub open spec fn spec_from_raw(raw: Seq<char>) -> SpecCommitKind {
    if raw == "feat"@ {
        SpecCommitKind::Feat
    } else if raw == "fix"@ {
        SpecCommitKind::Fix
    } else if raw == "docs"@ {
        SpecCommitKind::Docs
    } else if raw == "style"@ {
        SpecCommitKind::Style
    } else if raw == "refactor"@ {
        SpecCommitKind::Refactor
    } else if raw == "perf"@ {
        SpecCommitKind::Perf
    } else if raw == "test"@ {
        SpecCommitKind::Test
    } else if raw == "build"@ {
        SpecCommitKind::Build
    } else if raw == "ci"@ {
        SpecCommitKind::Ci
    } else if raw == "chore"@ {
        SpecCommitKind::Chore
    } else if raw == "revert"@ {
        SpecCommitKind::Revert
    } else {
        SpecCommitKind::Other(raw)
    }
}

impl SpecCommitKind {
    /// The type keyword as it appears in the header.
    pub open spec fn keyword(self) -> Seq<char> {
        match self {
            SpecCommitKind::Feat => "feat"@,
            SpecCommitKind::Fix => "fix"@,
            SpecCommitKind::Docs => "docs"@,
            SpecCommitKind::Style => "style"@,
            SpecCommitKind::Refactor => "refactor"@,
            SpecCommitKind::Perf => "perf"@,
            SpecCommitKind::Test => "test"@,
            SpecCommitKind::Build => "build"@,
            SpecCommitKind::Ci => "ci"@,
            SpecCommitKind::Chore => "chore"@,
            SpecCommitKind::Revert => "revert"@,
            SpecCommitKind::Other(raw) => raw,
        }
    }

    /// The changelog section a commit of this kind lands in.
    pub open spec fn section(self) -> Section {
        match self {
            SpecCommitKind::Feat => Section::Features,
            SpecCommitKind::Fix => Section::BugFixes,
            SpecCommitKind::Docs => Section::Documentation,
            SpecCommitKind::Style => Section::Styles,
            SpecCommitKind::Refactor => Section::Refactoring,
            SpecCommitKind::Perf => Section::Performance,
            SpecCommitKind::Test => Section::Testing,
            SpecCommitKind::Build => Section::BuildSystem,
            SpecCommitKind::Ci => Section::ContinuousIntegration,
            SpecCommitKind::Chore => Section::MiscellaneousChores,
            SpecCommitKind::Revert => Section::Reverts,
            SpecCommitKind::Other(_) => Section::Other,
        }
    }
}

impl Section {
    /// The human-readable heading of the section.
    pub open spec fn title(self) -> Seq<char> {
        match self {
            Section::Features => "Features"@,
            Section::BugFixes => "Bug Fixes"@,
            Section::Documentation => "Documentation"@,
            Section::Styles => "Styles"@,
            Section::Refactoring => "Refactoring"@,
            Section::Performance => "Performance"@,
            Section::Testing => "Testing"@,
            Section::BuildSystem => "Build System"@,
            Section::ContinuousIntegration => "Continuous Integration"@,
            Section::MiscellaneousChores => "Miscellaneous Chores"@,
            Section::Reverts => "Reverts"@,
            Section::Other => "Other"@,
        }
    }

    /// The human-readable heading for the section.
    pub fn heading(self) -> (text: &'static str)
        ensures
            text@ == self.title(),
    {
        match self {
            Section::Features => "Features",
            Section::BugFixes => "Bug Fixes",
            Section::Documentation => "Documentation",
            Section::Styles => "Styles",
            Section::Refactoring => "Refactoring",
            Section::Performance => "Performance",
            Section::Testing => "Testing",
            Section::BuildSystem => "Build System",
            Section::ContinuousIntegration => "Continuous Integration",
            Section::MiscellaneousChores => "Miscellaneous Chores",
            Section::Reverts => "Reverts",
            Section::Other => "Other",
        }
    }
}

impl Commit {
    /// The changelog section this commit belongs to.
    pub fn section(&self) -> (section: Section)
        ensures
            section == self@.kind.section(),
    {
        self.kind.section()
    }
}

impl Footer {
    /// Whether this footer marks a breaking change.
    pub fn is_breaking(&self) -> (r: bool)
        ensures
            r == (self@.token == breaking_token()),
    {
        str_eq(self.token.as_str(), "BREAKING CHANGE")
    }
}

impl CommitKind {
    /// Turn the raw type from the header into a kind, falling back to
    /// [`CommitKind::Other`] for anything outside the recommended set.
    pub fn from_raw(raw: &str) -> (kind: Self)
        ensures
            kind@ == spec_from_raw(raw@),
    {
        if str_eq(raw, "feat") {
            CommitKind::Feat
        } else if str_eq(raw, "fix") {
            CommitKind::Fix
        } else if str_eq(raw, "docs") {
            CommitKind::Docs
        } else if str_eq(raw, "style") {
            CommitKind::Style
        } else if str_eq(raw, "refactor") {
            CommitKind::Refactor
        } else if str_eq(raw, "perf") {
            CommitKind::Perf
        } else if str_eq(raw, "test") {
            CommitKind::Test
        } else if str_eq(raw, "build") {
            CommitKind::Build
        } else if str_eq(raw, "ci") {
            CommitKind::Ci
        } else if str_eq(raw, "chore") {
            CommitKind::Chore
        } else if str_eq(raw, "revert") {
            CommitKind::Revert
        } else {
            CommitKind::Other(String::from_str(raw))
        }
    }

    /// The type keyword as it appears in the header.
    pub fn as_str(&self) -> (text: &str)
        ensures
            text@ == self@.keyword(),
    {
        match self {
            CommitKind::Feat => "feat",
            CommitKind::Fix => "fix",
            CommitKind::Docs => "docs",
            CommitKind::Style => "style",
            CommitKind::Refactor => "refactor",
            CommitKind::Perf => "perf",
            CommitKind::Test => "test",
            CommitKind::Build => "build",
            CommitKind::Ci => "ci",
            CommitKind::Chore => "chore",
            CommitKind::Revert => "revert",
            CommitKind::Other(raw) => raw.as_str(),
        }
    }

    /// The changelog section a commit of this type lands in.
    pub fn section(&self) -> (section: Section)
        ensures
            section == self@.section(),
    {
        match self {
            CommitKind::Feat => Section::Features,
            CommitKind::Fix => Section::BugFixes,
            CommitKind::Docs => Section::Documentation,
            CommitKind::Style => Section::Styles,
            CommitKind::Refactor => Section::Refactoring,
            CommitKind::Perf => Section::Performance,
            CommitKind::Test => Section::Testing,
            CommitKind::Build => Section::BuildSystem,
            CommitKind::Ci => Section::ContinuousIntegration,
            CommitKind::Chore => Section::MiscellaneousChores,
            CommitKind::Revert => Section::Reverts,
            CommitKind::Other(_) => Section::Other,
        }
    }
}


/// Whether `line` continues the footer above it (it starts with a space or a
/// tab).
pub open spec fn is_continuation(line: Seq<char>) -> bool {
    line.len() > 0 && (line[0] == ' ' || line[0] == '\t')
}

/// Whether `c` may appear in a footer token: an ASCII letter or digit, or `-`.
pub open spec fn token_char(c: char) -> bool {
    ('a' <= c && c <= 'z') || ('A' <= c && c <= 'Z') || ('0' <= c && c <= '9') || c == '-'
}

/// The length of the token that starts `line`: its longest prefix of token
/// characters.
pub open spec fn spec_token_len(line: Seq<char>) -> nat
    decreases line.len(),
{
    if line.len() > 0 && token_char(line[0]) {
        1 + spec_token_len(line.drop_first())
    } else {
        0
    }
}

/// A footer with `token` and `value`, or none when `value` is empty.
pub open spec fn footer_with(token: Seq<char>, value: Seq<char>) -> Option<SpecFooter> {
    if value.len() == 0 {
        None
    } else {
        Some(SpecFooter { token, value })
    }
}

/// The footer that a single line spells, if any: `BREAKING CHANGE: value`
/// (also spelled `BREAKING-CHANGE: value`), `Token: value` or
/// `Token #reference`, where the reference is a single word.
pub open spec fn spec_parse_footer(line: Seq<char>) -> Option<SpecFooter> {
    if starts_with(line, "BREAKING CHANGE: "@) {
        footer_with(breaking_token(), trim(line.skip("BREAKING CHANGE: "@.len() as int)))
    } else if starts_with(line, "BREAKING-CHANGE: "@) {
        footer_with(breaking_token(), trim(line.skip("BREAKING-CHANGE: "@.len() as int)))
    } else {
        let end = spec_token_len(line);
        if end == 0 {
            None
        } else {
            let token = line.take(end as int);
            let rest = line.skip(end as int);
            if starts_with(rest, ": "@) {
                footer_with(token, trim(rest.skip(": "@.len() as int)))
            } else if starts_with(rest, " #"@) {
                let reference = trim(rest.skip(" #"@.len() as int));
                if has_white_space(reference) {
                    None
                } else {
                    footer_with(token, reference)
                }
            } else {
                None
            }
        }
    }
}

/// Whether a paragraph consists solely of footers and their continuations:
/// it has a first line, that line is no continuation, and every line is a
/// continuation or a footer.
pub open spec fn spec_is_footer_block(paragraph: Seq<char>) -> bool {
    let ls = lines(paragraph);
    &&& ls.len() > 0
    &&& !is_continuation(ls[0])
    &&& forall|i: int|
        0 <= i < ls.len() ==> is_continuation(#[trigger] ls[i]) || spec_parse_footer(ls[i]) is Some
}

/// The footers that `ls` spell, read from the first line on: a footer line
/// adds a footer, a continuation line with text adds a space and its trimmed
/// text to the value of the footer before it, and any other line adds
/// nothing.
pub open spec fn fold_footers(ls: Seq<Seq<char>>) -> Seq<SpecFooter>
    decreases ls.len(),
{
    if ls.len() == 0 {
        seq![]
    } else {
        let footers = fold_footers(ls.drop_last());
        let line = ls.last();
        if is_continuation(line) {
            if footers.len() > 0 && trim(line).len() > 0 {
                let last = footers.last();
                footers.update(
                    footers.len() - 1,
                    SpecFooter { token: last.token, value: last.value + seq![' '] + trim(line) },
                )
            } else {
                footers
            }
        } else {
            match spec_parse_footer(line) {
                Some(f) => footers.push(f),
                None => footers,
            }
        }
    }
}

/// The footers of a footer paragraph.
pub open spec fn spec_footer_block(paragraph: Seq<char>) -> Seq<SpecFooter> {
    fold_footers(lines(paragraph))
}

/// Whether `c` may appear in a footer token.
fn is_token_char(c: char) -> (r: bool)
    ensures
        r == token_char(c),
{
    ('a' <= c && c <= 'z') || ('A' <= c && c <= 'Z') || ('0' <= c && c <= '9') || c == '-'
}

/// Split a leading token off `text[lo..hi]`; tokens are words of
/// `[A-Za-z0-9-]`. Returns where the token ends, or `None` when the range
/// does not start with a token character.
fn split_token(text: &[char], lo: usize, hi: usize) -> (r: Option<usize>)
    requires
        lo <= hi <= text@.len(),
    ensures
        match r {
            Some(end) => lo < end <= hi && end - lo == spec_token_len(
                text@.subrange(lo as int, hi as int),
            ),
            None => spec_token_len(text@.subrange(lo as int, hi as int)) == 0,
        },
{
    let mut end = lo;
    while end < hi && is_token_char(text[end])
        invariant
            lo <= end <= hi <= text@.len(),
            spec_token_len(text@.subrange(lo as int, hi as int)) == (end - lo) + spec_token_len(
                text@.subrange(end as int, hi as int),
            ),
        decreases hi - end,
    {
        assert(text@.subrange(end as int, hi as int).drop_first() =~= text@.subrange(
            end + 1,
            hi as int,
        ));
        end = end + 1;
    }
    if end == lo {
        None
    } else {
        Some(end)
    }
}

/// A footer holding `token` and `text[lo..hi]`, or none when the range is
/// empty.
fn footer_from(token: String, text: &[char], lo: usize, hi: usize) -> (r: Option<Footer>)
    requires
        lo <= hi <= text@.len(),
    ensures
        match r {
            Some(f) => footer_with(token@, text@.subrange(lo as int, hi as int)) == Some(f@),
            None => footer_with(token@, text@.subrange(lo as int, hi as int)) is None,
        },
{
    if lo == hi {
        None
    } else {
        Some(Footer { token, value: string_of(text, lo, hi) })
    }
}

/// Parse a single footer line such as `Reviewed-by: Z` or `Closes #12`.
fn parse_footer(text: &[char], lo: usize, hi: usize) -> (r: Option<Footer>)
    requires
        lo <= hi <= text@.len(),
    ensures
        match r {
            Some(f) => spec_parse_footer(text@.subrange(lo as int, hi as int)) == Some(f@),
            None => spec_parse_footer(text@.subrange(lo as int, hi as int)) is None,
        },
{
    let ghost line = text@.subrange(lo as int, hi as int);
    // `BREAKING CHANGE` is the only token allowed to contain a space, and
    // may also be spelled `BREAKING-CHANGE`.
    if starts_with_str(text, lo, hi, "BREAKING CHANGE: ") {
        let n = "BREAKING CHANGE: ".unicode_len();
        let (a, b) = trim_range(text, lo + n, hi);
        assert(line.skip(n as int) =~= text@.subrange(lo + n, hi as int));
        return footer_from(String::from_str("BREAKING CHANGE"), text, a, b);
    }
    if starts_with_str(text, lo, hi, "BREAKING-CHANGE: ") {
        let n = "BREAKING-CHANGE: ".unicode_len();
        let (a, b) = trim_range(text, lo + n, hi);
        assert(line.skip(n as int) =~= text@.subrange(lo + n, hi as int));
        return footer_from(String::from_str("BREAKING CHANGE"), text, a, b);
    }
    let end = match split_token(text, lo, hi) {
        Some(end) => end,
        None => return None,
    };
    let ghost rest = line.skip(end - lo);
    assert(rest =~= text@.subrange(end as int, hi as int));
    assert(line.take(end - lo) =~= text@.subrange(lo as int, end as int));
    // Either `Token: value` or `Token #123`, where the reference form must
    // be a single word.
    if starts_with_str(text, end, hi, ": ") {
        let n = ": ".unicode_len();
        let (a, b) = trim_range(text, end + n, hi);
        assert(rest.skip(n as int) =~= text@.subrange(end + n, hi as int));
        footer_from(string_of(text, lo, end), text, a, b)
    } else if starts_with_str(text, end, hi, " #") {
        let n = " #".unicode_len();
        let (a, b) = trim_range(text, end + n, hi);
        assert(rest.skip(n as int) =~= text@.subrange(end + n, hi as int));
        if contains_white_space(text, a, b) {
            None
        } else {
            footer_from(string_of(text, lo, end), text, a, b)
        }
    } else {
        None
    }
}

/// Whether `text[lo..hi]` starts with a space or a tab.
fn starts_indented(text: &[char], lo: usize, hi: usize) -> (r: bool)
    requires
        lo <= hi <= text@.len(),
    ensures
        r == is_continuation(text@.subrange(lo as int, hi as int)),
{
    lo < hi && (text[lo] == ' ' || text[lo] == '\t')
}

/// Whether the paragraph `text[lo..hi]` consists solely of footers and their
/// continuations.
fn is_footer_block(text: &[char], lo: usize, hi: usize) -> (r: bool)
    requires
        lo <= hi <= text@.len(),
    ensures
        r == spec_is_footer_block(text@.subrange(lo as int, hi as int)),
{
    let ls = line_ranges(text, lo, hi);
    let ghost lines_seq = slices(text@, ls@);
    let mut saw_footer = false;
    let mut i: usize = 0;
    while i < ls.len()
        invariant
            lo <= hi <= text@.len(),
            within(ls@, lo as int, hi as int),
            lines_seq == slices(text@, ls@),
            lines_seq == lines(text@.subrange(lo as int, hi as int)),
            i <= ls@.len(),
            saw_footer == (i > 0),
            i > 0 ==> !is_continuation(lines_seq[0]),
            forall|j: int|
                0 <= j < i ==> is_continuation(#[trigger] lines_seq[j]) || spec_parse_footer(
                    lines_seq[j],
                ) is Some,
        decreases ls@.len() - i,
    {
        let (a, b) = ls[i];
        assert(lines_seq[i as int] == text@.subrange(a as int, b as int));
        if starts_indented(text, a, b) {
            // Continuation of the previous footer.
            if !saw_footer {
                return false;
            }
        } else if parse_footer(text, a, b).is_none() {
            return false;
        } else {
            saw_footer = true;
        }
        i = i + 1;
    }
    saw_footer
}

/// Turn the validated footer paragraph `text[lo..hi]` into `Footer` values.
fn footer_block(text: &[char], lo: usize, hi: usize) -> (footers: Vec<Footer>)
    requires
        lo <= hi <= text@.len(),
    ensures
        footers_view(footers@) == spec_footer_block(text@.subrange(lo as int, hi as int)),
{
    let ls = line_ranges(text, lo, hi);
    let ghost lines_seq = slices(text@, ls@);
    let mut footers: Vec<Footer> = Vec::new();
    let mut i: usize = 0;
    while i < ls.len()
        invariant
            lo <= hi <= text@.len(),
            within(ls@, lo as int, hi as int),
            lines_seq == slices(text@, ls@),
            lines_seq == lines(text@.subrange(lo as int, hi as int)),
            i <= ls@.len(),
            footers_view(footers@) == fold_footers(lines_seq.take(i as int)),
        decreases ls@.len() - i,
    {
        let (a, b) = ls[i];
        let ghost before = footers_view(footers@);
        assert(lines_seq.take(i + 1).drop_last() =~= lines_seq.take(i as int));
        assert(lines_seq.take(i + 1).last() == text@.subrange(a as int, b as int));
        if starts_indented(text, a, b) {
            let (ta, tb) = trim_range(text, a, b);
            if footers.len() > 0 && ta < tb {
                let ghost old_footers = footers@;
                let mut last = footers.pop().unwrap();
                assert(last@ == before.last());
                push_char(&mut last.value, ' ');
                push_range(&mut last.value, text, ta, tb);
                assert(last.value@ =~= before.last().value + seq![' '] + trim(
                    text@.subrange(a as int, b as int),
                ));
                assert(last.token@ == before.last().token);
                footers.push(last);
                assert(footers@ == old_footers.drop_last().push(last));
                assert(footers_view(footers@) =~= before.update(
                    before.len() - 1,
                    SpecFooter {
                        token: before.last().token,
                        value: before.last().value + seq![' '] + trim(
                            text@.subrange(a as int, b as int),
                        ),
                    },
                ));
            }
        } else {
            match parse_footer(text, a, b) {
                Some(footer) => {
                    footers.push(footer);
                    assert(footers_view(footers@) =~= before.push(footer@));
                },
                None => {},
            }
        }
        i = i + 1;
    }
    assert(lines_seq.take(i as int) =~= lines_seq);
    footers
}


/// The body that the paragraphs `ps` make: none when there are no
/// paragraphs or their join is blank, else the trimmed join.
pub open spec fn spec_paragraphs_body(ps: Seq<Seq<char>>) -> Option<Seq<char>> {
    if ps.len() == 0 {
        None
    } else {
        let body = trim(join_paragraphs(ps));
        if body.len() == 0 {
            None
        } else {
            Some(body)
        }
    }
}

/// Everything after the header line, split into an optional body and
/// footers. Footers are the last paragraph, but only when it is a footer
/// block; the body is the trimmed join of the paragraphs that are not
/// footers.
pub open spec fn spec_split_body_and_footers(rest: Seq<char>) -> (
    Option<Seq<char>>,
    Seq<SpecFooter>,
) {
    if trim(rest).len() == 0 {
        (None, seq![])
    } else {
        let ps = paragraphs(rest);
        let footers = if ps.len() > 0 && spec_is_footer_block(ps.last()) {
            spec_footer_block(ps.last())
        } else {
            seq![]
        };
        if footers.len() == 0 {
            (spec_paragraphs_body(ps), footers)
        } else {
            (spec_paragraphs_body(ps.drop_last()), footers)
        }
    }
}

/// Reassemble the body paragraphs that `ranges` mark in `text`; `None` when
/// there is no body at all.
fn paragraphs_body(text: &[char], ranges: &[(usize, usize)]) -> (body: Option<String>)
    requires
        within(ranges@, 0, text@.len() as int),
    ensures
        opt_view(body) == spec_paragraphs_body(slices(text@, ranges@)),
{
    if ranges.len() == 0 {
        return None;
    }
    let body = joined(text, ranges);
    let (a, b) = trim_range(body.as_slice(), 0, body.len());
    assert(body@.subrange(0, body@.len() as int) =~= body@);
    if a == b {
        None
    } else {
        Some(string_of(body.as_slice(), a, b))
    }
}

/// Split `text[lo..hi]`, everything after the header line, into an optional
/// body and footers.
fn split_body_and_footers(text: &[char], lo: usize, hi: usize) -> (r: (Option<String>, Vec<Footer>))
    requires
        lo <= hi <= text@.len(),
    ensures
        (opt_view(r.0), footers_view(r.1@)) == spec_split_body_and_footers(
            text@.subrange(lo as int, hi as int),
        ),
{
    let (a, b) = trim_range(text, lo, hi);
    if a == b {
        let footers: Vec<Footer> = Vec::new();
        assert(footers_view(footers@) =~= Seq::<SpecFooter>::empty());
        return (None, footers);
    }
    let mut ranges = paragraph_ranges(text, lo, hi);
    let ghost ps = slices(text@, ranges@);
    let n = ranges.len();
    let mut footers: Vec<Footer> = Vec::new();
    assert(footers_view(footers@) =~= Seq::<SpecFooter>::empty());
    if n > 0 {
        let (pa, pb) = ranges[n - 1];
        assert(ps.last() == text@.subrange(pa as int, pb as int));
        if is_footer_block(text, pa, pb) {
            footers = footer_block(text, pa, pb);
        }
    }
    if footers.len() == 0 {
        let body = paragraphs_body(text, ranges.as_slice());
        (body, footers)
    } else {
        ranges.pop();
        assert(slices(text@, ranges@) =~= ps.drop_last());
        let body = paragraphs_body(text, ranges.as_slice());
        (body, footers)
    }
}

/// The parts of a well-formed header.
pub struct SpecHeader {
    pub breaking: bool,
    pub kind: SpecCommitKind,
    pub scope: Option<Seq<char>>,
    pub description: Seq<char>,
}

/// The last step of header parsing, once the type word is cut out: it must
/// be non-empty and free of whitespace and parentheses.
pub open spec fn header_with_type(
    header: Seq<char>,
    breaking: bool,
    type_word: Seq<char>,
    scope: Option<Seq<char>>,
    description: Seq<char>,
) -> Result<SpecHeader, SpecError> {
    if type_word.len() == 0 {
        Err(SpecError::EmptyType { header })
    } else if has_white_space(type_word) || type_word.contains('(') || type_word.contains(')') {
        Err(SpecError::InvalidScope { header })
    } else {
        Ok(SpecHeader { breaking, kind: spec_from_raw(type_word), scope, description })
    }
}

/// The `<type>[scope][!]: <description>` header line, parsed. The type part
/// is what precedes the first `:`, the description is the trimmed rest; a
/// trailing `!` on the type part marks a breaking change; a type part that
/// then ends in `)` is `type(scope)`, split at its first `(`. A blank scope is
/// empty; stray parentheses or whitespace in the type or the scope make the
/// header malformed.
pub open spec fn spec_parse_header(header: Seq<char>) -> Result<SpecHeader, SpecError> {
    let colon = index_of(header, ':');
    if colon == header.len() {
        Err(SpecError::MissingSeparator { header })
    } else {
        let description = trim(header.skip(colon + 1int));
        if description.len() == 0 {
            Err(SpecError::EmptyDescription { header })
        } else {
            let marked = header.take(colon as int);
            let breaking = marked.len() > 0 && marked.last() == '!';
            let raw_type = if breaking {
                marked.drop_last()
            } else {
                marked
            };
            spec_split_type(header, breaking, raw_type, description)
        }
    }
}

/// The type part of `header` (before the `:`, without the `!`), split into
/// the type word and the optional scope: a type part that ends in `)` is
/// `type(scope)`, split at its first `(`; any other type part is the type
/// word itself and holds no parenthesis.
pub open spec fn spec_split_type(
    header: Seq<char>,
    breaking: bool,
    raw_type: Seq<char>,
    description: Seq<char>,
) -> Result<SpecHeader, SpecError> {
    if raw_type.len() > 0 && raw_type.last() == ')' {
        let outer = raw_type.drop_last();
        let open = index_of(outer, '(');
        if open == outer.len() {
            Err(SpecError::InvalidScope { header })
        } else {
            let inner = outer.skip(open + 1int);
            if trim(inner).len() == 0 {
                Err(SpecError::EmptyScope { header })
            } else if inner.contains('(') || inner.contains(')') || has_white_space(inner) {
                Err(SpecError::InvalidScope { header })
            } else {
                header_with_type(header, breaking, outer.take(open as int), Some(inner), description)
            }
        }
    } else if raw_type.contains('(') || raw_type.contains(')') {
        Err(SpecError::InvalidScope { header })
    } else {
        header_with_type(header, breaking, raw_type, None, description)
    }
}

/// Split the type part `text[lo..end]` of the header `text[lo..hi]` into the
/// type and the optional scope, rejecting malformed ones; `text[da..db]` is
/// the description.
fn split_type(
    text: &[char],
    lo: usize,
    hi: usize,
    breaking: bool,
    end: usize,
    da: usize,
    db: usize,
) -> (r: Result<(bool, CommitKind, Option<String>, String), Error>)
    requires
        lo <= end <= hi <= text@.len(),
        da <= db <= text@.len(),
    ensures
        match r {
            Ok((b, kind, scope, description)) => spec_split_type(
                text@.subrange(lo as int, hi as int),
                breaking,
                text@.subrange(lo as int, end as int),
                text@.subrange(da as int, db as int),
            ) == Ok::<SpecHeader, SpecError>(
                SpecHeader {
                    breaking: b,
                    kind: kind@,
                    scope: opt_view(scope),
                    description: description@,
                },
            ),
            Err(e) => spec_split_type(
                text@.subrange(lo as int, hi as int),
                breaking,
                text@.subrange(lo as int, end as int),
                text@.subrange(da as int, db as int),
            ) == Err::<SpecHeader, SpecError>(e@),
        },
{
    let ghost raw_type = text@.subrange(lo as int, end as int);
    // Split `type(scope)` into its two halves, rejecting malformed scopes.
    let (name_end, scope) = if end > lo && text[end - 1] == ')' {
        let outer = end - 1;
        assert(raw_type.drop_last() =~= text@.subrange(lo as int, outer as int));
        let open = find_char(text, lo, outer, '(');
        if open == outer {
            return Err(Error::InvalidScope { header: string_of(text, lo, hi) });
        }
        assert(text@.subrange(lo as int, outer as int).skip(open - lo + 1) =~= text@.subrange(
            open + 1,
            outer as int,
        ));
        assert(text@.subrange(lo as int, outer as int).take(open - lo) =~= text@.subrange(
            lo as int,
            open as int,
        ));
        let (sa, sb) = trim_range(text, open + 1, outer);
        if sa == sb {
            return Err(Error::EmptyScope { header: string_of(text, lo, hi) });
        }
        if malformed_word(text, open + 1, outer) {
            return Err(Error::InvalidScope { header: string_of(text, lo, hi) });
        }
        (open, Some(string_of(text, open + 1, outer)))
    } else if contains_char(text, lo, end, '(') || contains_char(text, lo, end, ')') {
        return Err(Error::InvalidScope { header: string_of(text, lo, hi) });
    } else {
        (end, None)
    };
    if name_end == lo {
        return Err(Error::EmptyType { header: string_of(text, lo, hi) });
    }
    if malformed_word(text, lo, name_end) {
        return Err(Error::InvalidScope { header: string_of(text, lo, hi) });
    }
    let type_word = string_of(text, lo, name_end);
    let kind = CommitKind::from_raw(type_word.as_str());
    Ok((breaking, kind, scope, string_of(text, da, db)))
}

/// Whether `text[lo..hi]` holds a parenthesis or whitespace, which neither a
/// type nor a scope may hold.
fn malformed_word(text: &[char], lo: usize, hi: usize) -> (r: bool)
    requires
        lo <= hi <= text@.len(),
    ensures
        r == ({
            let word = text@.subrange(lo as int, hi as int);
            has_white_space(word) || word.contains('(') || word.contains(')')
        }),
{
    contains_white_space(text, lo, hi) || contains_char(text, lo, hi, '(') || contains_char(
        text,
        lo,
        hi,
        ')',
    )
}

/// Parse the `<type>[scope][!]: <description>` header line `text[lo..hi]`.
fn parse_header(text: &[char], lo: usize, hi: usize) -> (r: Result<
    (bool, CommitKind, Option<String>, String),
    Error,
>)
    requires
        lo <= hi <= text@.len(),
    ensures
        match r {
            Ok((breaking, kind, scope, description)) => spec_parse_header(
                text@.subrange(lo as int, hi as int),
            ) == Ok::<SpecHeader, SpecError>(
                SpecHeader {
                    breaking,
                    kind: kind@,
                    scope: opt_view(scope),
                    description: description@,
                },
            ),
            Err(e) => spec_parse_header(text@.subrange(lo as int, hi as int)) == Err::<
                SpecHeader,
                SpecError,
            >(e@),
        },
{
    let ghost header = text@.subrange(lo as int, hi as int);
    let colon = find_char(text, lo, hi, ':');
    if colon == hi {
        return Err(Error::MissingSeparator { header: string_of(text, lo, hi) });
    }
    assert(header.skip(colon - lo + 1) =~= text@.subrange(colon + 1, hi as int));
    let (da, db) = trim_range(text, colon + 1, hi);
    if da == db {
        return Err(Error::EmptyDescription { header: string_of(text, lo, hi) });
    }
    assert(header.take(colon - lo) =~= text@.subrange(lo as int, colon as int));
    // A trailing `!` before the separator marks a breaking change.
    let breaking = colon > lo && text[colon - 1] == '!';
    let end = if breaking {
        colon - 1
    } else {
        colon
    };
    assert(breaking ==> text@.subrange(lo as int, colon as int).drop_last() =~= text@.subrange(
        lo as int,
        end as int,
    ));
    split_type(text, lo, hi, breaking, end, da, db)
}

/// Whether some footer of `footers` carries the breaking-change token.
pub open spec fn has_breaking_footer(footers: Seq<SpecFooter>) -> bool {
    exists|i: int| 0 <= i < footers.len() && (#[trigger] footers[i]).token == breaking_token()
}

/// The header line of the normalised message `m`: its first line, without
/// trailing whitespace.
pub open spec fn header_line(m: Seq<char>) -> Seq<char> {
    let nl = index_of(m, '\n');
    if nl < m.len() {
        trim_end(m.take(nl as int))
    } else {
        m
    }
}

/// Everything after the first line of the normalised message `m`.
pub open spec fn after_header(m: Seq<char>) -> Seq<char> {
    let nl = index_of(m, '\n');
    if nl < m.len() {
        m.skip(nl + 1int)
    } else {
        seq![]
    }
}

/// A full commit message, parsed. The message is trimmed and its CRLF line
/// endings normalised first; a blank message is an error; the first line is
/// the header, and the rest holds the body and the footers.
pub open spec fn spec_parse(message: Seq<char>) -> Result<SpecCommit, SpecError> {
    let m = normalize_newlines(trim(message));
    if m.len() == 0 {
        Err(SpecError::EmptyMessage)
    } else {
        match spec_parse_header(header_line(m)) {
            Err(e) => Err(e),
            Ok(h) => {
                let (body, footers) = spec_split_body_and_footers(after_header(m));
                Ok(
                    SpecCommit {
                        kind: h.kind,
                        scope: h.scope,
                        breaking: h.breaking || has_breaking_footer(footers),
                        description: h.description,
                        body,
                        footers,
                    },
                )
            },
        }
    }
}

/// Whether some footer of `footers` marks a breaking change.
fn any_breaking(footers: &Vec<Footer>) -> (r: bool)
    ensures
        r == has_breaking_footer(footers_view(footers@)),
{
    let mut i: usize = 0;
    while i < footers.len()
        invariant
            i <= footers@.len(),
            forall|j: int| 0 <= j < i ==> footers@[j]@.token != breaking_token(),
        decreases footers@.len() - i,
    {
        if footers[i].is_breaking() {
            assert(footers_view(footers@)[i as int].token == breaking_token());
            return true;
        }
        i = i + 1;
    }
    assert forall|j: int| 0 <= j < footers_view(footers@).len() implies (
    #[trigger] footers_view(footers@)[j]).token != breaking_token() by {
        assert(footers_view(footers@)[j] == footers@[j]@);
    }
    false
}

/// Parse a full commit message into its parts.
///
/// The message is trimmed and CRLF line endings are normalised before
/// parsing, so messages coming from `git log` or a text field behave the
/// same way.
pub fn parse(message: &str) -> (r: Result<Commit, Error>)
    ensures
        match r {
            Ok(commit) => spec_parse(message@) == Ok::<SpecCommit, SpecError>(commit@),
            Err(e) => spec_parse(message@) == Err::<SpecCommit, SpecError>(e@),
        },
{
    let chars = chars_of(message);
    let (a, b) = trim_range(chars.as_slice(), 0, chars.len());
    assert(chars@.subrange(0, chars@.len() as int) =~= message@);
    let text = normalized(chars.as_slice(), a, b);
    let ghost m = text@;
    if text.len() == 0 {
        return Err(Error::EmptyMessage);
    }
    let n = text.len();
    assert(text@.subrange(0, n as int) =~= m);
    let nl = find_char(text.as_slice(), 0, n, '\n');
    let (header_end, rest_start) = if nl < n {
        assert(m.take(nl as int) =~= text@.subrange(0, nl as int));
        assert(m.skip(nl + 1) =~= text@.subrange(nl + 1, n as int));
        (trim_end_range(text.as_slice(), 0, nl), nl + 1)
    } else {
        assert(text@.subrange(n as int, n as int) =~= Seq::<char>::empty());
        (n, n)
    };
    let (breaking, kind, scope, description) = match parse_header(
        text.as_slice(),
        0,
        header_end,
    ) {
        Ok(parts) => parts,
        Err(e) => return Err(e),
    };
    let (body, footers) = split_body_and_footers(text.as_slice(), rest_start, n);
    let footer_breaking = any_breaking(&footers);
    Ok(Commit { breaking: breaking || footer_breaking, kind, scope, description, body, footers })
}

} // verus!
