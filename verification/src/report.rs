//! What the command-line front end computes: the messages in a block of
//! input, and the lines that describe a parsed commit.
use vstd::prelude::*;

use crate::commit::{Commit, SpecCommit, SpecFooter};
use crate::text::{
    chars_of, normalize_newlines, normalized, paragraph_ranges, paragraphs, slices, string_of,
    trim_end, trim_end_range, within,
};

verus! {

/// The characters of a sequence of strings.
pub open spec fn strings_view(strings: Seq<String>) -> Seq<Seq<char>> {
    strings.map_values(|s: String| s@)
}

/// The commit messages in `input`: once its CRLF line endings are
/// normalised, its blank-line-separated pieces, trimmed, with the blank ones
/// left out.
pub fn split_messages(input: &str) -> (messages: Vec<String>)
    ensures
        strings_view(messages@) == paragraphs(normalize_newlines(input@)),
{
    let raw = chars_of(input);
    assert(raw@.subrange(0, raw@.len() as int) =~= input@);
    let chars = normalized(raw.as_slice(), 0, raw.len());
    let ranges = paragraph_ranges(chars.as_slice(), 0, chars.len());
    assert(chars@.subrange(0, chars@.len() as int) =~= normalize_newlines(input@));
    let ghost pieces = slices(chars@, ranges@);
    let mut messages: Vec<String> = Vec::new();
    let mut i: usize = 0;
    while i < ranges.len()
        invariant
            i <= ranges@.len(),
            within(ranges@, 0, chars@.len() as int),
            pieces == slices(chars@, ranges@),
            strings_view(messages@) == pieces.take(i as int),
        decreases ranges@.len() - i,
    {
        let (a, b) = ranges[i];
        let s = string_of(chars.as_slice(), a, b);
        let ghost before = messages@;
        messages.push(s);
        assert(strings_view(messages@) =~= strings_view(before).push(s@));
        assert(pieces.take(i + 1) =~= pieces.take(i as int).push(pieces[i as int]));
        i = i + 1;
    }
    assert(pieces.take(i as int) =~= pieces);
    messages
}

/// `text`, or `-` when there is none.
pub open spec fn or_dash(text: Option<Seq<char>>) -> Seq<char> {
    match text {
        Some(t) => t,
        None => "-"@,
    }
}

/// The report line of one footer.
pub open spec fn footer_line(f: SpecFooter) -> Seq<char> {
    "  footer:   "@ + f.token + ": "@ + f.value
}

/// The lines that describe the commit `c` parsed from `source`: the source
/// without trailing whitespace, then its section, type, scope, breaking flag
/// and body, then one line per footer.
pub open spec fn spec_report(source: Seq<char>, c: SpecCommit) -> Seq<Seq<char>> {
    seq![
        trim_end(source),
        "  section:  "@ + c.kind.section().title(),
        "  type:     "@ + c.kind.keyword(),
        "  scope:    "@ + or_dash(c.scope),
        "  breaking: "@ + (if c.breaking {
            "yes"@
        } else {
            "no"@
        }),
        "  body:     "@ + or_dash(c.body),
    ] + c.footers.map_values(|f: SpecFooter| footer_line(f))
}

/// `label` followed by `value`, as a new string.
fn labelled(label: &str, value: &str) -> (s: String)
    ensures
        s@ == label@ + value@,
{
    let mut s = String::from_str(label);
    s.append(value);
    s
}

/// `label` followed by the optional `value`, or by `-` when there is none.
fn labelled_or_dash(label: &str, value: &Option<String>) -> (s: String)
    ensures
        s@ == label@ + or_dash(match value {
            Some(v) => Some(v@),
            None => None,
        }),
{
    match value {
        Some(v) => labelled(label, v.as_str()),
        None => labelled(label, "-"),
    }
}

/// The lines that describe `commit`, parsed from `source`.
pub fn commit_report(source: &str, commit: &Commit) -> (lines: Vec<String>)
    ensures
        strings_view(lines@) == spec_report(source@, commit@),
{
    let chars = chars_of(source);
    let end = trim_end_range(chars.as_slice(), 0, chars.len());
    assert(chars@.subrange(0, chars@.len() as int) =~= source@);
    let mut lines: Vec<String> = Vec::new();
    lines.push(string_of(chars.as_slice(), 0, end));
    lines.push(labelled("  section:  ", commit.section().heading()));
    lines.push(labelled("  type:     ", commit.kind.as_str()));
    lines.push(labelled_or_dash("  scope:    ", &commit.scope));
    lines.push(labelled("  breaking: ", if commit.breaking { "yes" } else { "no" }));
    lines.push(labelled_or_dash("  body:     ", &commit.body));
    let ghost head = strings_view(lines@);
    let ghost spec = spec_report(source@, commit@);
    assert(head =~= spec.take(6));
    let mut i: usize = 0;
    while i < commit.footers.len()
        invariant
            i <= commit.footers@.len(),
            spec == spec_report(source@, commit@),
            spec.len() == 6 + commit.footers@.len(),
            strings_view(lines@) == spec.take(6 + i),
        decreases commit.footers@.len() - i,
    {
        let footer = &commit.footers[i];
        let mut line = labelled("  footer:   ", footer.token.as_str());
        line.append(": ");
        line.append(footer.value.as_str());
        let ghost before = lines@;
        assert(commit@.footers[i as int] == commit.footers@[i as int]@);
        assert(line@ == footer_line(commit@.footers[i as int]));
        assert(spec[6 + i] == footer_line(commit@.footers[i as int]));
        lines.push(line);
        assert(strings_view(lines@) =~= strings_view(before).push(line@));
        assert(strings_view(lines@) =~= spec.take(6 + i + 1));
        i = i + 1;
    }
    assert(spec.take(6 + i) =~= spec);
    lines
}

} // verus!
