//! What holds of the parser as a whole, stated over the model of `parse`
//! (`spec_parse`) and proved.
use vstd::prelude::*;

use crate::commit::{
    spec_is_footer_block, spec_split_body_and_footers,
    after_header, breaking_token, fold_footers, footer_with, has_breaking_footer, header_line,
    is_continuation, spec_footer_block, spec_from_raw, spec_parse, spec_parse_footer,
    spec_parse_header, spec_token_len, token_char, SpecCommit, SpecCommitKind, SpecFooter,
    SpecHeader,
};
use crate::error::SpecError;
use crate::report::{footer_line, spec_report};
use crate::text::{
    blank_line_at,
    all_white_space, crlf_endings, has_white_space, index_of, join_paragraphs,
    lemma_index_of_absent, lemma_index_of_after, lemma_index_of_bound, lemma_normalize_crlf_endings,
    lemma_normalize_lf, lemma_normalize_prefix, lemma_trim_bounds, lemma_trim_crlf_endings,
    lemma_trim_empty, lemma_trim_idempotent, lemma_trim_lf_endings, lemma_trim_parts,
    lemma_trimmed_ends, lf_endings, lines, normalize_newlines, paragraphs, starts_with, trim,
    trim_end, white_space,
};

verus! {

/// The message after trimming and newline normalisation, as the parser reads
/// it.
pub open spec fn normalized_message(message: Seq<char>) -> Seq<char> {
    normalize_newlines(trim(message))
}

/// Whether a header line marks a breaking change: a `!` stands right before
/// its first `:`.
pub open spec fn marked_breaking(header: Seq<char>) -> bool {
    let colon = index_of(header, ':');
    colon > 0 && colon <= header.len() && header[colon - 1] == '!'
}

/// Whether a footer has a token and a non-empty, trimmed value.
pub open spec fn well_formed_footer(f: SpecFooter) -> bool {
    f.token.len() > 0 && f.value.len() > 0 && trim(f.value) == f.value
}

/// Whether `v` is non-empty with no whitespace at either end.
pub open spec fn clean_ends(v: Seq<char>) -> bool {
    v.len() > 0 && !white_space(v[0]) && !white_space(v.last())
}

/// Whether a footer has a token and a value with clean ends.
pub open spec fn clean_footer(f: SpecFooter) -> bool {
    f.token.len() > 0 && clean_ends(f.value)
}

/// Surrounding whitespace does not matter: a message parses exactly as its
/// trimmed form does.
pub proof fn law_surrounding_whitespace(message: Seq<char>)
    ensures
        spec_parse(trim(message)) == spec_parse(message),
{
    lemma_trim_idempotent(message);
}

/// Messages coming from `git log` or a text field behave the same way: a
/// message whose lines end in `"\n"` parses exactly as the same message with
/// its lines ended by `"\r\n"`.
pub proof fn law_crlf_line_endings(message: Seq<char>)
    requires
        lf_endings(message),
    ensures
        spec_parse(crlf_endings(message)) == spec_parse(message),
{
    lemma_trim_crlf_endings(message);
    lemma_trim_lf_endings(message);
    lemma_normalize_crlf_endings(trim(message));
    lemma_normalize_lf(trim(message));
}

/// A message is refused as empty exactly when it consists solely of
/// whitespace.
pub proof fn law_empty_message(message: Seq<char>)
    ensures
        (spec_parse(message) == Err::<SpecCommit, SpecError>(SpecError::EmptyMessage))
            <==> all_white_space(message),
{
    lemma_trim_empty(message);
    let t = trim(message);
    if t.len() > 0 {
        assert(normalize_newlines(t).len() > 0);
    }
}

/// Every other refusal names the offending header line: the first line of
/// the normalised message, without trailing whitespace.
pub proof fn law_errors_name_the_header(message: Seq<char>)
    ensures
        spec_parse(message) matches Err(e) ==> (e is EmptyMessage || e.header() == Some(
            header_line(normalized_message(message)),
        )),
{
}

/// A commit is breaking exactly when its header has a `!` before the `:` or
/// one of its footers is a `BREAKING CHANGE` footer.
pub proof fn law_breaking_flag(message: Seq<char>)
    ensures
        spec_parse(message) matches Ok(c) ==> (c.breaking <==> (marked_breaking(
            header_line(normalized_message(message)),
        ) || has_breaking_footer(c.footers))),
{
    let h = header_line(normalized_message(message));
    let colon = index_of(h, ':');
    lemma_index_of_bound(h, ':');
    if 0 < colon <= h.len() {
        assert(h.take(colon as int).last() == h[colon - 1]);
    }
}

/// The token of a footer line never runs past the line.
proof fn lemma_token_len_bound(line: Seq<char>)
    ensures
        spec_token_len(line) <= line.len(),
    decreases line.len(),
{
    if line.len() > 0 {
        lemma_token_len_bound(line.drop_first());
    }
}

/// A value with clean ends is its own trim.
proof fn lemma_clean_trimmed(v: Seq<char>)
    requires
        clean_ends(v),
    ensures
        trim(v) == v,
{
    let e: Seq<char> = seq![];
    assert(e + v + e =~= v);
    lemma_trim_parts(e, v, e);
}

/// A footer made from a token and a trimmed value has clean ends.
proof fn lemma_footer_with(token: Seq<char>, raw: Seq<char>)
    requires
        token.len() > 0,
    ensures
        footer_with(token, trim(raw)) matches Some(f) ==> clean_footer(f),
{
    let (a, b) = lemma_trim_bounds(raw);
    if a < b {
        assert(trim(raw)[0] == raw[a]);
        assert(trim(raw).last() == raw[b - 1]);
    }
}

/// Every footer that a line spells has clean ends.
proof fn lemma_parse_footer_shape(line: Seq<char>)
    ensures
        spec_parse_footer(line) matches Some(f) ==> clean_footer(f),
{
    reveal_strlit("BREAKING CHANGE");
    lemma_token_len_bound(line);
    lemma_footer_with(breaking_token(), line.skip("BREAKING CHANGE: "@.len() as int));
    lemma_footer_with(breaking_token(), line.skip("BREAKING-CHANGE: "@.len() as int));
    let end = spec_token_len(line);
    if end > 0 {
        let token = line.take(end as int);
        let rest = line.skip(end as int);
        lemma_footer_with(token, rest.skip(": "@.len() as int));
        lemma_footer_with(token, rest.skip(" #"@.len() as int));
    }
}

/// Every footer read from a sequence of lines has clean ends.
proof fn lemma_fold_footers_shape(ls: Seq<Seq<char>>)
    ensures
        forall|i: int|
            0 <= i < fold_footers(ls).len() ==> clean_footer(#[trigger] fold_footers(ls)[i]),
    decreases ls.len(),
{
    if ls.len() > 0 {
        let before = fold_footers(ls.drop_last());
        let line = ls.last();
        lemma_fold_footers_shape(ls.drop_last());
        lemma_parse_footer_shape(line);
        if is_continuation(line) && before.len() > 0 && trim(line).len() > 0 {
            let (a, b) = lemma_trim_bounds(line);
            let last = before.last();
            let grown = SpecFooter { token: last.token, value: last.value + seq![' '] + trim(line) };
            assert(clean_footer(before[before.len() - 1]));
            assert(grown.value[0] == last.value[0]);
            assert(grown.value.last() == trim(line).last());
            assert(trim(line).last() == line[b - 1]);
            assert(fold_footers(ls) == before.update(before.len() - 1, grown));
            assert forall|i: int| 0 <= i < fold_footers(ls).len() implies clean_footer(
                #[trigger] fold_footers(ls)[i],
            ) by {
                if i < before.len() - 1 {
                    assert(fold_footers(ls)[i] == before[i]);
                }
            }
        }
    }
}

/// Every footer read from a sequence of lines is well formed.
proof fn lemma_fold_footers_well_formed(ls: Seq<Seq<char>>)
    ensures
        forall|i: int|
            0 <= i < fold_footers(ls).len() ==> well_formed_footer(#[trigger] fold_footers(ls)[i]),
{
    lemma_fold_footers_shape(ls);
    assert forall|i: int| 0 <= i < fold_footers(ls).len() implies well_formed_footer(
        #[trigger] fold_footers(ls)[i],
    ) by {
        assert(clean_footer(fold_footers(ls)[i]));
        lemma_clean_trimmed(fold_footers(ls)[i].value);
    }
}

/// Footers have a token and a value that is "everything after the
/// separator, trimmed": every footer of a footer paragraph has a non-empty
/// token and a non-empty value equal to its own trim.
pub proof fn law_footer_values_trimmed(paragraph: Seq<char>)
    ensures
        forall|i: int|
            0 <= i < spec_footer_block(paragraph).len() ==> well_formed_footer(
                #[trigger] spec_footer_block(paragraph)[i],
            ),
{
    lemma_fold_footers_well_formed(lines(paragraph));
}

/// What a parsed commit looks like: a non-empty trimmed description, a
/// non-empty scope free of parentheses and whitespace, a non-empty trimmed
/// body, footers with a token and a non-empty trimmed value, and an `Other`
/// type that is a non-empty word without whitespace or parentheses, outside
/// the recommended set.
pub proof fn law_commit_shape(message: Seq<char>)
    ensures
        spec_parse(message) matches Ok(c) ==> {
            &&& c.description.len() > 0
            &&& trim(c.description) == c.description
            &&& (c.scope matches Some(scope) ==> scope.len() > 0 && !scope.contains('(')
                && !scope.contains(')') && !has_white_space(scope))
            &&& (c.body matches Some(body) ==> body.len() > 0 && trim(body) == body)
            &&& forall|i: int|
                0 <= i < c.footers.len() ==> well_formed_footer(#[trigger] c.footers[i])
            &&& (c.kind matches SpecCommitKind::Other(raw) ==> raw.len() > 0 && !has_white_space(
                raw,
            ) && !raw.contains('(') && !raw.contains(')') && spec_from_raw(raw) == c.kind)
        },
{
    let m = normalized_message(message);
    let h = header_line(m);
    let colon = index_of(h, ':');
    lemma_trim_idempotent(h.skip(colon + 1int));
    let rest = after_header(m);
    let ps = paragraphs(rest);
    if ps.len() > 0 {
        lemma_fold_footers_well_formed(lines(ps.last()));
        lemma_trim_idempotent(join_paragraphs(ps.drop_last()));
    }
    lemma_trim_idempotent(join_paragraphs(ps));
}

/// The header line decides the header: a trimmed one-line header parses to
/// the same error, or to the same type, scope and description (and no less
/// breaking), whatever lines follow it.
pub proof fn law_header_line_decides(h: Seq<char>, rest: Seq<char>)
    requires
        h.len() > 0,
        trim(h) == h,
        !h.contains('\n'),
        !h.contains('\r'),
    ensures
        ({
            let one = spec_parse(h);
            let two = spec_parse(h + seq!['\n'] + rest);
            &&& (one is Err ==> two == one)
            &&& (one matches Ok(c0) ==> (two matches Ok(c) && c.kind == c0.kind && c.scope
                == c0.scope && c.description == c0.description && (c0.breaking ==> c.breaking)))
        }),
{
    lemma_trimmed_ends(h);
    let e: Seq<char> = seq![];
    // The header alone.
    lemma_normalize_prefix(h, e);
    assert(h + e =~= h);
    assert(h + normalize_newlines(e) =~= h);
    lemma_index_of_absent(h, '\n');
    assert(header_line(normalized_message(h)) == h);
    // The header followed by more lines.
    let s = h + seq!['\n'] + rest;
    let (a, b) = lemma_trim_bounds(s);
    if a > 0 {
        assert(s.take(a)[0] == h[0]);
    }
    assert(a == 0);
    if b < h.len() {
        assert(s.skip(b)[h.len() - 1 - b] == h[h.len() - 1]);
    }
    let y = s.subrange(h.len() as int, b);
    assert(trim(s) =~= h + y);
    lemma_normalize_prefix(h, y);
    let m = normalized_message(s);
    assert(m == h + normalize_newlines(y));
    if y.len() > 0 {
        assert(y[0] == '\n');
        assert(normalize_newlines(y) == seq![y[0]] + normalize_newlines(y.drop_first()));
        lemma_index_of_after(h, normalize_newlines(y), '\n');
        assert(m.take(h.len() as int) =~= h);
        assert(trim_end(h) == h);
    } else {
        assert(normalize_newlines(y) =~= e);
        assert(m =~= h);
    }
    assert(header_line(m) == h);
    assert(m.len() > 0);
}

/// Whether `w` can stand as a type or a scope: non-empty, without
/// whitespace, parentheses or `:`.
pub open spec fn plain_word(w: Seq<char>) -> bool {
    w.len() > 0 && !has_white_space(w) && !w.contains('(') && !w.contains(')') && !w.contains(
        ':',
    )
}

/// The header line `type[(scope)][!]: description`.
pub open spec fn header_text(
    type_word: Seq<char>,
    scope: Option<Seq<char>>,
    breaking: bool,
    description: Seq<char>,
) -> Seq<char> {
    type_word + (match scope {
        Some(sc) => seq!['('] + sc + seq![')'],
        None => seq![],
    }) + (if breaking {
        seq!['!']
    } else {
        seq![]
    }) + seq![':', ' '] + description
}

/// `c` does not occur in `a + b` when it occurs in neither.
proof fn lemma_not_contains_concat(a: Seq<char>, b: Seq<char>, c: char)
    requires
        !a.contains(c),
        !b.contains(c),
    ensures
        !(a + b).contains(c),
{
    if (a + b).contains(c) {
        let j = choose|j: int| 0 <= j < (a + b).len() && (a + b)[j] == c;
        if j < a.len() {
            assert(a[j] == c);
        } else {
            assert(b[j - a.len()] == c);
        }
    }
}

/// The header line `type[(scope)][!]:` followed by `gap` and the
/// description.
pub open spec fn header_text_with_gap(
    type_word: Seq<char>,
    scope: Option<Seq<char>>,
    breaking: bool,
    gap: Seq<char>,
    description: Seq<char>,
) -> Seq<char> {
    type_word + (match scope {
        Some(sc) => seq!['('] + sc + seq![')'],
        None => seq![],
    }) + (if breaking {
        seq!['!']
    } else {
        seq![]
    }) + seq![':'] + gap + description
}

/// A header written from its parts parses back to those parts, whatever
/// whitespace (none included) stands between the `:` and the description: a
/// plain type word, an optional plain scope, the breaking mark and a trimmed
/// description. (Without scope or mark, a type word ending in `!` would read
/// as the mark, so it is left out there.)
pub proof fn law_header_round_trip_with_gap(
    type_word: Seq<char>,
    scope: Option<Seq<char>>,
    breaking: bool,
    gap: Seq<char>,
    description: Seq<char>,
)
    requires
        all_white_space(gap),
        plain_word(type_word),
        scope matches Some(sc) ==> plain_word(sc),
        scope is None && !breaking ==> type_word.last() != '!',
        description.len() > 0,
        trim(description) == description,
    ensures
        spec_parse_header(header_text_with_gap(type_word, scope, breaking, gap, description)) == Ok::<
            SpecHeader,
            SpecError,
        >(
            SpecHeader {
                breaking,
                kind: spec_from_raw(type_word),
                scope,
                description,
            },
        ),
{
    let sp: Seq<char> = match scope {
        Some(sc) => seq!['('] + sc + seq![')'],
        None => seq![],
    };
    let bg: Seq<char> = if breaking {
        seq!['!']
    } else {
        seq![]
    };
    let raw_type = type_word + sp;
    let marked = raw_type + bg;
    let h = header_text_with_gap(type_word, scope, breaking, gap, description);
    assert(h =~= marked + (seq![':'] + gap + description));
    // The separator is the `:` after the marked type.
    assert(!sp.contains(':')) by {
        if let Some(sc) = scope {
            lemma_not_contains_concat(seq!['('], sc, ':');
            lemma_not_contains_concat(seq!['('] + sc, seq![')'], ':');
        }
    }
    assert(!bg.contains(':'));
    lemma_not_contains_concat(type_word, sp, ':');
    lemma_not_contains_concat(raw_type, bg, ':');
    lemma_index_of_after(marked, seq![':'] + gap + description, ':');
    let colon = index_of(h, ':');
    assert(colon == marked.len());
    // The description is what follows, trimmed.
    assert(h.skip(colon + 1int) =~= gap + description + seq![]);
    lemma_trimmed_ends(description);
    lemma_trim_parts(gap, description, seq![]);
    assert(h.take(colon as int) =~= marked);
    // The breaking mark.
    if breaking {
        assert(marked.drop_last() =~= raw_type);
    } else {
        assert(marked =~= raw_type);
        if scope is None {
            assert(raw_type =~= type_word);
        }
    }
    match scope {
        Some(sc) => {
            let outer = type_word + seq!['('] + sc;
            assert(raw_type =~= outer + seq![')']);
            assert(raw_type.drop_last() =~= outer);
            lemma_index_of_after(type_word, seq!['('] + sc, '(');
            assert(outer =~= type_word + (seq!['('] + sc));
            assert(outer.skip(type_word.len() + 1int) =~= sc);
            assert(outer.take(type_word.len() as int) =~= type_word);
            lemma_trimmed_ends(description);
            if trim(sc).len() == 0 {
                lemma_trim_empty(sc);
                assert(white_space(sc[0]));
            }
        },
        None => {
            assert(raw_type =~= type_word);
            if type_word.len() > 0 && type_word.last() == ')' {
                assert(type_word.contains(')'));
            }
        },
    }
}

/// A header written from its parts parses back to those parts: a plain type
/// word, an optional plain scope, the breaking mark and a trimmed
/// description. (Without scope or mark, a type word ending in `!` would read
/// as the mark, so it is left out there.)
pub proof fn law_header_round_trip(
    type_word: Seq<char>,
    scope: Option<Seq<char>>,
    breaking: bool,
    description: Seq<char>,
)
    requires
        plain_word(type_word),
        scope matches Some(sc) ==> plain_word(sc),
        scope is None && !breaking ==> type_word.last() != '!',
        description.len() > 0,
        trim(description) == description,
    ensures
        spec_parse_header(header_text(type_word, scope, breaking, description)) == Ok::<
            SpecHeader,
            SpecError,
        >(
            SpecHeader {
                breaking,
                kind: spec_from_raw(type_word),
                scope,
                description,
            },
        ),
{
    assert(all_white_space(seq![' ']));
    law_header_round_trip_with_gap(type_word, scope, breaking, seq![' '], description);
    assert(header_text(type_word, scope, breaking, description) =~= header_text_with_gap(
        type_word,
        scope,
        breaking,
        seq![' '],
        description,
    ));
}

/// Whether `w` is a footer token word: non-empty, of token characters only.
pub open spec fn token_word(w: Seq<char>) -> bool {
    w.len() > 0 && forall|i: int| 0 <= i < w.len() ==> token_char(#[trigger] w[i])
}

/// The token of `tok + rest` is `tok` when `rest` starts with no token
/// character.
proof fn lemma_token_len_of(tok: Seq<char>, rest: Seq<char>)
    requires
        forall|i: int| 0 <= i < tok.len() ==> token_char(#[trigger] tok[i]),
        rest.len() > 0,
        !token_char(rest[0]),
    ensures
        spec_token_len(tok + rest) == tok.len(),
    decreases tok.len(),
{
    if tok.len() == 0 {
        assert(tok + rest =~= rest);
    } else {
        assert((tok + rest)[0] == tok[0]);
        assert((tok + rest).drop_first() =~= tok.drop_first() + rest);
        assert forall|i: int| 0 <= i < tok.drop_first().len() implies token_char(
            #[trigger] tok.drop_first()[i],
        ) by {
            assert(tok.drop_first()[i] == tok[i + 1]);
        }
        lemma_token_len_of(tok.drop_first(), rest);
    }
}

/// A line that starts with a token word followed by a character outside
/// `"BREAKING CHANGE: "`'s own token run does not start with that marker,
/// nor with `"BREAKING-CHANGE: "` unless the word is `BREAKING-CHANGE`.
proof fn lemma_no_marker(tok: Seq<char>, rest: Seq<char>)
    requires
        token_word(tok),
        rest.len() >= 2,
        (rest[0] == ':' && rest[1] == ' ') || (rest[0] == ' ' && rest[1] == '#'),
    ensures
        !starts_with(tok + rest, "BREAKING CHANGE: "@),
        !starts_with(tok + rest, "BREAKING-CHANGE: "@) || (tok == "BREAKING-CHANGE"@ && rest[0]
            == ':'),
{
    reveal_strlit("BREAKING CHANGE: ");
    reveal_strlit("BREAKING-CHANGE: ");
    reveal_strlit("BREAKING-CHANGE");
    let line = tok + rest;
    let k: int = tok.len() as int;
    let m1 = "BREAKING CHANGE: "@;
    let m2 = "BREAKING-CHANGE: "@;
    assert(m1 =~= seq![
        'B', 'R', 'E', 'A', 'K', 'I', 'N', 'G', ' ', 'C', 'H', 'A', 'N', 'G', 'E', ':', ' ',
    ]);
    assert(m2 =~= seq![
        'B', 'R', 'E', 'A', 'K', 'I', 'N', 'G', '-', 'C', 'H', 'A', 'N', 'G', 'E', ':', ' ',
    ]);
    assert(line[k] == rest[0]);
    assert(line[k + 1] == rest[1]);
    if starts_with(line, m1) {
        assert(line.take(17) == m1);
        if k > 8 {
            assert(line[8] == tok[8]);
            assert(line.take(17)[8] == m1[8]);
        } else {
            assert(line.take(17)[k as int] == m1[k as int]);
            assert(line.take(17)[k + 1] == m1[k + 1]);
        }
    }
    if starts_with(line, m2) {
        assert(line.take(17) == m2);
        if k > 15 {
            assert(line[15] == tok[15]);
            assert(line.take(17)[15] == m2[15]);
        } else {
            assert(line.take(17)[k as int] == m2[k as int]);
            assert(line.take(17)[k + 1] == m2[k + 1]);
            assert(k == 15);
            assert forall|i: int| 0 <= i < 15 implies tok[i] == "BREAKING-CHANGE"@[i] by {
                assert(line[i] == tok[i]);
                assert(line.take(17)[i] == m2[i]);
            }
            assert(tok =~= "BREAKING-CHANGE"@);
        }
    }
}

/// `Token: value` parses back to that footer, for a token word other than
/// `BREAKING-CHANGE` (which reads as `BREAKING CHANGE`) and a non-empty
/// trimmed value.
pub proof fn law_footer_value_round_trip(tok: Seq<char>, value: Seq<char>)
    requires
        token_word(tok),
        tok != "BREAKING-CHANGE"@,
        value.len() > 0,
        trim(value) == value,
    ensures
        spec_parse_footer(tok + ": "@ + value) == Some(SpecFooter { token: tok, value }),
{
    reveal_strlit(": ");
    let rest = ": "@ + value;
    let line = tok + ": "@ + value;
    assert(line =~= tok + rest);
    assert(rest[0] == ':' && rest[1] == ' ');
    lemma_no_marker(tok, rest);
    lemma_token_len_of(tok, rest);
    assert(line.take(tok.len() as int) =~= tok);
    assert(line.skip(tok.len() as int) =~= rest);
    assert(rest.take(2) =~= ": "@);
    assert(rest.skip(2) =~= value);
}

/// `Token #reference` parses back to that footer, for any token word and a
/// non-empty reference without whitespace.
pub proof fn law_footer_reference_round_trip(tok: Seq<char>, reference: Seq<char>)
    requires
        token_word(tok),
        reference.len() > 0,
        !has_white_space(reference),
    ensures
        spec_parse_footer(tok + " #"@ + reference) == Some(
            SpecFooter { token: tok, value: reference },
        ),
{
    reveal_strlit(" #");
    reveal_strlit(": ");
    let rest = " #"@ + reference;
    let line = tok + " #"@ + reference;
    assert(line =~= tok + rest);
    assert(rest[0] == ' ' && rest[1] == '#');
    lemma_no_marker(tok, rest);
    lemma_token_len_of(tok, rest);
    assert(line.take(tok.len() as int) =~= tok);
    assert(line.skip(tok.len() as int) =~= rest);
    assert(rest.take(2) =~= " #"@);
    assert(!starts_with(rest, ": "@)) by {
        if starts_with(rest, ": "@) {
            assert(rest.take(2)[0] == ": "@[0]);
        }
    }
    assert(rest.skip(2) =~= reference);
    assert(!white_space(reference[0]));
    assert(!white_space(reference.last()));
    lemma_clean_trimmed(reference);
}

/// The position of an error's variant among the variants of `Error`.
pub open spec fn variant_of(e: SpecError) -> int {
    match e {
        SpecError::EmptyMessage => 0,
        SpecError::MissingSeparator { .. } => 1,
        SpecError::EmptyType { .. } => 2,
        SpecError::EmptyScope { .. } => 3,
        SpecError::InvalidScope { .. } => 4,
        SpecError::EmptyDescription { .. } => 5,
    }
}

/// The characters at positions 0 and 7 of `prefix + header + suffix` are
/// those of `prefix` when it is longer than 7.
proof fn lemma_framed_start(prefix: Seq<char>, header: Seq<char>, suffix: Seq<char>)
    requires
        prefix.len() > 7,
    ensures
        (prefix + header + suffix)[0] == prefix[0],
        (prefix + header + suffix)[7] == prefix[7],
{
}

/// The message of each error begins in its own way: its first and eighth
/// characters tell the variants apart.
proof fn lemma_message_start(e: SpecError)
    ensures
        e.message().len() > 7,
        (e.message()[0], e.message()[7]) == (match e {
            SpecError::EmptyMessage => ('c', 'm'),
            SpecError::MissingSeparator { .. } => ('h', '`'),
            SpecError::EmptyType { .. } => ('c', 't'),
            SpecError::EmptyScope { .. } => ('c', 's'),
            SpecError::InvalidScope { .. } => ('t', ' '),
            SpecError::EmptyDescription { .. } => ('c', 'd'),
        }),
{
    reveal_strlit("commit message is empty");
    reveal_strlit("header `");
    reveal_strlit("commit type in `");
    reveal_strlit("commit scope in `");
    reveal_strlit("type or scope in `");
    reveal_strlit("commit description in `");
    match e {
        SpecError::EmptyMessage => {
            assert(e.message() == "commit message is empty"@);
            assert("commit message is empty"@[0] == 'c');
            assert("commit message is empty"@[7] == 'm');
        },
        SpecError::MissingSeparator { header } => {
            assert("header `"@[0] == 'h' && "header `"@[7] == '`');
            lemma_framed_start("header `"@, header, "` has no `<type>[scope][!]:` separator"@);
        },
        SpecError::EmptyType { header } => {
            assert("commit type in `"@[0] == 'c' && "commit type in `"@[7] == 't');
            lemma_framed_start("commit type in `"@, header, "` is empty"@);
        },
        SpecError::EmptyScope { header } => {
            assert("commit scope in `"@[0] == 'c' && "commit scope in `"@[7] == 's');
            lemma_framed_start("commit scope in `"@, header, "` is empty"@);
        },
        SpecError::InvalidScope { header } => {
            assert("type or scope in `"@[0] == 't' && "type or scope in `"@[7] == ' ');
            lemma_framed_start("type or scope in `"@, header, "` is malformed"@);
        },
        SpecError::EmptyDescription { header } => {
            assert("commit description in `"@[0] == 'c' && "commit description in `"@[7] == 'd');
            lemma_framed_start("commit description in `"@, header, "` is empty"@);
        },
    }
}

/// Errors of different variants never read alike, whatever headers they
/// carry.
pub proof fn law_messages_tell_variants_apart(e1: SpecError, e2: SpecError)
    requires
        variant_of(e1) != variant_of(e2),
    ensures
        e1.message() != e2.message(),
{
    lemma_message_start(e1);
    lemma_message_start(e2);
}

/// The text an error's message puts before its header.
pub open spec fn message_prefix(e: SpecError) -> Seq<char> {
    match e {
        SpecError::EmptyMessage => "commit message is empty"@,
        SpecError::MissingSeparator { .. } => "header `"@,
        SpecError::EmptyType { .. } => "commit type in `"@,
        SpecError::EmptyScope { .. } => "commit scope in `"@,
        SpecError::InvalidScope { .. } => "type or scope in `"@,
        SpecError::EmptyDescription { .. } => "commit description in `"@,
    }
}

/// The text an error's message puts after its header.
pub open spec fn message_suffix(e: SpecError) -> Seq<char> {
    match e {
        SpecError::EmptyMessage => seq![],
        SpecError::MissingSeparator { .. } => "` has no `<type>[scope][!]:` separator"@,
        SpecError::EmptyType { .. } => "` is empty"@,
        SpecError::EmptyScope { .. } => "` is empty"@,
        SpecError::InvalidScope { .. } => "` is malformed"@,
        SpecError::EmptyDescription { .. } => "` is empty"@,
    }
}

/// Every error that names a header shows it between backquotes: its message
/// is a text ending in a backquote, the header, and a text starting with one.
pub proof fn law_messages_quote_the_header(e: SpecError)
    ensures
        e.header() matches Some(h) ==> {
            &&& e.message() == message_prefix(e) + h + message_suffix(e)
            &&& message_prefix(e).len() > 0 && message_prefix(e).last() == '`'
            &&& message_suffix(e).len() > 0 && message_suffix(e)[0] == '`'
        },
{
    reveal_strlit("header `");
    reveal_strlit("commit type in `");
    reveal_strlit("commit scope in `");
    reveal_strlit("type or scope in `");
    reveal_strlit("commit description in `");
    reveal_strlit("` has no `<type>[scope][!]:` separator");
    reveal_strlit("` is empty");
    reveal_strlit("` is malformed");
}

/// The report of a commit lists, in order: the source without trailing
/// whitespace, the section heading, the type keyword, the scope (or `-`),
/// the breaking flag as `yes`/`no`, the whole body (or `-`), and then one
/// `token: value` line for every footer, in footer order, and nothing more.
pub proof fn law_report_lines(source: Seq<char>, c: SpecCommit)
    ensures
        ({
            let r = spec_report(source, c);
            &&& r.len() == 6 + c.footers.len()
            &&& r[0] == trim_end(source)
            &&& r[1] == "  section:  "@ + c.kind.section().title()
            &&& r[2] == "  type:     "@ + c.kind.keyword()
            &&& r[3] == "  scope:    "@ + (match c.scope {
                Some(scope) => scope,
                None => "-"@,
            })
            &&& r[4] == "  breaking: "@ + (if c.breaking {
                "yes"@
            } else {
                "no"@
            })
            &&& r[5] == "  body:     "@ + (match c.body {
                Some(body) => body,
                None => "-"@,
            })
            &&& forall|i: int|
                0 <= i < c.footers.len() ==> #[trigger] r[6 + i] == "  footer:   "@
                    + c.footers[i].token + ": "@ + c.footers[i].value
        }),
{
    let r = spec_report(source, c);
    assert forall|i: int| 0 <= i < c.footers.len() implies #[trigger] r[6 + i] == "  footer:   "@
        + c.footers[i].token + ": "@ + c.footers[i].value by {
        assert(r[6 + i] == c.footers.map_values(|f: SpecFooter| footer_line(f))[i]);
    }
}

/// Joining a single paragraph gives that paragraph.
pub proof fn law_join_single(p: Seq<char>)
    ensures
        join_paragraphs(seq![p]) == p,
{
}

/// Joining keeps every paragraph: the join of two non-empty runs of
/// paragraphs is the join of the first, a blank line, and the join of the
/// second.
pub proof fn law_join_concat(a: Seq<Seq<char>>, b: Seq<Seq<char>>)
    requires
        a.len() > 0,
        b.len() > 0,
    ensures
        join_paragraphs(a + b) == join_paragraphs(a) + seq!['\n', '\n'] + join_paragraphs(b),
    decreases b.len(),
{
    let nn = seq!['\n', '\n'];
    if b.len() == 1 {
        assert((a + b).drop_last() =~= a);
        assert((a + b).last() == b[0]);
    } else {
        assert((a + b).drop_last() =~= a + b.drop_last());
        assert((a + b).last() == b.last());
        law_join_concat(a, b.drop_last());
        assert(join_paragraphs(a) + nn + join_paragraphs(b.drop_last()) + nn + b.last()
            =~= join_paragraphs(a) + nn + (join_paragraphs(b.drop_last()) + nn + b.last()));
    }
}

/// The length of a join: every paragraph, plus two characters between each
/// two.
pub open spec fn joined_len(ps: Seq<Seq<char>>) -> nat
    decreases ps.len(),
{
    if ps.len() == 0 {
        0
    } else {
        joined_len(ps.drop_last()) + ps.last().len() + (if ps.len() > 1 {
            2nat
        } else {
            0nat
        })
    }
}

/// Each paragraph of a join stands in it, whole, after the join of the
/// paragraphs before it and a blank line.
pub proof fn law_join_holds_each(ps: Seq<Seq<char>>, i: int)
    requires
        0 <= i < ps.len(),
    ensures
        join_paragraphs(ps).len() == joined_len(ps),
        joined_len(ps.take(i)) + (if i > 0 {
            2int
        } else {
            0int
        }) + ps[i].len() <= joined_len(ps),
        i == 0 ==> join_paragraphs(ps).take(ps[0].len() as int) == ps[0],
        i > 0 ==> join_paragraphs(ps).subrange(
            joined_len(ps.take(i)) as int,
            joined_len(ps.take(i)) + 2int + ps[i].len(),
        ) == seq!['\n', '\n'] + ps[i],
    decreases ps.len(),
{
    lemma_join_len(ps);
    lemma_joined_len_step(ps, i);
    lemma_joined_len_prefix(ps, i + 1);
    if i + 1 < ps.len() {
        let dl = ps.drop_last();
        law_join_holds_each(dl, i);
        assert(dl.take(i) =~= ps.take(i));
        assert(dl[i] == ps[i]);
        lemma_join_len(dl);
        let j = join_paragraphs(dl);
        assert(join_paragraphs(ps) == j + seq!['\n', '\n'] + ps.last());
        if i == 0 {
            assert((j + seq!['\n', '\n'] + ps.last()).take(ps[0].len() as int) =~= j.take(
                ps[0].len() as int,
            ));
        } else {
            let lo = joined_len(ps.take(i)) as int;
            assert(joined_len(dl.take(i)) == joined_len(ps.take(i)));
            assert(lo + 2 + ps[i].len() <= j.len());
            assert((j + seq!['\n', '\n'] + ps.last()).subrange(lo, lo + 2 + ps[i].len())
                =~= j.subrange(lo, lo + 2 + ps[i].len()));
        }
    } else {
        assert(ps.take(i) =~= ps.drop_last());
        lemma_join_len(ps.drop_last());
        if i == 0 {
            assert(ps =~= seq![ps[0]]);
            assert(join_paragraphs(ps).take(ps[0].len() as int) =~= ps[0]);
        } else {
            let j = join_paragraphs(ps.drop_last());
            assert(join_paragraphs(ps).subrange(j.len() as int, j.len() + 2int + ps[i].len())
                =~= seq!['\n', '\n'] + ps[i]);
        }
    }
}

/// `joined_len` grows by one paragraph (and a blank line after the first).
proof fn lemma_joined_len_step(ps: Seq<Seq<char>>, i: int)
    requires
        0 <= i < ps.len(),
    ensures
        joined_len(ps.take(i + 1)) == joined_len(ps.take(i)) + (if i > 0 {
            2int
        } else {
            0int
        }) + ps[i].len(),
{
    assert(ps.take(i + 1).drop_last() =~= ps.take(i));
    assert(ps.take(i + 1).last() == ps[i]);
    if i == 0 {
        assert(joined_len(ps.take(0)) == 0);
    }
}

/// A prefix of paragraphs joins to no more than the whole.
proof fn lemma_joined_len_prefix(ps: Seq<Seq<char>>, k: int)
    requires
        0 <= k <= ps.len(),
    ensures
        joined_len(ps.take(k)) <= joined_len(ps),
    decreases ps.len(),
{
    if k == ps.len() {
        assert(ps.take(k) =~= ps);
    } else {
        lemma_joined_len_prefix(ps.drop_last(), k);
        assert(ps.drop_last().take(k) =~= ps.take(k));
    }
}

/// `joined_len` is the length of the join.
proof fn lemma_join_len(ps: Seq<Seq<char>>)
    ensures
        join_paragraphs(ps).len() == joined_len(ps),
    decreases ps.len(),
{
    if ps.len() > 1 {
        lemma_join_len(ps.drop_last());
    } else if ps.len() == 1 {
        assert(ps.drop_last().len() == 0);
        assert(joined_len(ps.drop_last()) == 0);
    }
}

/// `k` is the first `c` of `s`: `index_of` finds exactly it.
proof fn lemma_index_of_first(s: Seq<char>, c: char, k: int)
    requires
        0 <= k < s.len(),
        s[k] == c,
        !s.take(k).contains(c),
    ensures
        index_of(s, c) == k,
{
    lemma_index_of_bound(s, c);
    let i = index_of(s, c) as int;
    if i < k {
        assert(s.take(k)[i] == c);
    }
}

/// The description is everything after the first `:`, trimmed: a header
/// without `:` is refused for its missing separator, and a header with one
/// is refused for an empty description exactly when nothing but whitespace
/// follows it; otherwise a parsed header has that trimmed text as its
/// description, whatever whitespace (none included) follows the `:`.
pub proof fn law_description_after_first_colon(h: Seq<char>, k: int)
    requires
        0 <= k < h.len(),
        h[k] == ':',
        !h.take(k).contains(':'),
    ensures
        spec_parse_header(h) == Err::<SpecHeader, SpecError>(
            SpecError::EmptyDescription { header: h },
        ) <==> trim(h.skip(k + 1)).len() == 0,
        spec_parse_header(h) matches Ok(parts) ==> parts.description == trim(h.skip(k + 1)),
{
    lemma_index_of_first(h, ':', k);
}

/// A header without `:` is refused for its missing separator, and only such
/// a header is.
pub proof fn law_missing_separator(h: Seq<char>)
    ensures
        spec_parse_header(h) == Err::<SpecHeader, SpecError>(
            SpecError::MissingSeparator { header: h },
        ) <==> !h.contains(':'),
{
    lemma_index_of_bound(h, ':');
    if !h.contains(':') {
        lemma_index_of_absent(h, ':');
    } else {
        let k = choose|k: int| 0 <= k < h.len() && h[k] == ':';
        if index_of(h, ':') == h.len() {
            assert(h[k] != ':');
        }
    }
}

/// Everything after the first line is body and footers: a parsed commit's
/// body and footers are what the normalised message after its first `'\n'`
/// splits into, and a one-line message has neither.
pub proof fn law_rest_after_first_line(message: Seq<char>, k: int)
    ensures
        ({
            let m = normalized_message(message);
            spec_parse(message) matches Ok(c) ==> {
                &&& (0 <= k < m.len() && m[k] == '\n' && !m.take(k).contains('\n')) ==> (
                c.body,
                c.footers,
            ) == spec_split_body_and_footers(m.skip(k + 1))
                &&& !m.contains('\n') ==> c.body is None && c.footers.len() == 0
            }
        }),
{
    let m = normalized_message(message);
    if 0 <= k < m.len() && m[k] == '\n' && !m.take(k).contains('\n') {
        lemma_index_of_first(m, '\n', k);
    }
    if !m.contains('\n') {
        lemma_index_of_absent(m, '\n');
        let e: Seq<char> = seq![];
        lemma_trim_empty(e);
    }
}

/// A sequence without `'\n'` has no blank-line separator.
proof fn lemma_blank_line_absent(s: Seq<char>)
    requires
        !s.contains('\n'),
    ensures
        blank_line_at(s) == s.len(),
    decreases s.len(),
{
    if s.len() >= 2 {
        assert(s[0] != '\n');
        assert(!s.drop_first().contains('\n')) by {
            if s.drop_first().contains('\n') {
                let j = choose|j: int| 0 <= j < s.drop_first().len() && s.drop_first()[j] == '\n';
                assert(s[j + 1] == '\n');
            }
        }
        lemma_blank_line_absent(s.drop_first());
    }
}

/// A piece of a sequence lacks what the sequence lacks.
proof fn lemma_subrange_lacks(s: Seq<char>, i: int, j: int, c: char)
    requires
        0 <= i <= j <= s.len(),
        !s.contains(c),
    ensures
        !s.subrange(i, j).contains(c),
{
    if s.subrange(i, j).contains(c) {
        let t = choose|t: int| 0 <= t < j - i && s.subrange(i, j)[t] == c;
        assert(s[i + t] == c);
    }
}

/// Trimming `h + "\n" + b` keeps `h` and the newline and cuts `b` at `j`,
/// after which `b` holds only whitespace and before which it ends in text.
proof fn lemma_two_line_trim(h: Seq<char>, b: Seq<char>) -> (j: int)
    requires
        h.len() > 0,
        trim(h) == h,
        trim(b).len() > 0,
    ensures
        0 < j <= b.len(),
        trim(h + seq!['\n'] + b) == h + seq!['\n'] + b.take(j),
        all_white_space(b.skip(j)),
        !white_space(b[j - 1]),
{
    lemma_trimmed_ends(h);
    let s = h + seq!['\n'] + b;
    let n = h.len() as int;
    let (a, e) = lemma_trim_bounds(s);
    if a > 0 {
        assert(s.take(a)[0] == h[0]);
    }
    lemma_trim_empty(b);
    let w = choose|w: int| 0 <= w < b.len() && !white_space(#[trigger] b[w]);
    assert(s[n + 1 + w] == b[w]);
    if e <= n + 1 + w {
        assert(s.skip(e)[n + 1 + w - e] == b[w]);
    }
    let j = e - n - 1;
    assert(s.subrange(n + 1, e) =~= b.take(j));
    assert(trim(s) =~= h + seq!['\n'] + b.take(j));
    assert(b[j - 1] == s[e - 1]);
    assert forall|i: int| 0 <= i < b.skip(j).len() implies white_space(#[trigger] b.skip(j)[i]) by {
        assert(b.skip(j)[i] == s.skip(e)[i]);
    }
    j
}

/// A piece of `b` that is followed only by whitespace and ends in text trims
/// as `b` does.
proof fn lemma_trim_cut(b: Seq<char>, j: int)
    requires
        0 < j <= b.len(),
        all_white_space(b.skip(j)),
        !white_space(b[j - 1]),
    ensures
        trim(b.take(j)) == trim(b),
{
    let r = b.take(j);
    let q = b.skip(j);
    let (pa, pe) = lemma_trim_bounds(r);
    if pe < r.len() {
        assert(r.skip(pe)[r.len() - 1 - pe] == r.last());
    }
    assert(r.skip(pe).len() == 0);
    let t = r.subrange(pa, pe);
    assert(b =~= r.take(pa) + t + q);
    lemma_trim_parts(r.take(pa), t, q);
}

/// Trimming and normalising `h + "\n" + b` keeps `h` as the first line and
/// leaves after it a piece `r` of `b` that trims as `b` does.
proof fn lemma_two_line_message(h: Seq<char>, b: Seq<char>) -> (r: Seq<char>)
    requires
        h.len() > 0,
        trim(h) == h,
        !h.contains('\n'),
        !h.contains('\r'),
        !b.contains('\n'),
        !b.contains('\r'),
        trim(b).len() > 0,
    ensures
        normalized_message(h + seq!['\n'] + b) == h + seq!['\n'] + r,
        trim(r) == trim(b),
        !r.contains('\n'),
{
    let j = lemma_two_line_trim(h, b);
    let r = b.take(j);
    lemma_trim_cut(b, j);
    lemma_subrange_lacks(b, 0, j, '\r');
    lemma_subrange_lacks(b, 0, j, '\n');
    assert(h + seq!['\n'] + r =~= h + (seq!['\n'] + r));
    lemma_normalize_prefix(h, seq!['\n'] + r);
    lemma_normalize_prefix(seq!['\n'], r);
    let e0: Seq<char> = seq![];
    lemma_normalize_prefix(r, e0);
    assert(r + e0 =~= r);
    assert(normalize_newlines(e0) =~= e0);
    assert(r + normalize_newlines(e0) =~= r);
    r
}

/// One line of text that is no footer splits into that line, trimmed, as
/// the body, and no footers.
proof fn lemma_one_line_rest(r: Seq<char>)
    requires
        !r.contains('\n'),
        trim(r).len() > 0,
        spec_parse_footer(trim(r)) is None,
    ensures
        spec_split_body_and_footers(r) == (Some(trim(r)), Seq::<SpecFooter>::empty()),
{
    let t = trim(r);
    let (pa, pe) = lemma_trim_bounds(r);
    lemma_blank_line_absent(r);
    assert(r.take(r.len() as int) =~= r);
    assert(paragraphs(r) =~= seq![t]);
    lemma_subrange_lacks(r, pa, pe, '\n');
    lemma_index_of_absent(t, '\n');
    assert(lines(t) =~= seq![t]);
    lemma_trim_idempotent(r);
    lemma_trimmed_ends(t);
    assert(!is_continuation(t)) by {
        assert(!white_space(t[0]));
    }
    assert(!spec_is_footer_block(t)) by {
        if spec_is_footer_block(t) {
            assert(lines(t)[0] == t);
        }
    }
    assert(seq![t].last() == t);
    assert(join_paragraphs(seq![t]) == t);
}

/// A header line followed by one line of text that is no footer parses with
/// that line, trimmed, as its body and with no footers.
pub proof fn law_single_line_body(h: Seq<char>, b: Seq<char>)
    requires
        h.len() > 0,
        trim(h) == h,
        !h.contains('\n'),
        !h.contains('\r'),
        spec_parse_header(h) is Ok,
        !b.contains('\n'),
        !b.contains('\r'),
        trim(b).len() > 0,
        spec_parse_footer(trim(b)) is None,
    ensures
        spec_parse(h + seq!['\n'] + b) matches Ok(c) && c.body == Some(trim(b)) && c.footers.len()
            == 0,
{
    lemma_trimmed_ends(h);
    let r = lemma_two_line_message(h, b);
    let m = h + seq!['\n'] + r;
    let n = h.len() as int;
    lemma_index_of_after(h, seq!['\n'] + r, '\n');
    assert(m =~= h + (seq!['\n'] + r));
    assert(m.take(n) =~= h);
    assert(m.skip(n + 1) =~= r);
    assert(after_header(m) == r);
    assert(trim_end(h) == h);
    assert(header_line(m) == h);
    lemma_one_line_rest(r);
}

/// Every paragraph is non-empty with no whitespace at either end.
proof fn lemma_paragraphs_clean(s: Seq<char>)
    ensures
        forall|i: int|
            0 <= i < paragraphs(s).len() ==> clean_ends(#[trigger] paragraphs(s)[i]),
    decreases s.len(),
{
    let k = blank_line_at(s);
    let piece = trim(s.take(k as int));
    let (a, b) = lemma_trim_bounds(s.take(k as int));
    let tail = if k + 2 <= s.len() {
        paragraphs(s.skip(k + 2int))
    } else {
        seq![]
    };
    if k + 2 <= s.len() {
        lemma_paragraphs_clean(s.skip(k + 2int));
    }
    if piece.len() > 0 {
        assert(piece[0] == s.take(k as int)[a]);
        assert(piece.last() == s.take(k as int)[b - 1]);
        assert forall|i: int| 0 <= i < paragraphs(s).len() implies clean_ends(
            #[trigger] paragraphs(s)[i],
        ) by {
            if i > 0 {
                assert(paragraphs(s)[i] == tail[i - 1]);
            }
        }
    }
}

/// A blank text has no paragraphs.
proof fn lemma_paragraphs_blank(s: Seq<char>)
    requires
        all_white_space(s),
    ensures
        paragraphs(s).len() == 0,
    decreases s.len(),
{
    let k = blank_line_at(s);
    lemma_blank_line_bound(s);
    assert(all_white_space(s.take(k as int))) by {
        assert forall|i: int| 0 <= i < k implies white_space(#[trigger] s.take(k as int)[i]) by {
            assert(s.take(k as int)[i] == s[i]);
        }
    }
    lemma_trim_empty(s.take(k as int));
    if k + 2 <= s.len() {
        assert(all_white_space(s.skip(k + 2int))) by {
            assert forall|i: int| 0 <= i < s.skip(k + 2int).len() implies white_space(
                #[trigger] s.skip(k + 2int)[i],
            ) by {
                assert(s.skip(k + 2int)[i] == s[k + 2 + i]);
            }
        }
        lemma_paragraphs_blank(s.skip(k + 2int));
    }
}

/// `blank_line_at` lands inside the sequence or just past it.
proof fn lemma_blank_line_bound(s: Seq<char>)
    ensures
        blank_line_at(s) <= s.len(),
    decreases s.len(),
{
    if s.len() >= 2 && !(s[0] == '\n' && s[1] == '\n') {
        lemma_blank_line_bound(s.drop_first());
    }
}

/// The join of clean paragraphs is clean too, and so its own trim.
proof fn lemma_join_clean(ps: Seq<Seq<char>>)
    requires
        ps.len() > 0,
        forall|i: int| 0 <= i < ps.len() ==> clean_ends(#[trigger] ps[i]),
    ensures
        trim(join_paragraphs(ps)) == join_paragraphs(ps),
        join_paragraphs(ps).len() > 0,
{
    law_join_holds_each(ps, 0);
    let j = join_paragraphs(ps);
    assert(clean_ends(ps[0]));
    assert(clean_ends(ps[ps.len() - 1]));
    assert(j.take(ps[0].len() as int)[0] == j[0]);
    if ps.len() > 1 {
        assert(j.last() == ps.last().last());
    } else {
        assert(j == ps[0]);
    }
    lemma_clean_trimmed(j);
}

/// The body keeps every paragraph that is not the footer block: with no
/// footers, the body is the join of all paragraphs; with footers (read from
/// the last paragraph), it is the join of the ones before, or none when there
/// are none before.
pub proof fn law_body_keeps_paragraphs(rest: Seq<char>)
    ensures
        ({
            let (body, footers) = spec_split_body_and_footers(rest);
            let ps = paragraphs(rest);
            &&& ps.len() == 0 ==> body is None && footers.len() == 0
            &&& footers.len() == 0 && ps.len() > 0 ==> body == Some(join_paragraphs(ps))
            &&& footers.len() > 0 ==> ps.len() > 0 && footers == spec_footer_block(ps.last())
                && body == (if ps.len() > 1 {
                Some(join_paragraphs(ps.drop_last()))
            } else {
                None::<Seq<char>>
            })
        }),
{
    let ps = paragraphs(rest);
    lemma_paragraphs_clean(rest);
    if trim(rest).len() == 0 {
        lemma_trim_empty(rest);
        lemma_paragraphs_blank(rest);
    }
    if ps.len() > 0 {
        lemma_join_clean(ps);
    }
    if ps.len() > 1 {
        assert forall|i: int| 0 <= i < ps.drop_last().len() implies clean_ends(
            #[trigger] ps.drop_last()[i],
        ) by {
            assert(ps.drop_last()[i] == ps[i]);
        }
        lemma_join_clean(ps.drop_last());
    }
}

/// `as_str` undoes `from_raw`: the keyword of the kind a raw type denotes is
/// that raw type.
pub proof fn law_keyword_of_from_raw(raw: Seq<char>)
    ensures
        spec_from_raw(raw).keyword() == raw,
{
}

/// `from_raw` undoes `as_str` for every kind that `from_raw` can make: the
/// recommended kinds, and `Other` with a type outside the recommended set.
pub proof fn law_from_raw_of_keyword(kind: SpecCommitKind)
    requires
        kind matches SpecCommitKind::Other(raw) ==> spec_from_raw(raw) == kind,
    ensures
        spec_from_raw(kind.keyword()) == kind,
{
    reveal_strlit("feat");
    reveal_strlit("fix");
    reveal_strlit("docs");
    reveal_strlit("style");
    reveal_strlit("refactor");
    reveal_strlit("perf");
    reveal_strlit("test");
    reveal_strlit("build");
    reveal_strlit("ci");
    reveal_strlit("chore");
    reveal_strlit("revert");
    match kind {
        SpecCommitKind::Feat => {},
        SpecCommitKind::Fix => {
            assert("fix"@.len() != "feat"@.len());
        },
        SpecCommitKind::Docs => {
            assert("docs"@[0] != "feat"@[0]);
            assert("docs"@.len() != "fix"@.len());
        },
        SpecCommitKind::Style => {
            assert("style"@.len() != "feat"@.len());
            assert("style"@.len() != "fix"@.len());
            assert("style"@.len() != "docs"@.len());
        },
        SpecCommitKind::Refactor => {
            assert("refactor"@.len() != "feat"@.len());
            assert("refactor"@.len() != "fix"@.len());
            assert("refactor"@.len() != "docs"@.len());
            assert("refactor"@.len() != "style"@.len());
        },
        SpecCommitKind::Perf => {
            assert("perf"@[0] != "feat"@[0]);
            assert("perf"@.len() != "fix"@.len());
            assert("perf"@[0] != "docs"@[0]);
            assert("perf"@.len() != "style"@.len());
            assert("perf"@.len() != "refactor"@.len());
        },
        SpecCommitKind::Test => {
            assert("test"@[0] != "feat"@[0]);
            assert("test"@.len() != "fix"@.len());
            assert("test"@[0] != "docs"@[0]);
            assert("test"@.len() != "style"@.len());
            assert("test"@.len() != "refactor"@.len());
            assert("test"@[0] != "perf"@[0]);
        },
        SpecCommitKind::Build => {
            assert("build"@.len() != "feat"@.len());
            assert("build"@.len() != "fix"@.len());
            assert("build"@.len() != "docs"@.len());
            assert("build"@[0] != "style"@[0]);
            assert("build"@.len() != "refactor"@.len());
            assert("build"@.len() != "perf"@.len());
            assert("build"@.len() != "test"@.len());
        },
        SpecCommitKind::Ci => {
            assert("ci"@.len() != "feat"@.len());
            assert("ci"@.len() != "fix"@.len());
            assert("ci"@.len() != "docs"@.len());
            assert("ci"@.len() != "style"@.len());
            assert("ci"@.len() != "refactor"@.len());
            assert("ci"@.len() != "perf"@.len());
            assert("ci"@.len() != "test"@.len());
            assert("ci"@.len() != "build"@.len());
        },
        SpecCommitKind::Chore => {
            assert("chore"@.len() != "feat"@.len());
            assert("chore"@.len() != "fix"@.len());
            assert("chore"@.len() != "docs"@.len());
            assert("chore"@[0] != "style"@[0]);
            assert("chore"@.len() != "refactor"@.len());
            assert("chore"@.len() != "perf"@.len());
            assert("chore"@.len() != "test"@.len());
            assert("chore"@[0] != "build"@[0]);
            assert("chore"@.len() != "ci"@.len());
        },
        SpecCommitKind::Revert => {
            assert("revert"@.len() != "feat"@.len());
            assert("revert"@.len() != "fix"@.len());
            assert("revert"@.len() != "docs"@.len());
            assert("revert"@.len() != "style"@.len());
            assert("revert"@.len() != "refactor"@.len());
            assert("revert"@.len() != "perf"@.len());
            assert("revert"@.len() != "test"@.len());
            assert("revert"@.len() != "build"@.len());
            assert("revert"@.len() != "ci"@.len());
            assert("revert"@.len() != "chore"@.len());
        },
        SpecCommitKind::Other(_) => {},
    }
}

} // verus!
