//! The identities of lines: what they tell apart.

use crate::diff_parser;
use crate::diff_parser::{DiffLineView, LineKind, ParsedDiffView};
use crate::number;
use crate::parser_laws;
use crate::text;
use vstd::prelude::*;

verus! {

/// A text without a bar.
pub open spec fn no_bar(s: Seq<char>) -> bool {
    !s.contains('|')
}

/// The path of the file of a line; empty where the file is unknown.
pub open spec fn path_text(line: DiffLineView) -> Seq<char> {
    match line.file_path {
        Some(path) => path,
        None => seq![],
    }
}

/// The identities of two lines can be told apart by what follows the paths: the lines belong to
/// one file, or to files without a bar in their paths.
pub open spec fn paths_comparable(a: DiffLineView, b: DiffLineView) -> bool {
    path_text(a) == path_text(b) || (no_bar(path_text(a)) && no_bar(path_text(b)))
}

/// A text up to its first bar is determined, and so is what follows it.
proof fn lemma_bar_split(a: Seq<char>, rest_a: Seq<char>, b: Seq<char>, rest_b: Seq<char>)
    requires
        no_bar(a),
        no_bar(b),
        a + ("|"@ + rest_a) == b + ("|"@ + rest_b),
    ensures
        a == b,
        rest_a == rest_b,
{
    reveal_strlit("|");
    let whole = a + ("|"@ + rest_a);
    let other = b + ("|"@ + rest_b);
    assert(whole[a.len() as int] == '|');
    assert(other[b.len() as int] == '|');
    if a.len() < b.len() {
        assert(b[a.len() as int] == other[a.len() as int]);
        assert(b.contains('|'));
    }
    if b.len() < a.len() {
        assert(a[b.len() as int] == whole[b.len() as int]);
        assert(a.contains('|'));
    }
    assert(a =~= whole.take(a.len() as int));
    assert(b =~= other.take(b.len() as int));
    assert(rest_a =~= whole.skip(a.len() as int + 1));
    assert(rest_b =~= other.skip(b.len() as int + 1));
}

/// A numeral has no bar and determines its number.
proof fn lemma_opt_decimal(a: Option<usize>, b: Option<usize>)
    ensures
        no_bar(number::opt_decimal(a)),
        number::opt_decimal(a) == number::opt_decimal(b) ==> a == b,
{
    if let Some(n) = a {
        number::lemma_decimal(n as nat);
        let s = number::decimal(n as nat);
        assert forall|j: int| 0 <= j < s.len() implies s[j] != '|' by {
            assert(number::is_digit(s[j]));
        }
    }
    if let Some(n) = b {
        number::lemma_decimal(n as nat);
    }
}

/// The name of a kind has no bar and determines the kind.
proof fn lemma_kind_name(a: LineKind, b: LineKind)
    ensures
        no_bar(a.name()),
        a.name() == b.name() ==> a == b,
{
    reveal_strlit("file");
    reveal_strlit("meta");
    reveal_strlit("hunk");
    reveal_strlit("add");
    reveal_strlit("delete");
    reveal_strlit("context");
    reveal_strlit("note");
    if a.name() == b.name() {
        assert(a.name()[0] == b.name()[0]);
    }
}

/// What follows the path in an identity.
spec fn id_tail(line: DiffLineView) -> Seq<char> {
    number::opt_decimal(line.hunk_index) + ("|"@ + (line.kind.name() + ("|"@ + (
    number::opt_decimal(line.old_lineno) + ("|"@ + (number::opt_decimal(line.new_lineno) + ("|"@
        + line.raw)))))))
}

/// An identity is the path and then the rest.
proof fn lemma_id(line: DiffLineView)
    ensures
        line.id() == path_text(line) + ("|"@ + id_tail(line)),
{
    let bar = "|"@;
    let (hunk, kind) = (number::opt_decimal(line.hunk_index), line.kind.name());
    let (old, new) = (number::opt_decimal(line.old_lineno), number::opt_decimal(line.new_lineno));
    let a = path_text(line) + bar;
    let b = a + hunk + bar;
    let c = b + kind + bar;
    let d = c + old + bar;
    lemma_append(d, new, bar, line.raw);
    lemma_append(c, old, bar, new + (bar + line.raw));
    lemma_append(b, kind, bar, old + (bar + (new + (bar + line.raw))));
    lemma_append(a, hunk, bar, kind + (bar + (old + (bar + (new + (bar + line.raw))))));
    assert(a + id_tail(line) =~= path_text(line) + (bar + id_tail(line)));
}

/// Appending texts one by one is appending them together.
proof fn lemma_append(a: Seq<char>, b: Seq<char>, c: Seq<char>, d: Seq<char>)
    ensures
        a + b + c + d == a + (b + (c + d)),
{
    assert(a + b + c + d =~= a + (b + (c + d)));
}

/// Lines of one file, or of files without a bar in their paths, that have the same identity have
/// the same hunk, kind, line numbers and text, and are lines of one path.
pub proof fn law_identity_determines_line(a: DiffLineView, b: DiffLineView)
    requires
        paths_comparable(a, b),
        a.id() == b.id(),
    ensures
        path_text(a) == path_text(b),
        a.hunk_index == b.hunk_index,
        a.kind == b.kind,
        a.old_lineno == b.old_lineno,
        a.new_lineno == b.new_lineno,
        a.raw == b.raw,
{
    lemma_id(a);
    lemma_id(b);
    let (pa, pb) = (path_text(a), path_text(b));
    if pa == pb {
        let n = pa.len() as int;
        assert(("|"@ + id_tail(a)) =~= a.id().skip(n));
        assert(("|"@ + id_tail(b)) =~= b.id().skip(n));
        reveal_strlit("|");
        assert(id_tail(a) =~= ("|"@ + id_tail(a)).skip(1));
        assert(id_tail(b) =~= ("|"@ + id_tail(b)).skip(1));
    } else {
        lemma_bar_split(pa, id_tail(a), pb, id_tail(b));
    }
    let new_a = number::opt_decimal(a.new_lineno) + ("|"@ + a.raw);
    let new_b = number::opt_decimal(b.new_lineno) + ("|"@ + b.raw);
    let old_a = number::opt_decimal(a.old_lineno) + ("|"@ + new_a);
    let old_b = number::opt_decimal(b.old_lineno) + ("|"@ + new_b);
    let kind_a = a.kind.name() + ("|"@ + old_a);
    let kind_b = b.kind.name() + ("|"@ + old_b);
    lemma_opt_decimal(a.hunk_index, b.hunk_index);
    lemma_opt_decimal(b.hunk_index, a.hunk_index);
    lemma_bar_split(
        number::opt_decimal(a.hunk_index),
        kind_a,
        number::opt_decimal(b.hunk_index),
        kind_b,
    );
    lemma_kind_name(a.kind, b.kind);
    lemma_kind_name(b.kind, a.kind);
    lemma_bar_split(a.kind.name(), old_a, b.kind.name(), old_b);
    lemma_opt_decimal(a.old_lineno, b.old_lineno);
    lemma_opt_decimal(b.old_lineno, a.old_lineno);
    lemma_bar_split(
        number::opt_decimal(a.old_lineno),
        new_a,
        number::opt_decimal(b.old_lineno),
        new_b,
    );
    lemma_opt_decimal(a.new_lineno, b.new_lineno);
    lemma_opt_decimal(b.new_lineno, a.new_lineno);
    lemma_bar_split(
        number::opt_decimal(a.new_lineno),
        a.raw,
        number::opt_decimal(b.new_lineno),
        b.raw,
    );
}

/// The counts of lines of a file grow with each of its lines.
proof fn lemma_counts_grow(parsed: ParsedDiffView, h: int, p: int, q: int)
    requires
        0 <= h < parsed.hunks.len(),
        0 <= p < q <= parsed.hunks[h].line_indices.len(),
    ensures
        ({
            let hunk = parsed.hunks[h];
            let kind = parsed.lines[hunk.line_indices[p] as int].kind;
            let lines = parsed.lines;
            &&& parser_laws::old_before(lines, hunk, p) + (if diff_parser::in_old(kind) {
                1int
            } else {
                0
            }) <= parser_laws::old_before(lines, hunk, q)
            &&& parser_laws::new_before(lines, hunk, p) + (if diff_parser::in_new(kind) {
                1int
            } else {
                0
            }) <= parser_laws::new_before(lines, hunk, q)
        }),
    decreases q,
{
    if p < q - 1 {
        lemma_counts_grow(parsed, h, p, q - 1);
    }
}

/// Two lines at different places in one hunk differ in kind or number.
proof fn lemma_places_differ(parsed: ParsedDiffView, h: int, p: int, q: int)
    requires
        parser_laws::is_consistent(parsed),
        0 <= h < parsed.hunks.len(),
        0 <= p < q < parsed.hunks[h].line_indices.len(),
    ensures
        ({
            let a = parsed.lines[parsed.hunks[h].line_indices[p] as int];
            let b = parsed.lines[parsed.hunks[h].line_indices[q] as int];
            parser_laws::is_selectable_kind(a.kind) && a.kind == b.kind && a.old_lineno != Some(
                usize::MAX,
            ) && a.new_lineno != Some(usize::MAX) ==> a.old_lineno != b.old_lineno || a.new_lineno
                != b.new_lineno
        }),
{
    assert(parser_laws::body_line_ok(parsed.lines, parsed.hunks, h, p));
    assert(parser_laws::body_line_ok(parsed.lines, parsed.hunks, h, q));
    lemma_counts_grow(parsed, h, p, q);
}

/// In a diff that was read, two lines that can be selected have different identities, where they
/// belong to one file or to files without a bar in their paths, and the line numbers have not come
/// to their largest value.
pub proof fn law_identities_are_distinct(diff: Seq<char>, i: int, j: int)
    requires
        text::lines_of(diff).len() <= usize::MAX,
        0 <= i < diff_parser::parsed_diff(diff).lines.len(),
        0 <= j < diff_parser::parsed_diff(diff).lines.len(),
        i != j,
        diff_parser::parsed_diff(diff).lines[i].selectable,
        diff_parser::parsed_diff(diff).lines[j].selectable,
        diff_parser::parsed_diff(diff).lines[i].old_lineno != Some(usize::MAX),
        diff_parser::parsed_diff(diff).lines[i].new_lineno != Some(usize::MAX),
        paths_comparable(
            diff_parser::parsed_diff(diff).lines[i],
            diff_parser::parsed_diff(diff).lines[j],
        ),
    ensures
        diff_parser::parsed_diff(diff).lines[i].id() != diff_parser::parsed_diff(
            diff,
        ).lines[j].id(),
{
    let parsed = diff_parser::parsed_diff(diff);
    let a = parsed.lines[i];
    let b = parsed.lines[j];
    if a.id() == b.id() {
        parser_laws::law_parsing_is_consistent(diff);
        law_identity_determines_line(a, b);
        assert(parser_laws::line_ok(parsed.lines, parsed.hunks, i));
        assert(parser_laws::line_ok(parsed.lines, parsed.hunks, j));
        let h = a.hunk_index->0 as int;
        let p = a.hunk_line_index->0 as int;
        let q = b.hunk_line_index->0 as int;
        if p < q {
            lemma_places_differ(parsed, h, p, q);
        } else if q < p {
            lemma_places_differ(parsed, h, q, p);
        }
    }
}

} // verus!
