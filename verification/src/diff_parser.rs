//! The unified diff format: from the text of a diff to its lines and hunks.

use crate::number;
use crate::text;
use vstd::prelude::*;

verus! {

/// What a line of a diff is.
#[derive(Clone, Copy, Debug, PartialEq, Eq, Structural)]
pub enum LineKind {
    File,
    Meta,
    Hunk,
    Add,
    Delete,
    Context,
    Note,
}

impl LineKind {
    /// The name of the kind.
    pub open spec fn name(self) -> Seq<char> {
        match self {
            LineKind::File => "file"@,
            LineKind::Meta => "meta"@,
            LineKind::Hunk => "hunk"@,
            LineKind::Add => "add"@,
            LineKind::Delete => "delete"@,
            LineKind::Context => "context"@,
            LineKind::Note => "note"@,
        }
    }

    /// The name of the kind.
    pub fn as_str(self) -> (name: &'static str)
        ensures
            name@ == self.name(),
    {
        match self {
            LineKind::File => "file",
            LineKind::Meta => "meta",
            LineKind::Hunk => "hunk",
            LineKind::Add => "add",
            LineKind::Delete => "delete",
            LineKind::Context => "context",
            LineKind::Note => "note",
        }
    }
}

/// One line of a diff, with its place in the files and in the hunks.
#[derive(Debug, PartialEq, Eq)]
pub struct DiffLine {
    pub raw: String,
    pub kind: LineKind,
    pub file_path: Option<String>,
    pub old_lineno: Option<usize>,
    pub new_lineno: Option<usize>,
    pub hunk_index: Option<usize>,
    pub hunk_line_index: Option<usize>,
    pub selectable: bool,
}

/// The model of a `DiffLine`.
#[verifier::ext_equal]
pub struct DiffLineView {
    pub raw: Seq<char>,
    pub kind: LineKind,
    pub file_path: Option<Seq<char>>,
    pub old_lineno: Option<usize>,
    pub new_lineno: Option<usize>,
    pub hunk_index: Option<usize>,
    pub hunk_line_index: Option<usize>,
    pub selectable: bool,
}

/// One hunk of a diff.
#[derive(Debug, PartialEq, Eq)]
pub struct Hunk {
    pub index: usize,
    pub file_path: Option<String>,
    pub header: String,
    pub old_start: usize,
    pub old_count: usize,
    pub new_start: usize,
    pub new_count: usize,
    pub section: String,
    pub line_indices: Vec<usize>,
}

/// The model of a `Hunk`.
#[verifier::ext_equal]
pub struct HunkView {
    pub index: usize,
    pub file_path: Option<Seq<char>>,
    pub header: Seq<char>,
    pub old_start: usize,
    pub old_count: usize,
    pub new_start: usize,
    pub new_count: usize,
    pub section: Seq<char>,
    pub line_indices: Seq<usize>,
}

/// A diff: all its lines, and its hunks, which refer to the lines by index.
#[derive(Debug, PartialEq, Eq)]
pub struct ParsedDiff {
    pub lines: Vec<DiffLine>,
    pub hunks: Vec<Hunk>,
}

/// The model of a `ParsedDiff`.
#[verifier::ext_equal]
pub struct ParsedDiffView {
    pub lines: Seq<DiffLineView>,
    pub hunks: Seq<HunkView>,
}

/// The text of an optional string.
pub open spec fn opt_text(s: Option<String>) -> Option<Seq<char>> {
    match s {
        Some(s) => Some(s@),
        None => None,
    }
}

/// The models of a sequence of lines.
pub open spec fn line_views(lines: Seq<DiffLine>) -> Seq<DiffLineView> {
    lines.map_values(|line: DiffLine| line@)
}

/// The models of a sequence of hunks.
pub open spec fn hunk_views(hunks: Seq<Hunk>) -> Seq<HunkView> {
    hunks.map_values(|hunk: Hunk| hunk@)
}

impl View for DiffLine {
    type V = DiffLineView;

    open spec fn view(&self) -> DiffLineView {
        DiffLineView {
            raw: self.raw@,
            kind: self.kind,
            file_path: opt_text(self.file_path),
            old_lineno: self.old_lineno,
            new_lineno: self.new_lineno,
            hunk_index: self.hunk_index,
            hunk_line_index: self.hunk_line_index,
            selectable: self.selectable,
        }
    }
}

impl View for Hunk {
    type V = HunkView;

    open spec fn view(&self) -> HunkView {
        HunkView {
            index: self.index,
            file_path: opt_text(self.file_path),
            header: self.header@,
            old_start: self.old_start,
            old_count: self.old_count,
            new_start: self.new_start,
            new_count: self.new_count,
            section: self.section@,
            line_indices: self.line_indices@,
        }
    }
}

impl View for ParsedDiff {
    type V = ParsedDiffView;

    open spec fn view(&self) -> ParsedDiffView {
        ParsedDiffView { lines: line_views(self.lines@), hunks: hunk_views(self.hunks@) }
    }
}

/// A copy of an optional string.
pub fn copy_opt(s: &Option<String>) -> (copy: Option<String>)
    ensures
        copy == *s,
{
    match s {
        Some(s) => Some(s.clone()),
        None => None,
    }
}

impl Clone for DiffLine {
    fn clone(&self) -> (copy: Self)
        ensures
            copy == *self,
    {
        DiffLine {
            raw: self.raw.clone(),
            kind: self.kind,
            file_path: copy_opt(&self.file_path),
            old_lineno: self.old_lineno,
            new_lineno: self.new_lineno,
            hunk_index: self.hunk_index,
            hunk_line_index: self.hunk_line_index,
            selectable: self.selectable,
        }
    }
}

/// Copies of indices.
fn copy_indices(indices: &[usize]) -> (copies: Vec<usize>)
    ensures
        copies@ == indices@,
{
    let mut copies: Vec<usize> = Vec::new();
    let mut i: usize = 0;
    while i < indices.len()
        invariant
            i <= indices@.len(),
            copies@ == indices@.take(i as int),
        decreases indices@.len() - i,
    {
        copies.push(indices[i]);
        assert(copies@ =~= indices@.take(i + 1));
        i += 1;
    }
    assert(indices@.take(indices@.len() as int) =~= indices@);
    copies
}

impl Clone for Hunk {
    fn clone(&self) -> (copy: Self)
        ensures
            copy@ == self@,
    {
        Hunk {
            index: self.index,
            file_path: copy_opt(&self.file_path),
            header: self.header.clone(),
            old_start: self.old_start,
            old_count: self.old_count,
            new_start: self.new_start,
            new_count: self.new_count,
            section: self.section.clone(),
            line_indices: copy_indices(self.line_indices.as_slice()),
        }
    }
}

/// Copies of lines.
pub fn copy_lines(lines: &[DiffLine]) -> (copies: Vec<DiffLine>)
    ensures
        copies@ == lines@,
{
    let mut copies: Vec<DiffLine> = Vec::new();
    let mut i: usize = 0;
    while i < lines.len()
        invariant
            i <= lines@.len(),
            copies@ == lines@.take(i as int),
        decreases lines@.len() - i,
    {
        copies.push(lines[i].clone());
        assert(copies@ =~= lines@.take(i + 1));
        i += 1;
    }
    assert(lines@.take(lines@.len() as int) =~= lines@);
    copies
}

/// Copies of hunks.
fn copy_hunks(hunks: &[Hunk]) -> (copies: Vec<Hunk>)
    ensures
        hunk_views(copies@) == hunk_views(hunks@),
{
    let mut copies: Vec<Hunk> = Vec::new();
    let mut i: usize = 0;
    assert(hunk_views(copies@) =~= hunk_views(hunks@).take(0));
    while i < hunks.len()
        invariant
            i <= hunks@.len(),
            hunk_views(copies@) == hunk_views(hunks@).take(i as int),
        decreases hunks@.len() - i,
    {
        let ghost before = copies@;
        let copy = hunks[i].clone();
        copies.push(copy);
        assert(hunk_views(copies@) =~= hunk_views(before).push(copy@));
        assert(hunk_views(hunks@).take(i + 1) =~= hunk_views(hunks@).take(i as int).push(
            hunk_views(hunks@)[i as int],
        ));
        i += 1;
    }
    assert(hunk_views(hunks@).take(hunks@.len() as int) =~= hunk_views(hunks@));
    copies
}

impl Clone for ParsedDiff {
    fn clone(&self) -> (copy: Self)
        ensures
            copy@ == self@,
    {
        ParsedDiff {
            lines: copy_lines(self.lines.as_slice()),
            hunks: copy_hunks(self.hunks.as_slice()),
        }
    }
}

/// What a character stands for after a backslash in a quoted token.
pub open spec fn unescape(c: char) -> char {
    if c == 'n' {
        '\n'
    } else if c == 'r' {
        '\r'
    } else if c == 't' {
        '\t'
    } else {
        c
    }
}

/// How many characters of `s`, which follows an opening quote, belong to the quoted token: up to
/// and with the closing quote, or all where there is none.
pub open spec fn quoted_len(s: Seq<char>) -> int
    decreases s.len(),
{
    if s.len() == 0 {
        0
    } else if s[0] == '"' {
        1
    } else if s[0] == '\\' && s.len() > 1 {
        2 + quoted_len(s.skip(2))
    } else {
        1 + quoted_len(s.skip(1))
    }
}

/// The token that `s`, which follows an opening quote, stands for.
pub open spec fn quoted_text(s: Seq<char>) -> Seq<char>
    decreases s.len(),
{
    if s.len() == 0 || s[0] == '"' {
        seq![]
    } else if s[0] == '\\' && s.len() > 1 {
        seq![unescape(s[1])] + quoted_text(s.skip(2))
    } else {
        seq![s[0]] + quoted_text(s.skip(1))
    }
}

/// A quoted token lies within the text.
pub proof fn lemma_quoted_len(s: Seq<char>)
    ensures
        0 <= quoted_len(s) <= s.len(),
    decreases s.len(),
{
    if s.len() > 0 && s[0] != '"' {
        if s[0] == '\\' && s.len() > 1 {
            lemma_quoted_len(s.skip(2));
        } else {
            lemma_quoted_len(s.skip(1));
        }
    }
}

/// The tokens of a text: words, or double-quoted parts, in which a backslash escapes.
pub open spec fn quoted_tokens(s: Seq<char>) -> Seq<Seq<char>>
    decreases s.len(),
{
    let rest = text::trim_start(s);
    if rest.len() == 0 {
        seq![]
    } else if rest[0] == '"' {
        proof {
            text::lemma_leading_space(s);
            lemma_quoted_len(rest.skip(1));
        }
        seq![quoted_text(rest.skip(1))] + quoted_tokens(rest.skip(1 + quoted_len(rest.skip(1))))
    } else {
        proof {
            text::lemma_leading_space(s);
            text::lemma_word_len(rest);
        }
        seq![rest.take(text::word_len(rest))] + quoted_tokens(rest.skip(text::word_len(rest)))
    }
}

/// White space at the start of a text does not change its tokens.
pub proof fn lemma_tokens_trim_start(s: Seq<char>)
    ensures
        quoted_tokens(text::trim_start(s)) == quoted_tokens(s),
{
    text::lemma_leading_space(s);
    let rest = text::trim_start(s);
    text::lemma_leading_space_is(rest, 0);
    assert(text::trim_start(rest) =~= rest);
}

/// Reads the quoted token whose opening quote stands before `from`: the token, and the position
/// after it.
fn read_quoted(chars: &[char], from: usize) -> (result: (String, usize))
    requires
        from <= chars@.len(),
    ensures
        result.0@ == quoted_text(chars@.skip(from as int)),
        result.1 == from + quoted_len(chars@.skip(from as int)),
        from <= result.1 <= chars@.len(),
{
    let mut token = String::new();
    let mut index: usize = from;
    let ghost whole = chars@.skip(from as int);
    assert(token@ + quoted_text(whole) =~= quoted_text(whole));
    while index < chars.len()
        invariant
            from <= index <= chars@.len(),
            whole == chars@.skip(from as int),
            token@ + quoted_text(chars@.skip(index as int)) == quoted_text(whole),
            index + quoted_len(chars@.skip(index as int)) == from + quoted_len(whole),
        decreases chars@.len() - index,
    {
        let ghost rest = chars@.skip(index as int);
        let ghost before = token@;
        let ch = chars[index];
        index += 1;
        if ch == '"' {
            assert(token@ + quoted_text(rest) =~= token@);
            return (token, index);
        }
        if ch == '\\' && index < chars.len() {
            let escaped = chars[index];
            index += 1;
            match escaped {
                'n' => token.push('\n'),
                'r' => token.push('\r'),
                't' => token.push('\t'),
                other => token.push(other),
            }
            assert(rest.skip(2) =~= chars@.skip(index as int));
            assert(token@ + quoted_text(rest.skip(2)) =~= before + quoted_text(rest));
        } else {
            token.push(ch);
            assert(rest.skip(1) =~= chars@.skip(index as int));
            assert(token@ + quoted_text(rest.skip(1)) =~= before + quoted_text(rest));
        }
    }
    assert(token@ + quoted_text(chars@.skip(index as int)) =~= token@);
    (token, index)
}

/// Splits a text into its tokens.
pub fn split_quoted_tokens(chars: &[char]) -> (tokens: Vec<String>)
    ensures
        text::texts(tokens@) == quoted_tokens(chars@),
{
    let mut tokens: Vec<String> = Vec::new();
    let mut index: usize = text::skip_space(chars, 0);
    assert(chars@.skip(0) =~= chars@);
    proof {
        lemma_tokens_trim_start(chars@);
        text::lemma_leading_space(chars@);
    }
    assert(text::texts(tokens@) + quoted_tokens(chars@) =~= quoted_tokens(chars@));
    while index < chars.len()
        invariant
            index <= chars@.len(),
            index < chars@.len() ==> !text::is_white_space(chars@[index as int]),
            text::texts(tokens@) + quoted_tokens(chars@.skip(index as int)) == quoted_tokens(
                chars@,
            ),
        decreases chars@.len() - index,
    {
        let ghost rest = chars@.skip(index as int);
        let ghost before = tokens@;
        proof {
            text::lemma_leading_space_is(rest, 0);
            assert(text::trim_start(rest) =~= rest);
            text::lemma_word_len(rest);
        }
        let ghost begin = index as int;
        if chars[index] == '"' {
            assert(chars@.skip(index + 1) =~= rest.skip(1));
            let (token, next) = read_quoted(chars, index + 1);
            tokens.push(token);
            index = next;
            assert(text::texts(tokens@) =~= text::texts(before).push(quoted_text(rest.skip(1))));
        } else {
            let end = text::skip_word(chars, index);
            let word = vstd::slice::slice_subrange(chars, index, end);
            tokens.push(text::string_of(word));
            assert(word@ =~= rest.take(end - index));
            index = end;
            assert(text::texts(tokens@) =~= text::texts(before).push(word@));
        }
        let ghost tail = chars@.skip(index as int);
        assert(tail =~= rest.skip(index - begin));
        assert(text::texts(tokens@) + quoted_tokens(tail) =~= text::texts(before) + quoted_tokens(
            rest,
        ));
        index = text::skip_space(chars, index);
        proof {
            lemma_tokens_trim_start(tail);
            assert(text::trim_start(tail) =~= chars@.skip(index as int));
            text::lemma_leading_space(tail);
        }
    }
    assert(text::trim_start(chars@.skip(index as int)).len() == 0) by {
        text::lemma_leading_space(chars@.skip(index as int));
    }
    assert(text::texts(tokens@) + quoted_tokens(chars@.skip(index as int)) =~= text::texts(tokens@));
    tokens
}

/// The file that a path in a diff names: none for `/dev/null`, else the path without the side
/// that it begins with.
pub open spec fn diff_path(value: Seq<char>) -> Option<Seq<char>> {
    if value == "/dev/null"@ {
        None
    } else if text::starts_with(value, "a/"@) || text::starts_with(value, "b/"@) {
        Some(value.skip(2))
    } else {
        Some(value)
    }
}

/// Reads the file that a path in a diff names.
pub fn clean_diff_path(value: &[char]) -> (path: Option<String>)
    ensures
        opt_text(path) == diff_path(value@),
{
    proof {
        reveal_strlit("/dev/null");
        reveal_strlit("a/");
        reveal_strlit("b/");
        if text::starts_with(value@, "/dev/null"@) && value@.len() == 9 {
            assert(value@.take(9) =~= value@);
        }
        if value@ == "/dev/null"@ {
            assert(value@.take(9) =~= value@);
        }
    }
    if value.len() == 9 && text::strip_text_prefix(value, "/dev/null").is_some() {
        return None;
    }
    match text::strip_text_prefix(value, "a/") {
        Some(rest) => return Some(text::string_of(rest)),
        None => {},
    }
    match text::strip_text_prefix(value, "b/") {
        Some(rest) => Some(text::string_of(rest)),
        None => Some(text::string_of(value)),
    }
}

/// The file that a `---` or `+++` line names: its first token where that is quoted, else what
/// stands before a tab.
pub open spec fn header_path(value: Seq<char>) -> Option<Seq<char>> {
    let trimmed = text::trim(value);
    if trimmed.len() > 0 && trimmed[0] == '"' {
        diff_path(quoted_tokens(trimmed)[0])
    } else {
        diff_path(trimmed.take(text::find_char(trimmed, '\t')))
    }
}

/// Reads the file that a `---` or `+++` line names.
pub fn clean_header_path(value: &[char]) -> (path: Option<String>)
    ensures
        opt_text(path) == header_path(value@),
{
    let trimmed = text::trim_chars(value);
    if trimmed.len() > 0 && trimmed[0] == '"' {
        let tokens = split_quoted_tokens(trimmed);
        proof {
            text::lemma_leading_space_is(trimmed@, 0);
            assert(text::trim_start(trimmed@) =~= trimmed@);
            assert(text::texts(tokens@).len() > 0);
            assert(text::texts(tokens@)[0] == tokens@[0]@);
        }
        let first = text::chars_of(tokens[0].as_str());
        clean_diff_path(first.as_slice())
    } else {
        let end = text::find_char_from(trimmed, '\t', 0);
        assert(trimmed@.skip(0) =~= trimmed@);
        let head = vstd::slice::slice_subrange(trimmed, 0, end);
        assert(head@ =~= trimmed@.take(end as int));
        clean_diff_path(head)
    }
}

/// The old and the new file that a `diff --git` line names.
pub open spec fn git_header_paths(raw: Seq<char>) -> Option<(Option<Seq<char>>, Option<Seq<char>>)> {
    let tokens = quoted_tokens(raw.skip("diff --git "@.len() as int));
    if text::starts_with(raw, "diff --git "@) && tokens.len() >= 2 {
        Some((diff_path(tokens[0]), diff_path(tokens[1])))
    } else {
        None
    }
}

/// Reads the two files that a `diff --git` line names.
pub fn parse_diff_git_paths(raw: &[char]) -> (paths: Option<(Option<String>, Option<String>)>)
    ensures
        match paths {
            Some((old, new)) => git_header_paths(raw@) == Some((opt_text(old), opt_text(new))),
            None => git_header_paths(raw@) is None,
        },
{
    let rest = match text::strip_text_prefix(raw, "diff --git ") {
        Some(rest) => rest,
        None => return None,
    };
    let tokens = split_quoted_tokens(rest);
    assert(text::texts(tokens@).len() == tokens@.len());
    if tokens.len() < 2 {
        return None;
    }
    assert(text::texts(tokens@)[0] == tokens@[0]@);
    assert(text::texts(tokens@)[1] == tokens@[1]@);
    let old = text::chars_of(tokens[0].as_str());
    let new = text::chars_of(tokens[1].as_str());
    Some((clean_diff_path(old.as_slice()), clean_diff_path(new.as_slice())))
}

/// The start and the count of a range in a hunk header: `prefix`, the start, and behind a comma
/// the count, which is one where it is left out.
pub open spec fn range_of(spec: Seq<char>, prefix: char) -> Option<(usize, usize)> {
    if spec.len() == 0 || spec[0] != prefix {
        None
    } else {
        let rest = spec.skip(1);
        let comma = text::find_char(rest, ',');
        let start = number::parse_number(rest.take(comma));
        let count = if comma == rest.len() {
            Some(1usize)
        } else {
            number::parse_number(rest.skip(comma + 1))
        };
        match (start, count) {
            (Some(start), Some(count)) => Some((start, count)),
            _ => None,
        }
    }
}

/// Reads a range of a hunk header.
pub fn parse_range(spec: &[char], prefix: char) -> (range: Option<(usize, usize)>)
    ensures
        range == range_of(spec@, prefix),
{
    if spec.len() == 0 || spec[0] != prefix {
        return None;
    }
    let rest = vstd::slice::slice_subrange(spec, 1, spec.len());
    assert(rest@ =~= spec@.skip(1));
    assert(rest@.skip(0) =~= rest@);
    let comma = text::find_char_from(rest, ',', 0);
    let head = vstd::slice::slice_subrange(rest, 0, comma);
    assert(head@ =~= rest@.take(comma as int));
    let start = match number::parse_usize(head) {
        Some(start) => start,
        None => return None,
    };
    if comma == rest.len() {
        return Some((start, 1));
    }
    let tail = vstd::slice::slice_subrange(rest, comma + 1, rest.len());
    assert(tail@ =~= rest@.skip(comma + 1));
    match number::parse_usize(tail) {
        Some(count) => Some((start, count)),
        None => None,
    }
}

/// What a hunk header says.
pub struct HunkHeader {
    pub old_start: usize,
    pub old_count: usize,
    pub new_start: usize,
    pub new_count: usize,
    pub section: String,
}

/// The model of a `HunkHeader`.
#[verifier::ext_equal]
pub struct HunkHeaderView {
    pub old_start: usize,
    pub old_count: usize,
    pub new_start: usize,
    pub new_count: usize,
    pub section: Seq<char>,
}

impl View for HunkHeader {
    type V = HunkHeaderView;

    open spec fn view(&self) -> HunkHeaderView {
        HunkHeaderView {
            old_start: self.old_start,
            old_count: self.old_count,
            new_start: self.new_start,
            new_count: self.new_count,
            section: self.section@,
        }
    }
}

/// The hunk header that a line holds: between `@@ ` and the first ` @@` the range in the old file
/// and the range in the new one, and behind them the section.
pub open spec fn hunk_header_of(raw: Seq<char>) -> Option<HunkHeaderView> {
    if !text::starts_with(raw, "@@ "@) {
        None
    } else {
        let rest = raw.skip(3);
        match text::find_text(rest, " @@"@) {
            None => None,
            Some(marker) => {
                let pieces = text::words(rest.take(marker));
                if pieces.len() < 2 {
                    None
                } else {
                    match (range_of(pieces[0], '-'), range_of(pieces[1], '+')) {
                        (Some((old_start, old_count)), Some((new_start, new_count))) => Some(
                            HunkHeaderView {
                                old_start,
                                old_count,
                                new_start,
                                new_count,
                                section: text::trim(rest.skip(marker + 3)),
                            },
                        ),
                        _ => None,
                    }
                }
            },
        }
    }
}

/// Reads a hunk header.
pub fn parse_hunk_header(raw: &[char]) -> (header: Option<HunkHeader>)
    ensures
        match header {
            Some(header) => hunk_header_of(raw@) == Some(header@),
            None => hunk_header_of(raw@) is None,
        },
{
    proof {
        reveal_strlit("@@ ");
        reveal_strlit(" @@");
    }
    let rest = match text::strip_text_prefix(raw, "@@ ") {
        Some(rest) => rest,
        None => return None,
    };
    let marker = match text::find_in(rest, " @@") {
        Some(marker) => marker,
        None => return None,
    };
    let range_part = vstd::slice::slice_subrange(rest, 0, marker);
    assert(range_part@ =~= rest@.take(marker as int));
    let length = rest.len();
    let behind = vstd::slice::slice_subrange(rest, marker + 3, length);
    assert(behind@ =~= rest@.skip(marker + 3));
    let pieces = text::split_words(range_part);
    assert(text::char_texts(pieces@).len() == pieces@.len());
    if pieces.len() < 2 {
        return None;
    }
    assert(text::char_texts(pieces@)[0] == pieces@[0]@);
    assert(text::char_texts(pieces@)[1] == pieces@[1]@);
    let (old_start, old_count) = match parse_range(pieces[0].as_slice(), '-') {
        Some(range) => range,
        None => return None,
    };
    let (new_start, new_count) = match parse_range(pieces[1].as_slice(), '+') {
        Some(range) => range,
        None => return None,
    };
    let section = text::string_of(text::trim_chars(behind));
    Some(HunkHeader { old_start, old_count, new_start, new_count, section })
}

/// The line number after `n`; the largest number stays.
pub open spec fn next_number(n: usize) -> usize {
    if n < usize::MAX {
        (n + 1) as usize
    } else {
        n
    }
}

/// The kind of a line within a hunk, by its first character.
pub open spec fn hunk_line_kind(raw: Seq<char>) -> Option<LineKind> {
    if raw.len() == 0 {
        None
    } else if raw[0] == '+' {
        Some(LineKind::Add)
    } else if raw[0] == '-' {
        Some(LineKind::Delete)
    } else if raw[0] == ' ' {
        Some(LineKind::Context)
    } else if raw[0] == '\\' {
        Some(LineKind::Note)
    } else {
        None
    }
}

/// A line of this kind is a line of the old file.
pub open spec fn in_old(kind: LineKind) -> bool {
    kind == LineKind::Delete || kind == LineKind::Context
}

/// A line of this kind is a line of the new file.
pub open spec fn in_new(kind: LineKind) -> bool {
    kind == LineKind::Add || kind == LineKind::Context
}

/// A line of a hunk, at the given line numbers and at the given place in the hunk.
pub open spec fn hunk_line(
    raw: Seq<char>,
    kind: LineKind,
    file_path: Option<Seq<char>>,
    old_cursor: usize,
    new_cursor: usize,
    hunk_index: usize,
    hunk_line_index: usize,
) -> DiffLineView {
    DiffLineView {
        raw,
        kind,
        file_path,
        old_lineno: if in_old(kind) {
            Some(old_cursor)
        } else {
            None
        },
        new_lineno: if in_new(kind) {
            Some(new_cursor)
        } else {
            None
        },
        hunk_index: Some(hunk_index),
        hunk_line_index: Some(hunk_line_index),
        selectable: in_old(kind) || in_new(kind),
    }
}

/// A line outside the hunks, or the header of the hunk `hunk_index`.
pub open spec fn plain_line(
    raw: Seq<char>,
    kind: LineKind,
    file_path: Option<Seq<char>>,
    hunk_index: Option<usize>,
) -> DiffLineView {
    DiffLineView {
        raw,
        kind,
        file_path,
        old_lineno: None,
        new_lineno: None,
        hunk_index,
        hunk_line_index: None,
        selectable: false,
    }
}

/// Reads a line of a hunk, and the line numbers that follow it.
pub fn parse_hunk_line(
    raw: &[char],
    hunk: &Hunk,
    old_cursor: usize,
    new_cursor: usize,
    hunk_line_index: usize,
) -> (result: Option<(DiffLine, usize, usize)>)
    ensures
        match result {
            Some((line, next_old, next_new)) => {
                &&& hunk_line_kind(raw@) matches Some(kind)
                &&& line@ == hunk_line(
                    raw@,
                    kind,
                    hunk@.file_path,
                    old_cursor,
                    new_cursor,
                    hunk.index,
                    hunk_line_index,
                )
                &&& next_old == if in_old(kind) { next_number(old_cursor) } else { old_cursor }
                &&& next_new == if in_new(kind) { next_number(new_cursor) } else { new_cursor }
            },
            None => hunk_line_kind(raw@) is None,
        },
{
    if raw.len() == 0 {
        return None;
    }
    let kind = match raw[0] {
        '+' => LineKind::Add,
        '-' => LineKind::Delete,
        ' ' => LineKind::Context,
        '\\' => LineKind::Note,
        _ => return None,
    };
    let old = kind == LineKind::Delete || kind == LineKind::Context;
    let new = kind == LineKind::Add || kind == LineKind::Context;
    let line = DiffLine {
        raw: text::string_of(raw),
        kind,
        file_path: copy_opt(&hunk.file_path),
        old_lineno: if old {
            Some(old_cursor)
        } else {
            None
        },
        new_lineno: if new {
            Some(new_cursor)
        } else {
            None
        },
        hunk_index: Some(hunk.index),
        hunk_line_index: Some(hunk_line_index),
        selectable: old || new,
    };
    let next_old = if old {
        old_cursor.saturating_add(1)
    } else {
        old_cursor
    };
    let next_new = if new {
        new_cursor.saturating_add(1)
    } else {
        new_cursor
    };
    Some((line, next_old, next_new))
}

/// What is known after some lines of a diff.
#[verifier::ext_equal]
pub struct ParseState {
    pub lines: Seq<DiffLineView>,
    pub hunks: Seq<HunkView>,
    pub current_file: Option<Seq<char>>,
    pub old_file: Option<Seq<char>>,
    pub current_hunk: Option<usize>,
    pub old_cursor: usize,
    pub new_cursor: usize,
}

/// What is known before the first line.
pub open spec fn parse_start() -> ParseState {
    ParseState {
        lines: seq![],
        hunks: seq![],
        current_file: None,
        old_file: None,
        current_hunk: None,
        old_cursor: 0,
        new_cursor: 0,
    }
}

impl ParseState {
    /// A `diff --git` line names both files and ends the hunk.
    pub open spec fn git_line(
        self,
        raw: Seq<char>,
        old: Option<Seq<char>>,
        new: Option<Seq<char>>,
    ) -> ParseState {
        ParseState {
            lines: self.lines.push(plain_line(raw, LineKind::File, new, None)),
            current_file: new,
            old_file: old,
            current_hunk: None,
            ..self
        }
    }

    /// A `---` line names the old file.
    pub open spec fn old_file_line(self, raw: Seq<char>) -> ParseState {
        ParseState {
            lines: self.lines.push(plain_line(raw, LineKind::Meta, self.current_file, None)),
            old_file: header_path(raw.skip(4)),
            ..self
        }
    }

    /// A `+++` line names the new file; where it names none, the old one stays the current file.
    pub open spec fn new_file_line(self, raw: Seq<char>) -> ParseState {
        let path = match header_path(raw.skip(4)) {
            Some(path) => Some(path),
            None => self.old_file,
        };
        ParseState {
            lines: self.lines.push(plain_line(raw, LineKind::Meta, path, None)),
            current_file: path,
            ..self
        }
    }

    /// A hunk header opens a hunk.
    pub open spec fn hunk_header_line(self, raw: Seq<char>, header: HunkHeaderView) -> ParseState {
        let index = self.hunks.len() as usize;
        ParseState {
            lines: self.lines.push(
                plain_line(raw, LineKind::Hunk, self.current_file, Some(index)),
            ),
            hunks: self.hunks.push(
                HunkView {
                    index,
                    file_path: self.current_file,
                    header: raw,
                    old_start: header.old_start,
                    old_count: header.old_count,
                    new_start: header.new_start,
                    new_count: header.new_count,
                    section: header.section,
                    line_indices: seq![],
                },
            ),
            current_hunk: Some(index),
            old_cursor: header.old_start,
            new_cursor: header.new_start,
            ..self
        }
    }

    /// A line of the kind `kind` within hunk `h`.
    pub open spec fn hunk_body_line(self, raw: Seq<char>, h: usize, kind: LineKind) -> ParseState {
        let hunk = self.hunks[h as int];
        ParseState {
            lines: self.lines.push(
                hunk_line(
                    raw,
                    kind,
                    hunk.file_path,
                    self.old_cursor,
                    self.new_cursor,
                    hunk.index,
                    hunk.line_indices.len() as usize,
                ),
            ),
            hunks: self.hunks.update(
                h as int,
                HunkView {
                    line_indices: hunk.line_indices.push(self.lines.len() as usize),
                    ..hunk
                },
            ),
            old_cursor: if in_old(kind) {
                next_number(self.old_cursor)
            } else {
                self.old_cursor
            },
            new_cursor: if in_new(kind) {
                next_number(self.new_cursor)
            } else {
                self.new_cursor
            },
            ..self
        }
    }

    /// Any other line ends the hunk.
    pub open spec fn other_line(self, raw: Seq<char>) -> ParseState {
        ParseState {
            lines: self.lines.push(plain_line(raw, LineKind::Meta, self.current_file, None)),
            current_hunk: None,
            ..self
        }
    }

    /// What is known after one line more.
    pub open spec fn step(self, raw: Seq<char>) -> ParseState {
        if let Some((old, new)) = git_header_paths(raw) {
            self.git_line(raw, old, new)
        } else if text::starts_with(raw, "--- "@) {
            self.old_file_line(raw)
        } else if text::starts_with(raw, "+++ "@) {
            self.new_file_line(raw)
        } else if let Some(header) = hunk_header_of(raw) {
            self.hunk_header_line(raw, header)
        } else {
            match (self.current_hunk, hunk_line_kind(raw)) {
                (Some(h), Some(kind)) => self.hunk_body_line(raw, h, kind),
                _ => self.other_line(raw),
            }
        }
    }
}

/// What is known after the given lines.
pub open spec fn parse_lines(lines: Seq<Seq<char>>) -> ParseState
    decreases lines.len(),
{
    if lines.len() == 0 {
        parse_start()
    } else {
        parse_lines(lines.drop_last()).step(lines.last())
    }
}

/// The diff that a text holds.
pub open spec fn parsed_diff(diff: Seq<char>) -> ParsedDiffView {
    let state = parse_lines(text::lines_of(diff));
    ParsedDiffView { lines: state.lines, hunks: state.hunks }
}

/// A parser in the middle of a diff.
struct Parser {
    lines: Vec<DiffLine>,
    hunks: Vec<Hunk>,
    current_file: Option<String>,
    old_file: Option<String>,
    current_hunk: Option<usize>,
    old_cursor: usize,
    new_cursor: usize,
}

impl View for Parser {
    type V = ParseState;

    closed spec fn view(&self) -> ParseState {
        ParseState {
            lines: line_views(self.lines@),
            hunks: hunk_views(self.hunks@),
            current_file: opt_text(self.current_file),
            old_file: opt_text(self.old_file),
            current_hunk: self.current_hunk,
            old_cursor: self.old_cursor,
            new_cursor: self.new_cursor,
        }
    }
}

impl Parser {
    /// The current hunk is one of the hunks.
    spec fn wf(&self) -> bool {
        self.current_hunk matches Some(h) ==> h < self.hunks@.len()
    }

    /// Appends a line that is not part of a hunk's body.
    fn push_plain(&mut self, raw: &[char], kind: LineKind, hunk_index: Option<usize>)
        ensures
            final(self)@ == (ParseState {
                lines: old(self)@.lines.push(
                    plain_line(raw@, kind, old(self)@.current_file, hunk_index),
                ),
                ..old(self)@
            }),
            final(self).hunks == old(self).hunks,
            final(self).current_hunk == old(self).current_hunk,
    {
        let line = DiffLine {
            raw: text::string_of(raw),
            kind,
            file_path: copy_opt(&self.current_file),
            old_lineno: None,
            new_lineno: None,
            hunk_index,
            hunk_line_index: None,
            selectable: false,
        };
        let ghost before = self.lines@;
        self.lines.push(line);
        assert(line_views(self.lines@) =~= line_views(before).push(line@));
    }

    /// Takes one line more.
    fn accept(&mut self, raw: &[char])
        requires
            old(self).wf(),
        ensures
            final(self)@ == old(self)@.step(raw@),
            final(self).wf(),
    {
        proof {
            reveal_strlit("--- ");
            reveal_strlit("+++ ");
        }
        if let Some((old_path, new_path)) = parse_diff_git_paths(raw) {
            self.old_file = old_path;
            self.current_file = new_path;
            self.current_hunk = None;
            self.push_plain(raw, LineKind::File, None);
            return;
        }
        if let Some(path) = text::strip_text_prefix(raw, "--- ") {
            self.old_file = clean_header_path(path);
            self.push_plain(raw, LineKind::Meta, None);
            return;
        }
        if let Some(path) = text::strip_text_prefix(raw, "+++ ") {
            self.current_file = match clean_header_path(path) {
                Some(path) => Some(path),
                None => copy_opt(&self.old_file),
            };
            self.push_plain(raw, LineKind::Meta, None);
            return;
        }
        if let Some(header) = parse_hunk_header(raw) {
            let index = self.hunks.len();
            self.current_hunk = Some(index);
            self.old_cursor = header.old_start;
            self.new_cursor = header.new_start;
            let hunk = Hunk {
                index,
                file_path: copy_opt(&self.current_file),
                header: text::string_of(raw),
                old_start: header.old_start,
                old_count: header.old_count,
                new_start: header.new_start,
                new_count: header.new_count,
                section: header.section,
                line_indices: Vec::new(),
            };
            let ghost before = self.hunks@;
            self.hunks.push(hunk);
            assert(hunk_views(self.hunks@) =~= hunk_views(before).push(hunk@));
            self.push_plain(raw, LineKind::Hunk, Some(index));
            return;
        }
        if let Some(h) = self.current_hunk {
            let count = self.hunks[h].line_indices.len();
            assert(hunk_views(self.hunks@)[h as int] == self.hunks@[h as int]@);
            if let Some((line, next_old, next_new)) = parse_hunk_line(
                raw,
                &self.hunks[h],
                self.old_cursor,
                self.new_cursor,
                count,
            ) {
                self.old_cursor = next_old;
                self.new_cursor = next_new;
                let line_index = self.lines.len();
                let ghost lines_before = self.lines@;
                let ghost hunks_before = self.hunks@;
                self.lines.push(line);
                assert(line_views(self.lines@) =~= line_views(lines_before).push(line@));
                self.hunks[h].line_indices.push(line_index);
                assert(hunk_views(self.hunks@) =~= hunk_views(hunks_before).update(
                    h as int,
                    self.hunks@[h as int]@,
                ));
                return;
            }
        }
        self.current_hunk = None;
        self.push_plain(raw, LineKind::Meta, None);
    }
}

/// Reads a unified diff.
pub fn parse_unified_diff(diff: &str) -> (parsed: ParsedDiff)
    ensures
        parsed@ == parsed_diff(diff@),
{
    let chars = text::chars_of(diff);
    let lines = text::split_lines(chars.as_slice());
    let ghost all = text::lines_of(diff@);
    let mut parser = Parser {
        lines: Vec::new(),
        hunks: Vec::new(),
        current_file: None,
        old_file: None,
        current_hunk: None,
        old_cursor: 0,
        new_cursor: 0,
    };
    let mut i: usize = 0;
    assert(all.take(0) =~= seq![]);
    assert(parser@ =~= parse_start());
    while i < lines.len()
        invariant
            i <= lines@.len(),
            all == text::char_texts(lines@),
            parser.wf(),
            parser@ == parse_lines(all.take(i as int)),
        decreases lines@.len() - i,
    {
        parser.accept(lines[i].as_slice());
        assert(all.take(i + 1).drop_last() =~= all.take(i as int));
        assert(all.take(i + 1).last() == lines@[i as int]@);
        i += 1;
    }
    assert(all.take(lines@.len() as int) =~= all);
    ParsedDiff { lines: parser.lines, hunks: parser.hunks }
}

impl DiffLineView {
    /// The identity of a line across readings of the diff: its file, hunk, kind, line numbers and
    /// text.
    pub open spec fn id(self) -> Seq<char> {
        let path = match self.file_path {
            Some(path) => path,
            None => seq![],
        };
        path + "|"@ + number::opt_decimal(self.hunk_index) + "|"@ + self.kind.name() + "|"@
            + number::opt_decimal(self.old_lineno) + "|"@ + number::opt_decimal(self.new_lineno)
            + "|"@ + self.raw
    }
}

impl DiffLine {
    /// The identity of the line across readings of the diff.
    pub fn stable_id(&self) -> (id: String)
        ensures
            id@ == self@.id(),
    {
        let mut id = match &self.file_path {
            Some(path) => path.clone(),
            None => String::new(),
        };
        let hunk = number::opt_decimal_string(self.hunk_index);
        let old = number::opt_decimal_string(self.old_lineno);
        let new = number::opt_decimal_string(self.new_lineno);
        id.push_str("|");
        id.push_str(hunk.as_str());
        id.push_str("|");
        id.push_str(self.kind.as_str());
        id.push_str("|");
        id.push_str(old.as_str());
        id.push_str("|");
        id.push_str(new.as_str());
        id.push_str("|");
        id.push_str(self.raw.as_str());
        id
    }
}

/// The lines that can be selected.
pub open spec fn selectable_lines(lines: Seq<DiffLineView>) -> Seq<DiffLineView> {
    lines.filter(|line: DiffLineView| line.selectable)
}

impl ParsedDiff {
    /// How many lines can be selected.
    pub fn selectable_count(&self) -> (count: usize)
        ensures
            count == selectable_lines(self@.lines).len(),
    {
        let mut count: usize = 0;
        let mut i: usize = 0;
        let ghost all = self@.lines;
        let ghost pred = |line: DiffLineView| line.selectable;
        assert(all.take(0).filter(pred) =~= seq![]) by {
            reveal(Seq::filter);
        }
        while i < self.lines.len()
            invariant
                i <= self.lines@.len(),
                all == self@.lines,
                pred == |line: DiffLineView| line.selectable,
                count == all.take(i as int).filter(pred).len(),
                count <= i,
            decreases self.lines@.len() - i,
        {
            assert(all.take(i + 1).drop_last() =~= all.take(i as int));
            assert(all.take(i + 1).last() == self.lines@[i as int]@);
            reveal(Seq::filter);
            if self.lines[i].selectable {
                count += 1;
            }
            i += 1;
        }
        assert(all.take(self.lines@.len() as int) =~= all);
        count
    }
}

} // verus!
