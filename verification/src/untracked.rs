//! Diffs of untracked files, written as Git would write them for new files.

use crate::number;
use crate::text;
use vstd::prelude::*;

verus! {

/// A path can stand in a diff as it is.
pub open spec fn is_plain_path(value: Seq<char>) -> bool {
    value.len() > 0 && forall|j: int|
        0 <= j < value.len() ==> is_plain_char(#[trigger] value[j])
}

/// A character that needs no quotes.
pub open spec fn is_plain_char(c: char) -> bool {
    !text::is_white_space(c) && c != '"' && c != '\\'
}

/// A character as it is written between quotes.
pub open spec fn escaped(c: char) -> Seq<char> {
    if c == '\\' {
        seq!['\\', '\\']
    } else if c == '"' {
        seq!['\\', '"']
    } else if c == '\n' {
        seq!['\\', 'n']
    } else if c == '\r' {
        seq!['\\', 'r']
    } else if c == '\t' {
        seq!['\\', 't']
    } else {
        seq![c]
    }
}

/// The characters as they are written between quotes.
pub open spec fn escaped_text(value: Seq<char>) -> Seq<char>
    decreases value.len(),
{
    if value.len() == 0 {
        seq![]
    } else {
        escaped_text(value.drop_last()) + escaped(value.last())
    }
}

/// A path as it stands in a diff.
pub open spec fn quoted_path(value: Seq<char>) -> Seq<char> {
    if is_plain_path(value) {
        value
    } else {
        seq!['"'] + escaped_text(value) + seq!['"']
    }
}

/// Whether a path can stand in a diff as it is.
fn can_stand_plain(value: &[char]) -> (result: bool)
    ensures
        result == is_plain_path(value@),
{
    if value.len() == 0 {
        return false;
    }
    let mut i: usize = 0;
    while i < value.len()
        invariant
            i <= value@.len(),
            forall|j: int| 0 <= j < i ==> is_plain_char(#[trigger] value@[j]),
        decreases value@.len() - i,
    {
        let ch = value[i];
        if ch.is_whitespace() || ch == '"' || ch == '\\' {
            assert(!is_plain_char(value@[i as int]));
            return false;
        }
        i += 1;
    }
    true
}

/// Writes a path as it stands in a diff.
pub fn quote_path(value: &str) -> (quoted: String)
    ensures
        quoted@ == quoted_path(value@),
{
    let chars = text::chars_of(value);
    if can_stand_plain(chars.as_slice()) {
        return text::string_of(chars.as_slice());
    }
    let mut output = String::new();
    output.push('"');
    let ghost open = output@;
    let mut i: usize = 0;
    assert(output@ =~= open + escaped_text(chars@.take(0)));
    while i < chars.len()
        invariant
            i <= chars@.len(),
            output@ == open + escaped_text(chars@.take(i as int)),
        decreases chars@.len() - i,
    {
        let ghost before = output@;
        let ch = chars[i];
        match ch {
            '\\' => {
                output.push('\\');
                output.push('\\');
            },
            '"' => {
                output.push('\\');
                output.push('"');
            },
            '\n' => {
                output.push('\\');
                output.push('n');
            },
            '\r' => {
                output.push('\\');
                output.push('r');
            },
            '\t' => {
                output.push('\\');
                output.push('t');
            },
            other => output.push(other),
        }
        assert(output@ =~= before + escaped(ch));
        assert(chars@.take(i + 1).drop_last() =~= chars@.take(i as int));
        assert(output@ =~= open + escaped_text(chars@.take(i + 1)));
        i += 1;
    }
    assert(chars@.take(chars@.len() as int) =~= chars@);
    output.push('"');
    assert(output@ =~= quoted_path(value@));
    output
}

/// A path behind the side of the diff that it stands for.
pub open spec fn quoted_prefixed_path(prefix: Seq<char>, path: Seq<char>) -> Seq<char> {
    quoted_path(prefix + path)
}

/// Writes a path behind the side of the diff that it stands for.
pub fn quote_prefixed_path(prefix: &str, path: &str) -> (quoted: String)
    ensures
        quoted@ == quoted_prefixed_path(prefix@, path@),
{
    let mut value = prefix.to_string();
    value.push_str(path);
    quote_path(value.as_str())
}

/// The lines before the content of a new file.
pub open spec fn header_text(path: Seq<char>, mode: Seq<char>) -> Seq<char> {
    "diff --git "@ + quoted_prefixed_path("a/"@, path) + " "@ + quoted_prefixed_path("b/"@, path)
        + "\nnew file mode "@ + mode + "\n--- /dev/null\n+++ "@ + quoted_prefixed_path("b/"@, path)
        + "\n"@
}

/// Writes the lines before the content of a new file.
pub fn untracked_header(path: &str, mode: &str) -> (header: String)
    ensures
        header@ == header_text(path@, mode@),
{
    let old = quote_prefixed_path("a/", path);
    let new = quote_prefixed_path("b/", path);
    let mut header = "diff --git ".to_string();
    header.push_str(old.as_str());
    header.push_str(" ");
    header.push_str(new.as_str());
    header.push_str("\nnew file mode ");
    header.push_str(mode);
    header.push_str("\n--- /dev/null\n+++ ");
    header.push_str(new.as_str());
    header.push_str("\n");
    header
}

/// The lines of a new file as they stand in a hunk.
pub open spec fn added_lines(lines: Seq<Seq<char>>) -> Seq<char>
    decreases lines.len(),
{
    if lines.len() == 0 {
        seq![]
    } else {
        added_lines(lines.drop_last()) + "+"@ + lines.last() + "\n"@
    }
}

/// The text ends with a line feed.
pub open spec fn ends_with_newline(content: Seq<char>) -> bool {
    content.len() > 0 && content.last() == '\n'
}

/// The hunk that adds all of a text.
pub open spec fn content_hunk(content: Seq<char>) -> Seq<char> {
    let lines = text::split_terminator(content, '\n');
    let note = if ends_with_newline(content) {
        seq![]
    } else {
        "\\ No newline at end of file\n"@
    };
    "@@ -0,0 +1,"@ + number::decimal(lines.len()) + " @@\n"@ + added_lines(lines) + note
}

/// The diff of a new file with a text as its content.
pub open spec fn text_diff(path: Seq<char>, mode: Seq<char>, content: Seq<char>) -> Seq<char> {
    header_text(path, mode) + content_hunk(content)
}

/// Writes the diff of a new file with a text as its content.
pub fn text_untracked_diff(path: &str, mode: &str, content: &str) -> (diff: String)
    ensures
        diff@ == text_diff(path@, mode@, content@),
{
    let chars = text::chars_of(content);
    let mut lines = text::split_at_char(chars.as_slice(), '\n');
    let ghost parts = text::split_char(content@, '\n');
    proof {
        text::lemma_split_char_nonempty(content@, '\n');
        assert(parts.last() == lines@.last()@);
    }
    if lines[lines.len() - 1].len() == 0 {
        let _ = lines.pop();
        assert(text::char_texts(lines@) =~= parts.drop_last());
    }
    let ghost all = text::split_terminator(content@, '\n');
    assert(text::char_texts(lines@) == all);
    let mut diff = untracked_header(path, mode);
    diff.push_str("@@ -0,0 +1,");
    diff.push_str(number::decimal_string(lines.len() as u64).as_str());
    diff.push_str(" @@\n");
    let ghost head = diff@;
    let mut i: usize = 0;
    assert(diff@ =~= head + added_lines(all.take(0)));
    while i < lines.len()
        invariant
            i <= lines@.len(),
            all == text::char_texts(lines@),
            diff@ == head + added_lines(all.take(i as int)),
        decreases lines@.len() - i,
    {
        diff.push_str("+");
        diff.push_str(text::string_of(lines[i].as_slice()).as_str());
        diff.push_str("\n");
        assert(all.take(i + 1).drop_last() =~= all.take(i as int));
        assert(all.take(i + 1).last() == lines@[i as int]@);
        assert(diff@ =~= head + added_lines(all.take(i + 1)));
        i += 1;
    }
    assert(all.take(lines@.len() as int) =~= all);
    if !(chars.len() > 0 && chars[chars.len() - 1] == '\n') {
        diff.push_str("\\ No newline at end of file\n");
    }
    assert(diff@ =~= text_diff(path@, mode@, content@));
    diff
}

/// The diff of a new file whose content is not text.
pub open spec fn binary_diff(path: Seq<char>, mode: Seq<char>) -> Seq<char> {
    header_text(path, mode) + "Binary files /dev/null and "@ + quoted_prefixed_path("b/"@, path)
        + " differ\n"@
}

/// Writes the diff of a new file whose content is not text.
pub fn binary_untracked_diff(path: &str, mode: &str) -> (diff: String)
    ensures
        diff@ == binary_diff(path@, mode@),
{
    let mut diff = untracked_header(path, mode);
    diff.push_str("Binary files /dev/null and ");
    diff.push_str(quote_prefixed_path("b/", path).as_str());
    diff.push_str(" differ\n");
    diff
}

/// The diff of a new file whose content is not shown.
pub open spec fn skipped_diff(path: Seq<char>, mode: Seq<char>, reason: Seq<char>) -> Seq<char> {
    header_text(path, mode) + "diffmark: skipped untracked file ("@ + reason + ")\n"@
}

/// Writes the diff of a new file whose content is not shown.
pub fn skipped_untracked_diff(path: &str, mode: &str, reason: &str) -> (diff: String)
    ensures
        diff@ == skipped_diff(path@, mode@, reason@),
{
    let mut diff = untracked_header(path, mode);
    diff.push_str("diffmark: skipped untracked file (");
    diff.push_str(reason);
    diff.push_str(")\n");
    diff
}

/// The mode of a regular file: whether anyone may execute it. Where a system has no such
/// permissions, nobody may.
pub open spec fn mode_text(permissions: Option<u32>) -> Seq<char> {
    match permissions {
        Some(bits) => if bits & 0o111 != 0 {
            "100755"@
        } else {
            "100644"@
        },
        None => "100644"@,
    }
}

/// Computes the mode of a regular file.
pub fn file_mode(permissions: Option<u32>) -> (mode: &'static str)
    ensures
        mode@ == mode_text(permissions),
{
    match permissions {
        Some(bits) => if bits & 0o111 != 0 {
            "100755"
        } else {
            "100644"
        },
        None => "100644",
    }
}

/// `std::str::from_utf8` succeeds on well-formed UTF-8 and on nothing else, and gives the
/// characters that the bytes encode.
#[verifier::external_body]
fn utf8_text(bytes: &[u8]) -> (result: Option<&str>)
    ensures
        match result {
            Some(s) => vstd::utf8::valid_utf8(bytes@) && s@ == vstd::utf8::decode_utf8(bytes@),
            None => !vstd::utf8::valid_utf8(bytes@),
        },
{
    match std::str::from_utf8(bytes) {
        Ok(s) => Some(s),
        Err(_) => None,
    }
}

/// The diff of a new regular file with the given content: text where it is UTF-8 without a null
/// byte. Of an empty file there is nothing but the header.
pub open spec fn content_diff(path: Seq<char>, mode: Seq<char>, bytes: Seq<u8>) -> Seq<char> {
    if bytes.len() == 0 {
        header_text(path, mode)
    } else if bytes.contains(0u8) || !vstd::utf8::valid_utf8(bytes) {
        binary_diff(path, mode)
    } else {
        text_diff(path, mode, vstd::utf8::decode_utf8(bytes))
    }
}

/// Whether there is a null byte.
fn has_nul(bytes: &[u8]) -> (result: bool)
    ensures
        result == bytes@.contains(0u8),
{
    let mut i: usize = 0;
    while i < bytes.len()
        invariant
            i <= bytes@.len(),
            forall|j: int| 0 <= j < i ==> bytes@[j] != 0u8,
        decreases bytes@.len() - i,
    {
        if bytes[i] == 0 {
            return true;
        }
        i += 1;
    }
    false
}

/// Writes the diff of a new regular file with the given content.
pub fn content_untracked_diff(path: &str, mode: &str, bytes: &[u8]) -> (diff: String)
    ensures
        diff@ == content_diff(path@, mode@, bytes@),
{
    if bytes.len() == 0 {
        return untracked_header(path, mode);
    }
    if has_nul(bytes) {
        return binary_untracked_diff(path, mode);
    }
    match utf8_text(bytes) {
        Some(content) => text_untracked_diff(path, mode, content),
        None => binary_untracked_diff(path, mode),
    }
}

} // verus!
