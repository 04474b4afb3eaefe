//! Text as sequences of characters: the string operations that the rest of the crate is built on.
//!
//! A `String` or `&str` is modelled by its view, a `Seq<char>`. Executable code works on `[char]`
//! slices, so that positions are positions of characters.

use vstd::prelude::*;

verus! {

/// The characters with the Unicode property `White_Space`.
pub open spec fn is_white_space(c: char) -> bool {
    ||| '\u{0009}' <= c <= '\u{000d}'
    ||| c == '\u{0020}'
    ||| c == '\u{0085}'
    ||| c == '\u{00a0}'
    ||| c == '\u{1680}'
    ||| '\u{2000}' <= c <= '\u{200a}'
    ||| c == '\u{2028}'
    ||| c == '\u{2029}'
    ||| c == '\u{202f}'
    ||| c == '\u{205f}'
    ||| c == '\u{3000}'
}

/// The characters of the Unicode general category `Cc`.
pub open spec fn is_control_char(c: char) -> bool {
    ||| '\u{0000}' <= c <= '\u{001f}'
    ||| '\u{007f}' <= c <= '\u{009f}'
}

/// `char::is_whitespace` tells whether a character has the property `White_Space`.
pub assume_specification[ char::is_whitespace ](c: char) -> (result: bool)
    ensures
        result == is_white_space(c),
;

/// `char::is_control` tells whether a character is of the general category `Cc`.
pub assume_specification[ char::is_control ](c: char) -> (result: bool)
    ensures
        result == is_control_char(c),
;

/// `String::push` appends one character.
pub assume_specification[ String::push ](s: &mut String, c: char)
    ensures
        final(s)@ == old(s)@.push(c),
;

/// `String::push_str` appends a string.
pub assume_specification[ String::push_str ](s: &mut String, other: &str)
    ensures
        final(s)@ == old(s)@ + other@,
;

/// The characters of a string.
pub fn chars_of(s: &str) -> (chars: Vec<char>)
    ensures
        chars@ == s@,
{
    let mut chars: Vec<char> = Vec::new();
    for c in iter: s.chars()
        invariant
            iter.seq() == s@,
            chars@ == s@.take(iter.index()),
    {
        chars.push(c);
        assert(s@.take(iter.index() + 1) =~= s@.take(iter.index()).push(c));
    }
    assert(s@.take(s@.len() as int) =~= s@);
    chars
}

/// The string with the given characters.
pub fn string_of(chars: &[char]) -> (s: String)
    ensures
        s@ == chars@,
{
    let mut s = String::new();
    let mut i: usize = 0;
    while i < chars.len()
        invariant
            i <= chars@.len(),
            s@ == chars@.take(i as int),
        decreases chars@.len() - i,
    {
        s.push(chars[i]);
        assert(chars@.take(i + 1) =~= chars@.take(i as int).push(chars@[i as int]));
        i += 1;
    }
    assert(chars@.take(chars@.len() as int) =~= chars@);
    s
}

/// The texts of a sequence of strings.
pub open spec fn texts(strings: Seq<String>) -> Seq<Seq<char>> {
    strings.map_values(|s: String| s@)
}

/// The texts of a sequence of character vectors.
pub open spec fn char_texts(parts: Seq<Vec<char>>) -> Seq<Seq<char>> {
    parts.map_values(|v: Vec<char>| v@)
}

/// The position of the first `c` in `s`, or the length of `s` where there is none.
pub open spec fn find_char(s: Seq<char>, c: char) -> int
    decreases s.len(),
{
    if s.len() == 0 || s[0] == c {
        0
    } else {
        1 + find_char(s.drop_first(), c)
    }
}

/// `find_char` is in range, and is the first position that holds `c`.
pub proof fn lemma_find_char(s: Seq<char>, c: char)
    ensures
        0 <= find_char(s, c) <= s.len(),
        find_char(s, c) < s.len() ==> s[find_char(s, c)] == c,
        forall|j: int| 0 <= j < find_char(s, c) ==> s[j] != c,
    decreases s.len(),
{
    if s.len() != 0 && s[0] != c {
        lemma_find_char(s.drop_first(), c);
        assert forall|j: int| 0 <= j < find_char(s, c) implies s[j] != c by {
            if j > 0 {
                assert(s.drop_first()[j - 1] != c);
            }
        }
    }
}

/// A first position is the one that `find_char` gives.
pub proof fn lemma_find_char_is(s: Seq<char>, c: char, k: int)
    requires
        0 <= k <= s.len(),
        k < s.len() ==> s[k] == c,
        forall|j: int| 0 <= j < k ==> s[j] != c,
    ensures
        find_char(s, c) == k,
{
    lemma_find_char(s, c);
}

/// Finds the first `c` in `s` at or after `from`.
pub fn find_char_from(s: &[char], c: char, from: usize) -> (k: usize)
    requires
        from <= s@.len(),
    ensures
        from <= k <= s@.len(),
        k == from + find_char(s@.skip(from as int), c),
{
    let mut k: usize = from;
    while k < s.len() && s[k] != c
        invariant
            from <= k <= s@.len(),
            forall|j: int| from <= j < k ==> s@[j] != c,
        decreases s@.len() - k,
    {
        k += 1;
    }
    proof {
        lemma_find_char_is(s@.skip(from as int), c, k - from);
    }
    k
}

/// A line without the carriage return that ends it, if one does.
pub open spec fn chomp_cr(line: Seq<char>) -> Seq<char> {
    if line.len() > 0 && line.last() == '\r' {
        line.drop_last()
    } else {
        line
    }
}

/// The lines of a text. A line ends with a line feed or with a carriage return and a line feed,
/// which are not part of it; the end of the last line is optional, and a carriage return that no
/// line feed follows stays in the line.
pub open spec fn lines_of(s: Seq<char>) -> Seq<Seq<char>>
    decreases s.len(),
{
    if s.len() == 0 {
        seq![]
    } else if find_char(s, '\n') == s.len() {
        seq![s]
    } else {
        proof {
            lemma_find_char(s, '\n');
        }
        seq![chomp_cr(s.take(find_char(s, '\n')))] + lines_of(s.skip(find_char(s, '\n') + 1))
    }
}

/// The lines of two texts, one behind the other, where the first is empty or ends with a line feed.
pub proof fn lemma_lines_concat(a: Seq<char>, b: Seq<char>)
    requires
        a.len() == 0 || a.last() == '\n',
    ensures
        lines_of(a + b) == lines_of(a) + lines_of(b),
    decreases a.len(),
{
    if a.len() == 0 {
        assert(a + b =~= b);
        assert(lines_of(a) + lines_of(b) =~= lines_of(b));
    } else {
        let all = a + b;
        let k = find_char(a, '\n');
        lemma_find_char(a, '\n');
        assert(a[a.len() - 1] == '\n');
        lemma_find_char_is(all, '\n', k);
        assert(all.take(k) =~= a.take(k));
        assert(all.skip(k + 1) =~= a.skip(k + 1) + b);
        lemma_lines_concat(a.skip(k + 1), b);
        let head = seq![chomp_cr(a.take(k))];
        assert(head + (lines_of(a.skip(k + 1)) + lines_of(b)) =~= (head + lines_of(a.skip(k + 1)))
            + lines_of(b));
    }
}

/// Splits a text into its lines.
pub fn split_lines(s: &[char]) -> (lines: Vec<Vec<char>>)
    ensures
        char_texts(lines@) == lines_of(s@),
{
    let mut lines: Vec<Vec<char>> = Vec::new();
    let mut pos: usize = 0;
    assert(s@.skip(0) =~= s@);
    assert(char_texts(lines@) + lines_of(s@) =~= lines_of(s@));
    while pos < s.len()
        invariant
            pos <= s@.len(),
            char_texts(lines@) + lines_of(s@.skip(pos as int)) == lines_of(s@),
        decreases s@.len() - pos,
    {
        let end = find_char_from(s, '\n', pos);
        let ghost rest = s@.skip(pos as int);
        let ghost before = lines@;
        if end == s.len() {
            lines.push(copy_range(s, pos, end));
            assert(s@.subrange(pos as int, end as int) =~= rest);
            assert(char_texts(lines@) =~= char_texts(before).push(rest));
            pos = end;
            assert(lines_of(s@.skip(pos as int)) =~= seq![]);
            assert(char_texts(lines@) + lines_of(s@.skip(pos as int)) =~= char_texts(before)
                + lines_of(rest));
        } else {
            let stop: usize = if end > pos && s[end - 1] == '\r' {
                end - 1
            } else {
                end
            };
            lines.push(copy_range(s, pos, stop));
            assert(s@.subrange(pos as int, stop as int) =~= chomp_cr(rest.take(end - pos)));
            assert(char_texts(lines@) =~= char_texts(before).push(chomp_cr(rest.take(end - pos))));
            assert(s@.skip(end + 1) =~= rest.skip(end - pos + 1));
            assert(char_texts(lines@) + lines_of(s@.skip(end + 1)) =~= char_texts(before)
                + lines_of(rest));
            pos = end + 1;
        }
    }
    assert(lines_of(s@.skip(pos as int)) =~= seq![]);
    assert(char_texts(lines@) + lines_of(s@.skip(pos as int)) =~= char_texts(lines@));
    lines
}

/// The characters of `s` from position `from` up to position `to`.
pub fn copy_range(s: &[char], from: usize, to: usize) -> (part: Vec<char>)
    requires
        from <= to <= s@.len(),
    ensures
        part@ == s@.subrange(from as int, to as int),
{
    let mut part: Vec<char> = Vec::new();
    let mut i: usize = from;
    while i < to
        invariant
            from <= i <= to <= s@.len(),
            part@ == s@.subrange(from as int, i as int),
        decreases to - i,
    {
        part.push(s[i]);
        assert(s@.subrange(from as int, i + 1) =~= s@.subrange(from as int, i as int).push(
            s@[i as int],
        ));
        i += 1;
    }
    part
}

/// The parts of a text between the occurrences of `c`; there is one more part than occurrences.
pub open spec fn split_char(s: Seq<char>, c: char) -> Seq<Seq<char>>
    decreases s.len(),
{
    if find_char(s, c) == s.len() {
        seq![s]
    } else {
        proof {
            lemma_find_char(s, c);
        }
        seq![s.take(find_char(s, c))] + split_char(s.skip(find_char(s, c) + 1), c)
    }
}

/// There is always a first part.
pub proof fn lemma_split_char_nonempty(s: Seq<char>, c: char)
    ensures
        split_char(s, c).len() > 0,
    decreases s.len(),
{
    lemma_find_char(s, c);
}

/// Splits a text at each `c`.
pub fn split_at_char(s: &[char], c: char) -> (parts: Vec<Vec<char>>)
    ensures
        char_texts(parts@) == split_char(s@, c),
{
    let mut parts: Vec<Vec<char>> = Vec::new();
    let mut pos: usize = 0;
    let mut end = find_char_from(s, c, pos);
    assert(s@.skip(0) =~= s@);
    assert(char_texts(parts@) + split_char(s@, c) =~= split_char(s@, c));
    while end < s.len()
        invariant
            pos <= end <= s@.len(),
            end == pos + find_char(s@.skip(pos as int), c),
            char_texts(parts@) + split_char(s@.skip(pos as int), c) == split_char(s@, c),
        decreases s@.len() - end,
    {
        let ghost rest = s@.skip(pos as int);
        let ghost before = parts@;
        parts.push(copy_range(s, pos, end));
        assert(s@.subrange(pos as int, end as int) =~= rest.take(end - pos));
        assert(char_texts(parts@) =~= char_texts(before).push(rest.take(end - pos)));
        assert(s@.skip(end + 1) =~= rest.skip(end - pos + 1));
        assert(char_texts(parts@) + split_char(s@.skip(end + 1), c) =~= char_texts(before)
            + split_char(rest, c));
        pos = end + 1;
        end = find_char_from(s, c, pos);
    }
    let ghost before = parts@;
    parts.push(copy_range(s, pos, s.len()));
    assert(s@.subrange(pos as int, s@.len() as int) =~= s@.skip(pos as int));
    assert(char_texts(parts@) =~= char_texts(before) + split_char(s@.skip(pos as int), c));
    parts
}

/// The parts that `c` ends: as `split_char`, without a last part that is empty.
pub open spec fn split_terminator(s: Seq<char>, c: char) -> Seq<Seq<char>> {
    let parts = split_char(s, c);
    if parts.last().len() == 0 {
        parts.drop_last()
    } else {
        parts
    }
}

/// The parts one after the other, with `sep` between each two.
pub open spec fn join(parts: Seq<Seq<char>>, sep: Seq<char>) -> Seq<char>
    decreases parts.len(),
{
    if parts.len() == 0 {
        seq![]
    } else if parts.len() == 1 {
        parts[0]
    } else {
        join(parts.drop_last(), sep) + sep + parts.last()
    }
}

/// Joins strings with a separator.
pub fn join_strings(parts: &[String], sep: &str) -> (joined: String)
    ensures
        joined@ == join(texts(parts@), sep@),
{
    let mut joined = String::new();
    let mut i: usize = 0;
    while i < parts.len()
        invariant
            i <= parts@.len(),
            joined@ == join(texts(parts@).take(i as int), sep@),
        decreases parts@.len() - i,
    {
        if i > 0 {
            joined.push_str(sep);
        }
        joined.push_str(parts[i].as_str());
        let ghost next = texts(parts@).take(i + 1);
        assert(next.drop_last() =~= texts(parts@).take(i as int));
        assert(next.last() == parts@[i as int]@);
        if i == 0 {
            assert(joined@ =~= parts@[0]@);
        }
        i += 1;
    }
    assert(texts(parts@).take(parts@.len() as int) =~= texts(parts@));
    joined
}

/// How many characters at the start of `s` are white space.
pub open spec fn leading_space(s: Seq<char>) -> int
    decreases s.len(),
{
    if s.len() > 0 && is_white_space(s[0]) {
        1 + leading_space(s.drop_first())
    } else {
        0
    }
}

/// `leading_space` counts white space up to the first other character.
pub proof fn lemma_leading_space(s: Seq<char>)
    ensures
        0 <= leading_space(s) <= s.len(),
        forall|j: int| 0 <= j < leading_space(s) ==> is_white_space(#[trigger] s[j]),
        leading_space(s) < s.len() ==> !is_white_space(s[leading_space(s)]),
    decreases s.len(),
{
    if s.len() > 0 && is_white_space(s[0]) {
        lemma_leading_space(s.drop_first());
        assert forall|j: int| 0 <= j < leading_space(s) implies is_white_space(#[trigger] s[j]) by {
            if j > 0 {
                assert(is_white_space(s.drop_first()[j - 1]));
            }
        }
    }
}

/// A count of white space up to another character is the one that `leading_space` gives.
pub proof fn lemma_leading_space_is(s: Seq<char>, k: int)
    requires
        0 <= k <= s.len(),
        forall|j: int| 0 <= j < k ==> is_white_space(#[trigger] s[j]),
        k < s.len() ==> !is_white_space(s[k]),
    ensures
        leading_space(s) == k,
{
    lemma_leading_space(s);
    if leading_space(s) < k {
        assert(is_white_space(s[leading_space(s)]));
    }
}

/// `s` without the white space at its end.
pub open spec fn trim_end(s: Seq<char>) -> Seq<char>
    decreases s.len(),
{
    if s.len() > 0 && is_white_space(s.last()) {
        trim_end(s.drop_last())
    } else {
        s
    }
}

/// `s` without the white space at its start.
pub open spec fn trim_start(s: Seq<char>) -> Seq<char> {
    s.skip(leading_space(s))
}

/// `s` without the white space at its two ends.
pub open spec fn trim(s: Seq<char>) -> Seq<char> {
    trim_end(trim_start(s))
}

/// The first position at or after `from` that does not hold white space.
pub fn skip_space(s: &[char], from: usize) -> (k: usize)
    requires
        from <= s@.len(),
    ensures
        from <= k <= s@.len(),
        k == from + leading_space(s@.skip(from as int)),
{
    let mut k: usize = from;
    while k < s.len() && s[k].is_whitespace()
        invariant
            from <= k <= s@.len(),
            forall|j: int| from <= j < k ==> is_white_space(#[trigger] s@[j]),
        decreases s@.len() - k,
    {
        k += 1;
    }
    proof {
        let rest = s@.skip(from as int);
        assert forall|j: int| 0 <= j < k - from implies is_white_space(#[trigger] rest[j]) by {
            assert(rest[j] == s@[from + j]);
        }
        lemma_leading_space_is(rest, k - from);
    }
    k
}

/// Removes the white space at the end of a text.
pub fn trim_end_chars(s: &[char]) -> (trimmed: &[char])
    ensures
        trimmed@ == trim_end(s@),
{
    let mut end: usize = s.len();
    assert(s@.take(end as int) =~= s@);
    while end > 0 && s[end - 1].is_whitespace()
        invariant
            end <= s@.len(),
            trim_end(s@.take(end as int)) == trim_end(s@),
        decreases end,
    {
        assert(s@.take(end as int).drop_last() =~= s@.take(end - 1));
        end -= 1;
    }
    let trimmed = vstd::slice::slice_subrange(s, 0, end);
    assert(trimmed@ =~= s@.take(end as int));
    trimmed
}

/// Removes the white space at both ends of a text.
pub fn trim_chars(s: &[char]) -> (trimmed: &[char])
    ensures
        trimmed@ == trim(s@),
{
    let start = skip_space(s, 0);
    assert(s@.skip(0) =~= s@);
    let rest = vstd::slice::slice_subrange(s, start, s.len());
    assert(rest@ =~= trim_start(s@));
    trim_end_chars(rest)
}

/// How many characters at the start of `s` are not white space.
pub open spec fn word_len(s: Seq<char>) -> int
    decreases s.len(),
{
    if s.len() > 0 && !is_white_space(s[0]) {
        1 + word_len(s.drop_first())
    } else {
        0
    }
}

/// `word_len` counts up to the first white space.
pub proof fn lemma_word_len(s: Seq<char>)
    ensures
        0 <= word_len(s) <= s.len(),
        forall|j: int| 0 <= j < word_len(s) ==> !is_white_space(#[trigger] s[j]),
        word_len(s) < s.len() ==> is_white_space(s[word_len(s)]),
    decreases s.len(),
{
    if s.len() > 0 && !is_white_space(s[0]) {
        lemma_word_len(s.drop_first());
        assert forall|j: int| 0 <= j < word_len(s) implies !is_white_space(#[trigger] s[j]) by {
            if j > 0 {
                assert(!is_white_space(s.drop_first()[j - 1]));
            }
        }
    }
}

/// A count up to the first white space is the one that `word_len` gives.
pub proof fn lemma_word_len_is(s: Seq<char>, k: int)
    requires
        0 <= k <= s.len(),
        forall|j: int| 0 <= j < k ==> !is_white_space(#[trigger] s[j]),
        k < s.len() ==> is_white_space(s[k]),
    ensures
        word_len(s) == k,
{
    lemma_word_len(s);
    if word_len(s) < k {
        assert(!is_white_space(s[word_len(s)]));
    }
}

/// The first position at or after `from` that holds white space, or the length of `s`.
pub fn skip_word(s: &[char], from: usize) -> (k: usize)
    requires
        from <= s@.len(),
    ensures
        from <= k <= s@.len(),
        k == from + word_len(s@.skip(from as int)),
{
    let mut k: usize = from;
    while k < s.len() && !s[k].is_whitespace()
        invariant
            from <= k <= s@.len(),
            forall|j: int| from <= j < k ==> !is_white_space(#[trigger] s@[j]),
        decreases s@.len() - k,
    {
        k += 1;
    }
    proof {
        let rest = s@.skip(from as int);
        assert forall|j: int| 0 <= j < k - from implies !is_white_space(#[trigger] rest[j]) by {
            assert(rest[j] == s@[from + j]);
        }
        lemma_word_len_is(rest, k - from);
    }
    k
}

/// The words of a text: its longest parts without white space.
pub open spec fn words(s: Seq<char>) -> Seq<Seq<char>>
    decreases s.len(),
{
    let rest = trim_start(s);
    if rest.len() == 0 {
        seq![]
    } else {
        proof {
            lemma_leading_space(s);
            lemma_word_len(rest);
        }
        seq![rest.take(word_len(rest))] + words(rest.skip(word_len(rest)))
    }
}

/// Splits a text into its words.
pub fn split_words(s: &[char]) -> (result: Vec<Vec<char>>)
    ensures
        char_texts(result@) == words(s@),
{
    let mut result: Vec<Vec<char>> = Vec::new();
    let mut pos: usize = skip_space(s, 0);
    assert(s@.skip(0) =~= s@);
    assert(char_texts(result@) + words(s@) =~= words(s@));
    proof {
        lemma_words_trim_start(s@);
    }
    while pos < s.len()
        invariant
            pos <= s@.len(),
            pos < s@.len() ==> !is_white_space(s@[pos as int]),
            char_texts(result@) + words(s@.skip(pos as int)) == words(s@),
        decreases s@.len() - pos,
    {
        let end = skip_word(s, pos);
        let ghost rest = s@.skip(pos as int);
        let ghost before = result@;
        proof {
            lemma_word_len(rest);
            lemma_leading_space_is(rest, 0);
            assert(trim_start(rest) =~= rest);
        }
        result.push(copy_range(s, pos, end));
        assert(s@.subrange(pos as int, end as int) =~= rest.take(end - pos));
        assert(char_texts(result@) =~= char_texts(before).push(rest.take(end - pos)));
        let ghost tail = s@.skip(end as int);
        assert(tail =~= rest.skip(end - pos));
        assert(char_texts(result@) + words(tail) =~= char_texts(before) + words(rest));
        pos = skip_space(s, end);
        proof {
            lemma_words_trim_start(tail);
            assert(trim_start(tail) =~= s@.skip(pos as int));
            lemma_leading_space(tail);
        }
    }
    assert(trim_start(s@.skip(pos as int)).len() == 0) by {
        lemma_leading_space(s@.skip(pos as int));
    }
    assert(char_texts(result@) + words(s@.skip(pos as int)) =~= char_texts(result@));
    result
}

/// White space at the start of a text does not change its words.
pub proof fn lemma_words_trim_start(s: Seq<char>)
    ensures
        words(trim_start(s)) == words(s),
        trim_start(s).len() > 0 ==> !is_white_space(trim_start(s)[0]),
{
    lemma_leading_space(s);
    let rest = trim_start(s);
    lemma_leading_space_is(rest, 0);
    assert(trim_start(rest) =~= rest);
}

/// `s` begins with `prefix`.
pub open spec fn starts_with(s: Seq<char>, prefix: Seq<char>) -> bool {
    prefix.len() <= s.len() && s.take(prefix.len() as int) == prefix
}

/// Whether the characters of `s` from position `from` on begin with `prefix`.
pub fn has_prefix_at(s: &[char], from: usize, prefix: &str) -> (result: bool)
    requires
        from <= s@.len(),
    ensures
        result == starts_with(s@.skip(from as int), prefix@),
{
    let wanted = chars_of(prefix);
    if wanted.len() > s.len() - from {
        return false;
    }
    let ghost rest = s@.skip(from as int);
    let mut i: usize = 0;
    while i < wanted.len()
        invariant
            i <= wanted@.len(),
            wanted@ == prefix@,
            from + wanted@.len() <= s@.len() <= usize::MAX,
            rest == s@.skip(from as int),
            forall|j: int| 0 <= j < i ==> rest[j] == prefix@[j],
        decreases wanted@.len() - i,
    {
        if s[from + i] != wanted[i] {
            assert(rest.take(prefix@.len() as int)[i as int] != prefix@[i as int]);
            return false;
        }
        i += 1;
    }
    assert(rest.take(prefix@.len() as int) =~= prefix@);
    true
}

/// Removes `prefix` from the start of `s`.
pub fn strip_text_prefix<'a>(s: &'a [char], prefix: &str) -> (rest: Option<&'a [char]>)
    ensures
        rest is Some <==> starts_with(s@, prefix@),
        rest matches Some(r) ==> r@ == s@.skip(prefix@.len() as int),
{
    assert(s@.skip(0) =~= s@);
    if has_prefix_at(s, 0, prefix) {
        let rest = vstd::slice::slice_subrange(s, prefix.unicode_len(), s.len());
        assert(rest@ =~= s@.skip(prefix@.len() as int));
        Some(rest)
    } else {
        None
    }
}

/// The position of the first occurrence of `pattern` in `s`, if there is one.
pub open spec fn find_text(s: Seq<char>, pattern: Seq<char>) -> Option<int>
    decreases s.len(),
{
    if starts_with(s, pattern) {
        Some(0)
    } else if s.len() == 0 {
        None
    } else {
        match find_text(s.drop_first(), pattern) {
            Some(k) => Some(k + 1),
            None => None,
        }
    }
}

/// What `find_text` gives is in range, and the pattern is there and nowhere before.
pub proof fn lemma_find_text(s: Seq<char>, pattern: Seq<char>)
    ensures
        find_text(s, pattern) matches Some(k) ==> 0 <= k && k + pattern.len() <= s.len()
            && starts_with(s.skip(k), pattern) && forall|j: int|
            0 <= j < k ==> !starts_with(#[trigger] s.skip(j), pattern),
        find_text(s, pattern) is None ==> forall|j: int|
            0 <= j <= s.len() ==> !starts_with(#[trigger] s.skip(j), pattern),
    decreases s.len(),
{
    assert(s.skip(0) =~= s);
    if !starts_with(s, pattern) && s.len() > 0 {
        let tail = s.drop_first();
        lemma_find_text(tail, pattern);
        assert forall|j: int| 1 <= j <= s.len() implies #[trigger] s.skip(j) == tail.skip(
            j - 1,
        ) by {
            assert(s.skip(j) =~= tail.skip(j - 1));
        }
        match find_text(tail, pattern) {
            Some(k) => {
                assert(s.skip(k + 1) == tail.skip(k));
            },
            None => {},
        }
    }
}

/// Finds the first occurrence of `pattern` in `s`.
pub fn find_in(s: &[char], pattern: &str) -> (result: Option<usize>)
    ensures
        match result {
            Some(k) => find_text(s@, pattern@) == Some(k as int),
            None => find_text(s@, pattern@) is None,
        },
        result matches Some(k) ==> k + pattern@.len() <= s@.len(),
{
    let mut k: usize = 0;
    while k < s.len() && !has_prefix_at(s, k, pattern)
        invariant
            k <= s@.len(),
            forall|j: int| 0 <= j < k ==> !starts_with(#[trigger] s@.skip(j), pattern@),
        decreases s@.len() - k,
    {
        k += 1;
    }
    proof {
        lemma_find_text(s@, pattern@);
        if let Some(first) = find_text(s@, pattern@) {
            assert(starts_with(s@.skip(first), pattern@));
        }
    }
    if has_prefix_at(s, k, pattern) {
        Some(k)
    } else {
        None
    }
}

/// Joining two non-empty groups of parts is joining each and putting the separator between.
pub proof fn lemma_join_concat(a: Seq<Seq<char>>, b: Seq<Seq<char>>, sep: Seq<char>)
    requires
        a.len() > 0,
        b.len() > 0,
    ensures
        join(a + b, sep) == join(a, sep) + sep + join(b, sep),
    decreases b.len(),
{
    let all = a + b;
    assert(all.last() == b.last());
    if b.len() == 1 {
        assert(all.drop_last() =~= a);
        assert(join(b, sep) == b[0]);
    } else {
        assert(all.drop_last() =~= a + b.drop_last());
        lemma_join_concat(a, b.drop_last(), sep);
        assert(join(all, sep) =~= join(a, sep) + sep + join(b, sep));
    }
}

/// Joining the parts of a text with the character at which it was split gives the text.
pub proof fn lemma_join_split(s: Seq<char>, c: char)
    ensures
        join(split_char(s, c), seq![c]) == s,
    decreases s.len(),
{
    lemma_find_char(s, c);
    let k = find_char(s, c);
    if k == s.len() {
        assert(join(seq![s], seq![c]) == s);
    } else {
        let rest = s.skip(k + 1);
        lemma_join_split(rest, c);
        lemma_split_char_nonempty(rest, c);
        lemma_join_concat(seq![s.take(k)], split_char(rest, c), seq![c]);
        assert(join(seq![s.take(k)], seq![c]) == s.take(k));
        assert(s.take(k) + seq![c] + rest =~= s);
    }
}

/// Trimming a text removes white space at its ends and nothing else, and leaves none there.
pub proof fn law_trim(s: Seq<char>) -> (ends: (int, int))
    ensures
        0 <= ends.0 <= ends.1 <= s.len(),
        trim(s) == s.subrange(ends.0, ends.1),
        forall|j: int| 0 <= j < ends.0 || ends.1 <= j < s.len() ==> is_white_space(#[trigger] s[j]),
        ends.0 < ends.1 ==> !is_white_space(s[ends.0]) && !is_white_space(s[ends.1 - 1]),
{
    lemma_leading_space(s);
    let a = leading_space(s);
    let rest = trim_start(s);
    let n = law_trim_end(rest);
    assert(trim(s) =~= s.subrange(a, a + n));
    assert forall|j: int| 0 <= j < a || a + n <= j < s.len() implies is_white_space(
        #[trigger] s[j],
    ) by {
        if j >= a + n {
            assert(is_white_space(rest[j - a]));
        }
    }
    (a, a + n)
}

/// Trimming the end of a text removes white space there and nothing else, and leaves none there.
pub proof fn law_trim_end(s: Seq<char>) -> (end: int)
    ensures
        0 <= end <= s.len(),
        trim_end(s) == s.take(end),
        forall|j: int| end <= j < s.len() ==> is_white_space(#[trigger] s[j]),
        end > 0 ==> !is_white_space(s[end - 1]),
    decreases s.len(),
{
    if s.len() > 0 && is_white_space(s.last()) {
        let init = s.drop_last();
        let end = law_trim_end(init);
        assert(init.take(end) =~= s.take(end));
        assert forall|j: int| end <= j < s.len() implies is_white_space(#[trigger] s[j]) by {
            if j < init.len() {
                assert(is_white_space(init[j]));
            }
        }
        end
    } else {
        assert(s.take(s.len() as int) =~= s);
        s.len() as int
    }
}

/// A line ends with a line feed, or with a carriage return and a line feed; neither is part of it.
pub proof fn law_line_ends(line: Seq<char>, rest: Seq<char>)
    requires
        !line.contains('\n'),
        line.len() > 0 ==> line.last() != '\r',
    ensures
        lines_of(line + seq!['\n'] + rest) == seq![line] + lines_of(rest),
        lines_of(line + seq!['\r', '\n'] + rest) == seq![line] + lines_of(rest),
        line.len() > 0 ==> lines_of(line) == seq![line],
        lines_of(seq![]).len() == 0,
{
    let n = line.len() as int;
    assert forall|j: int| 0 <= j < n implies line[j] != '\n' by {
        assert(line.contains(line[j]));
    }
    let short = line + seq!['\n'] + rest;
    lemma_find_char_is(short, '\n', n);
    assert(short.take(n) =~= line);
    assert(short.skip(n + 1) =~= rest);
    let long = line + seq!['\r', '\n'] + rest;
    lemma_find_char_is(long, '\n', n + 1);
    assert(long.take(n + 1) =~= line.push('\r'));
    assert(line.push('\r').drop_last() =~= line);
    assert(long.skip(n + 2) =~= rest);
    lemma_find_char_is(line, '\n', n);
}

} // verus!
