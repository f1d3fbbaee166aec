//! Names of note files.

use vstd::prelude::*;
use crate::text::{from_chars, to_chars};

verus! {

/// A character that may not stand in a file name.
pub open spec fn is_forbidden(c: char) -> bool {
    c == '/' || c == '\\' || c == ':' || c == '*' || c == '?' || c == '"' || c == '<' || c == '>'
        || c == '|'
}

/// The character itself, or an underscore in place of a forbidden one.
pub open spec fn replacement(c: char) -> char {
    if is_forbidden(c) {
        '_'
    } else {
        c
    }
}

/// A white-space character of Unicode.
pub open spec fn is_space(c: char) -> bool {
    let n = c as u32;
    (0x09 <= n <= 0x0D) || n == 0x20 || n == 0x85 || n == 0xA0 || n == 0x1680 || (0x2000 <= n
        <= 0x200A) || n == 0x2028 || n == 0x2029 || n == 0x202F || n == 0x205F || n == 0x3000
}

/// How many white-space characters a text starts with.
pub open spec fn leading_spaces(text: Seq<char>) -> nat
    decreases text.len(),
{
    if text.len() > 0 && is_space(text[0]) {
        1 + leading_spaces(text.drop_first())
    } else {
        0
    }
}

/// How many white-space characters a text ends with.
pub open spec fn trailing_spaces(text: Seq<char>) -> nat
    decreases text.len(),
{
    if text.len() > 0 && is_space(text.last()) {
        1 + trailing_spaces(text.drop_last())
    } else {
        0
    }
}

/// The text without the white space at its start and at its end.
pub open spec fn trimmed(text: Seq<char>) -> Seq<char> {
    let rest = text.skip(leading_spaces(text) as int);
    rest.take(rest.len() - trailing_spaces(rest))
}

/// The file name for a title: each forbidden character gives way to an
/// underscore, and white space at either end is cut off.
pub open spec fn sanitized(filename: Seq<char>) -> Seq<char> {
    trimmed(filename.map_values(|c: char| replacement(c)))
}

fn forbidden(c: char) -> (b: bool)
    ensures
        b == is_forbidden(c),
{
    c == '/' || c == '\\' || c == ':' || c == '*' || c == '?' || c == '"' || c == '<' || c == '>'
        || c == '|'
}

/// Whether a character is white space, as `is_space` says.
pub fn is_space_char(c: char) -> (b: bool)
    ensures
        b == is_space(c),
{
    let n: u32 = c as u32;
    (0x09 <= n && n <= 0x0D) || n == 0x20 || n == 0x85 || n == 0xA0 || n == 0x1680 || (0x2000 <= n
        && n <= 0x200A) || n == 0x2028 || n == 0x2029 || n == 0x202F || n == 0x205F || n == 0x3000
}

/// Where the text without the white space at its ends starts and ends.
pub fn trim_bounds(chars: &Vec<char>) -> (bounds: (usize, usize))
    ensures
        bounds.0 <= bounds.1 <= chars.len(),
        chars@.subrange(bounds.0 as int, bounds.1 as int) == trimmed(chars@),
{
    let ghost all = chars@;
    let mut start: usize = 0;
    assert(all.skip(0) =~= all);
    while start < chars.len() && is_space_char(chars[start])
        invariant
            start <= chars.len(),
            all == chars@,
            leading_spaces(all) == start + leading_spaces(all.skip(start as int)),
        decreases chars.len() - start,
    {
        proof {
            assert(all.skip(start as int).drop_first() =~= all.skip(start + 1));
        }
        start = start + 1;
    }
    let ghost rest = all.skip(start as int);
    let mut end: usize = chars.len();
    assert(rest.take(end - start) =~= rest);
    while end > start && is_space_char(chars[end - 1])
        invariant
            start <= end <= chars.len(),
            all == chars@,
            rest == all.skip(start as int),
            trailing_spaces(rest) == (chars.len() - end) + trailing_spaces(rest.take(end - start)),
        decreases end,
    {
        proof {
            let part = rest.take(end - start);
            assert(part.last() == chars@[end - 1]);
            assert(part.drop_last() =~= rest.take(end - 1 - start));
        }
        end = end - 1;
    }
    proof {
        let part = rest.take(end - start);
        if end > start {
            assert(part.last() == chars@[end - 1]);
        }
        assert(trailing_spaces(part) == 0);
        assert(leading_spaces(all.skip(start as int)) == 0);
        assert(all.subrange(start as int, end as int) =~= trimmed(all));
    }
    (start, end)
}

/// The text without the white space at its start and at its end.
pub fn trim(chars: &Vec<char>) -> (out: Vec<char>)
    ensures
        out@ == trimmed(chars@),
{
    let (start, end) = trim_bounds(chars);
    let mut out: Vec<char> = Vec::new();
    let mut k: usize = start;
    while k < end
        invariant
            start <= k <= end <= chars.len(),
            out@ == chars@.subrange(start as int, k as int),
        decreases end - k,
    {
        out.push(chars[k]);
        k = k + 1;
        assert(out@ =~= chars@.subrange(start as int, k as int));
    }
    out
}

/// Makes a file name of a title: `/ \ : * ? " < > |` become underscores, and
/// white space at either end is cut off.
pub fn sanitize_filename(filename: &str) -> (name: String)
    ensures
        name@ == sanitized(filename@),
{
    let chars = to_chars(filename);
    let mut mapped: Vec<char> = Vec::new();
    let mut i: usize = 0;
    while i < chars.len()
        invariant
            i <= chars.len(),
            mapped.len() == i,
            forall|j: int| 0 <= j < i ==> mapped@[j] == replacement(chars@[j]),
        decreases chars.len() - i,
    {
        let c = chars[i];
        mapped.push(if forbidden(c) { '_' } else { c });
        i = i + 1;
    }
    assert(mapped@ =~= filename@.map_values(|c: char| replacement(c)));
    let (start, end) = trim_bounds(&mapped);
    from_chars(&mapped, start, end)
}

/// Whether a file with this extension holds plain text: `md`, `txt`,
/// `markdown` or `text`, in lower case.
pub fn is_text_extension(extension: &str) -> (is_text: bool)
    ensures
        is_text == (extension@ == "md"@ || extension@ == "txt"@ || extension@ == "markdown"@
            || extension@ == "text"@),
{
    let ext = extension.to_owned();
    ext == "md".to_owned() || ext == "txt".to_owned() || ext == "markdown".to_owned() || ext
        == "text".to_owned()
}

} // verus!
