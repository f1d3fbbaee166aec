//! Conversions between strings and character vectors.

use vstd::prelude::*;
use vstd::std_specs::iter::IteratorSpec;

verus! {

/// `String::push` appends exactly one character to the end of the string.
pub assume_specification[ String::push ](s: &mut String, c: char)
    ensures
        final(s)@ == old(s)@.push(c),
;

/// The characters of `s`, in order.
pub fn to_chars(s: &str) -> (chars: Vec<char>)
    ensures
        chars@ == s@,
{
    let mut chars: Vec<char> = Vec::new();
    for c in it: s.chars()
        invariant
            it.seq() == s@,
            chars@ == it.seq().take(it.index() as int),
    {
        chars.push(c);
    }
    chars
}

/// The string that holds the characters `chars[from..to]`.
pub fn from_chars(chars: &Vec<char>, from: usize, to: usize) -> (s: String)
    requires
        from <= to <= chars.len(),
    ensures
        s@ == chars@.subrange(from as int, to as int),
{
    let mut s = String::new();
    let mut i: usize = from;
    while i < to
        invariant
            from <= i <= to <= chars.len(),
            s@ == chars@.subrange(from as int, i as int),
        decreases to - i,
    {
        s.push(chars[i]);
        i = i + 1;
        assert(s@ =~= chars@.subrange(from as int, i as int));
    }
    assert(s@ =~= chars@.subrange(from as int, to as int));
    s
}

/// Whether `part` stands in `text` at `place`.
pub open spec fn occurs_at(text: Seq<char>, place: int, part: Seq<char>) -> bool {
    0 <= place && place + part.len() <= text.len() && text.subrange(place, place + part.len()) == part
}

/// The text with each occurrence of `from` replaced by `to`, found from the
/// start of the text on, one after the end of the other. An empty `from`
/// occurs nowhere.
pub open spec fn replace_all(text: Seq<char>, from: Seq<char>, to: Seq<char>) -> Seq<char>
    decreases text.len(),
{
    if from.len() == 0 || text.len() == 0 {
        text
    } else if occurs_at(text, 0, from) {
        to + replace_all(text.skip(from.len() as int), from, to)
    } else {
        seq![text[0]] + replace_all(text.skip(1), from, to)
    }
}

/// Whether `part` stands somewhere in `text`.
#[verifier::opaque]
pub open spec fn contains_text(text: Seq<char>, part: Seq<char>) -> bool {
    exists|place: int| occurs_at(text, place, part)
}

/// Whether `part` stands in `text` at `place`.
pub fn matches_at(text: &Vec<char>, place: usize, part: &Vec<char>) -> (found: bool)
    ensures
        found == occurs_at(text@, place as int, part@),
{
    if place > text.len() || part.len() > text.len() - place {
        return false;
    }
    let mut k: usize = 0;
    while k < part.len()
        invariant
            k <= part.len(),
            place + part.len() <= text.len(),
            forall|j: int| 0 <= j < k ==> text@[place + j] == part@[j],
        decreases part.len() - k,
    {
        if text[place + k] != part[k] {
            proof {
                let piece = text@.subrange(place as int, place + part.len());
                assert(piece[k as int] == text@[place + k]);
            }
            return false;
        }
        k = k + 1;
    }
    assert(text@.subrange(place as int, place + part.len()) =~= part@);
    true
}

/// Whether `part` stands somewhere in `text`.
pub fn contains(text: &Vec<char>, part: &str) -> (found: bool)
    ensures
        found == contains_text(text@, part@),
{
    let wanted = to_chars(part);
    let mut place: usize = 0;
    while place < text.len()
        invariant
            place <= text.len(),
            wanted@ == part@,
            forall|j: int| 0 <= j < place ==> !occurs_at(text@, j, part@),
        decreases text.len() - place,
    {
        if matches_at(text, place, &wanted) {
            proof {
                reveal(contains_text);
            }
            return true;
        }
        place = place + 1;
    }
    proof {
        reveal(contains_text);
    }
    matches_at(text, place, &wanted)
}

/// The text with each occurrence of `from` replaced by `to`, as
/// `replace_all` says.
pub fn replace(text: &Vec<char>, from: &str, to: &str) -> (out: Vec<char>)
    ensures
        out@ == replace_all(text@, from@, to@),
{
    let pattern = to_chars(from);
    let with = to_chars(to);
    let mut out: Vec<char> = Vec::new();
    if pattern.len() == 0 {
        let mut k: usize = 0;
        while k < text.len()
            invariant
                k <= text.len(),
                out@ == text@.take(k as int),
            decreases text.len() - k,
        {
            out.push(text[k]);
            k = k + 1;
            assert(out@ =~= text@.take(k as int));
        }
        assert(text@.take(k as int) =~= text@);
        return out;
    }
    let mut place: usize = 0;
    assert(text@.skip(0) =~= text@);
    assert(out@ + replace_all(text@, from@, to@) =~= replace_all(text@, from@, to@));
    while place < text.len()
        invariant
            place <= text.len(),
            pattern@ == from@,
            with@ == to@,
            pattern.len() > 0,
            out@ + replace_all(text@.skip(place as int), from@, to@) == replace_all(
                text@,
                from@,
                to@,
            ),
        decreases text.len() - place,
    {
        let ghost rest = text@.skip(place as int);
        let ghost before = out@;
        if matches_at(text, place, &pattern) {
            proof {
                assert(rest.subrange(0, from@.len() as int) =~= text@.subrange(
                    place as int,
                    place + from@.len(),
                ));
                assert(rest.skip(from@.len() as int) =~= text@.skip(place + from@.len()));
            }
            let mut k: usize = 0;
            while k < with.len()
                invariant
                    k <= with.len(),
                    out@ == before + with@.take(k as int),
                decreases with.len() - k,
            {
                out.push(with[k]);
                k = k + 1;
                assert(out@ =~= before + with@.take(k as int));
            }
            proof {
                assert(with@.take(k as int) =~= with@);
                let after = replace_all(text@.skip(place + from@.len()), from@, to@);
                assert((before + to@) + after =~= before + (to@ + after));
            }
            place = place + pattern.len();
        } else {
            proof {
                if place + from@.len() <= text@.len() {
                    assert(rest.subrange(0, from@.len() as int) =~= text@.subrange(
                        place as int,
                        place + from@.len(),
                    ));
                }
                assert(rest.skip(1) =~= text@.skip(place + 1));
                let after = replace_all(text@.skip(place + 1), from@, to@);
                assert(before.push(text@[place as int]) + after =~= before + (seq![rest[0]] + after));
            }
            out.push(text[place]);
            place = place + 1;
        }
    }
    assert(text@.skip(place as int) =~= Seq::<char>::empty());
    assert(out@ + Seq::<char>::empty() =~= out@);
    out
}

/// The texts that a list of character vectors holds.
pub open spec fn texts_of(parts: Seq<Vec<char>>) -> Seq<Seq<char>> {
    Seq::new(parts.len(), |k: int| parts[k]@)
}

/// Whether a character is one of three.
pub open spec fn is_stop(x: char, a: char, b: char, c: char) -> bool {
    x == a || x == b || x == c
}

/// Place of the first `a`, `b` or `c` in a text, or its length where there
/// is none.
pub open spec fn first_stop(text: Seq<char>, a: char, b: char, c: char) -> nat
    decreases text.len(),
{
    if text.len() == 0 || is_stop(text[0], a, b, c) {
        0
    } else {
        1 + first_stop(text.drop_first(), a, b, c)
    }
}

/// The parts of a text between the characters `a`, `b` and `c`: one more
/// than there are such characters, some of them empty perhaps.
pub open spec fn split_at(text: Seq<char>, a: char, b: char, c: char) -> Seq<Seq<char>>
    decreases text.len(),
{
    let n = first_stop(text, a, b, c) as int;
    if n >= text.len() {
        seq![text]
    } else {
        seq![text.take(n)] + split_at(text.skip(n + 1), a, b, c)
    }
}

/// A place before which there is no stop, and which is a stop or the end,
/// is the first stop.
pub proof fn lemma_first_stop_unique(text: Seq<char>, a: char, b: char, c: char, n: nat)
    requires
        n <= text.len(),
        forall|k: int| 0 <= k < n ==> !is_stop(#[trigger] text[k], a, b, c),
        n == text.len() || is_stop(text[n as int], a, b, c),
    ensures
        first_stop(text, a, b, c) == n,
    decreases n,
{
    if n > 0 {
        assert(!is_stop(text[0], a, b, c));
        assert forall|k: int| 0 <= k < n - 1 implies !is_stop(
            #[trigger] text.drop_first()[k],
            a,
            b,
            c,
        ) by {
            assert(text.drop_first()[k] == text[k + 1]);
        }
        lemma_first_stop_unique(text.drop_first(), a, b, c, (n - 1) as nat);
    }
}

/// The characters `text[from..to]`.
pub fn slice(text: &Vec<char>, from: usize, to: usize) -> (out: Vec<char>)
    requires
        from <= to <= text.len(),
    ensures
        out@ == text@.subrange(from as int, to as int),
{
    let mut out: Vec<char> = Vec::new();
    let mut k: usize = from;
    while k < to
        invariant
            from <= k <= to <= text.len(),
            out@ == text@.subrange(from as int, k as int),
        decreases to - k,
    {
        out.push(text[k]);
        k = k + 1;
        assert(out@ =~= text@.subrange(from as int, k as int));
    }
    out
}

/// The parts of a text between the characters `a`, `b` and `c`, as
/// `split_at` says.
pub fn split(text: &Vec<char>, a: char, b: char, c: char) -> (parts: Vec<Vec<char>>)
    ensures
        texts_of(parts@) == split_at(text@, a, b, c),
        parts.len() >= 1,
{
    let mut parts: Vec<Vec<char>> = Vec::new();
    let mut start: usize = 0;
    assert(text@.skip(0) =~= text@);
    assert(texts_of(parts@) + split_at(text@, a, b, c) =~= split_at(text@, a, b, c));
    loop
        invariant
            start <= text.len(),
            texts_of(parts@) + split_at(text@.skip(start as int), a, b, c) == split_at(
                text@,
                a,
                b,
                c,
            ),
        decreases text.len() - start,
    {
        let ghost rest = text@.skip(start as int);
        let ghost before = texts_of(parts@);
        let mut end: usize = start;
        while end < text.len() && text[end] != a && text[end] != b && text[end] != c
            invariant
                start <= end <= text.len(),
                forall|k: int| start <= k < end ==> !is_stop(#[trigger] text@[k], a, b, c),
            decreases text.len() - end,
        {
            end = end + 1;
        }
        proof {
            assert forall|k: int| 0 <= k < end - start implies !is_stop(#[trigger] rest[k], a, b, c) by {
                assert(rest[k] == text@[start + k]);
            }
            lemma_first_stop_unique(rest, a, b, c, (end - start) as nat);
            assert(rest.take(end - start) =~= text@.subrange(start as int, end as int));
        }
        let part = slice(text, start, end);
        proof {
            assert(texts_of(parts@.push(part)) =~= before.push(part@));
        }
        parts.push(part);
        if end == text.len() {
            proof {
                assert(rest.take(end - start) =~= rest);
                assert(before.push(rest) =~= before + seq![rest]);
            }
            return parts;
        }
        proof {
            assert(rest.skip(end - start + 1) =~= text@.skip(end + 1));
            let after = split_at(text@.skip(end + 1), a, b, c);
            assert(before.push(rest.take(end - start)) + after =~= before + (seq![
                rest.take(end - start),
            ] + after));
        }
        start = end + 1;
    }
}

/// The number of bytes that a character takes in UTF-8.
pub open spec fn utf8_width(c: char) -> nat {
    if (c as u32) < 0x80 {
        1
    } else if (c as u32) < 0x800 {
        2
    } else if (c as u32) < 0x10000 {
        3
    } else {
        4
    }
}

/// The number of bytes that a text takes in UTF-8.
pub open spec fn utf8_len(text: Seq<char>) -> nat
    decreases text.len(),
{
    if text.len() == 0 {
        0
    } else {
        utf8_len(text.drop_last()) + utf8_width(text.last())
    }
}

/// Whether a text takes more than `limit` bytes in UTF-8.
pub fn exceeds_bytes(text: &Vec<char>, limit: usize) -> (more: bool)
    requires
        limit <= 1_000_000,
    ensures
        more == (utf8_len(text@) > limit),
{
    let mut bytes: usize = 0;
    let mut k: usize = 0;
    assert(text@.take(0) =~= Seq::<char>::empty());
    while k < text.len()
        invariant
            k <= text.len(),
            limit <= 1_000_000,
            bytes == utf8_len(text@.take(k as int)),
            bytes <= limit,
        decreases text.len() - k,
    {
        let n: u32 = text[k] as u32;
        let width: usize = if n < 0x80 {
            1
        } else if n < 0x800 {
            2
        } else if n < 0x10000 {
            3
        } else {
            4
        };
        proof {
            assert(text@.take(k + 1).drop_last() =~= text@.take(k as int));
            assert(text@.take(k + 1).last() == text@[k as int]);
        }
        bytes = bytes + width;
        k = k + 1;
        if bytes > limit {
            proof {
                lemma_utf8_len_prefix(text@, k as int);
            }
            return true;
        }
    }
    assert(text@.take(k as int) =~= text@);
    false
}

/// A start of a text takes no more bytes than the text.
pub proof fn lemma_utf8_len_prefix(text: Seq<char>, count: int)
    requires
        0 <= count <= text.len(),
    ensures
        utf8_len(text.take(count)) <= utf8_len(text),
    decreases text.len() - count,
{
    if count < text.len() {
        assert(text.take(count + 1).drop_last() =~= text.take(count));
        lemma_utf8_len_prefix(text, count + 1);
    } else {
        assert(text.take(count) =~= text);
    }
}

/// The line without a carriage return at its end.
pub open spec fn strip_cr(line: Seq<char>) -> Seq<char> {
    if line.len() > 0 && line.last() == '\r' {
        line.drop_last()
    } else {
        line
    }
}

/// The lines of a text. A line ends with a line feed, before which a
/// carriage return is not part of the line; what follows the last line feed
/// is a line too unless it is empty.
pub open spec fn lines_of(text: Seq<char>) -> Seq<Seq<char>> {
    let pieces = split_at(text, '\n', '\n', '\n');
    let ended = Seq::new((pieces.len() - 1) as nat, |k: int| strip_cr(pieces[k]));
    if pieces.last().len() == 0 {
        ended
    } else {
        ended.push(pieces.last())
    }
}

/// The texts one after the other with `with` between them.
pub open spec fn joined(parts: Seq<Seq<char>>, with: Seq<char>) -> Seq<char>
    decreases parts.len(),
{
    if parts.len() == 0 {
        Seq::<char>::empty()
    } else if parts.len() == 1 {
        parts[0]
    } else {
        joined(parts.drop_last(), with) + with + parts.last()
    }
}

/// The lines of a text, as `lines_of` says.
pub fn lines(text: &Vec<char>) -> (out: Vec<Vec<char>>)
    ensures
        texts_of(out@) == lines_of(text@),
{
    let pieces = split(text, '\n', '\n', '\n');
    let ghost all = texts_of(pieces@);
    let mut out: Vec<Vec<char>> = Vec::new();
    let mut k: usize = 0;
    while k + 1 < pieces.len()
        invariant
            pieces.len() >= 1,
            k + 1 <= pieces.len(),
            all == texts_of(pieces@),
            out.len() == k,
            forall|j: int| 0 <= j < k ==> (#[trigger] out[j])@ == strip_cr(all[j]),
        decreases pieces.len() - k,
    {
        let piece = &pieces[k];
        let n = piece.len();
        let line = if n > 0 && piece[n - 1] == '\r' {
            slice(piece, 0, n - 1)
        } else {
            slice(piece, 0, n)
        };
        proof {
            assert(all[k as int] == piece@);
            assert(piece@.subrange(0, n as int) =~= piece@);
            if n > 0 {
                assert(piece@.subrange(0, n - 1) =~= piece@.drop_last());
            }
        }
        out.push(line);
        k = k + 1;
    }
    let last = &pieces[k];
    if last.len() > 0 {
        let line = slice(last, 0, last.len());
        proof {
            assert(last@.subrange(0, last.len() as int) =~= last@);
        }
        out.push(line);
    }
    proof {
        assert(all.last() == last@);
        assert(texts_of(out@) =~= lines_of(text@));
    }
    out
}

/// The texts one after the other with `with` between them, as `joined`
/// says.
pub fn join(parts: &Vec<Vec<char>>, with: &str) -> (out: String)
    ensures
        out@ == joined(texts_of(parts@), with@),
{
    let ghost all = texts_of(parts@);
    let mut out = String::new();
    let mut k: usize = 0;
    assert(all.take(0) =~= Seq::<Seq<char>>::empty());
    while k < parts.len()
        invariant
            k <= parts.len(),
            all == texts_of(parts@),
            out@ == joined(all.take(k as int), with@),
        decreases parts.len() - k,
    {
        let ghost before = out@;
        if k > 0 {
            out.append(with);
        }
        let ghost mid = out@;
        let part = &parts[k];
        let mut j: usize = 0;
        while j < part.len()
            invariant
                j <= part.len(),
                out@ == mid + part@.take(j as int),
            decreases part.len() - j,
        {
            out.push(part[j]);
            j = j + 1;
            assert(out@ =~= mid + part@.take(j as int));
        }
        proof {
            assert(part@.take(j as int) =~= part@);
            assert(all.take(k + 1).drop_last() =~= all.take(k as int));
            assert(all.take(k + 1).last() == part@);
            if k == 0 {
                assert(out@ =~= part@);
                assert(all.take(1)[0] == part@);
            }
        }
        k = k + 1;
    }
    assert(all.take(k as int) =~= all);
    out
}

/// The text with `prefix` before it.
pub fn with_prefix(prefix: &str, text: &Vec<char>) -> (out: Vec<char>)
    ensures
        out@ == prefix@ + text@,
{
    let mut out = to_chars(prefix);
    let ghost start = out@;
    let mut k: usize = 0;
    while k < text.len()
        invariant
            k <= text.len(),
            out@ == start + text@.take(k as int),
        decreases text.len() - k,
    {
        out.push(text[k]);
        k = k + 1;
        assert(out@ =~= start + text@.take(k as int));
    }
    assert(text@.take(k as int) =~= text@);
    out
}

/// How many characters from the start of a text fit into `limit` bytes of
/// UTF-8.
pub open spec fn chars_within(text: Seq<char>, limit: nat) -> nat
    decreases text.len(),
{
    if text.len() == 0 || utf8_width(text[0]) > limit {
        0
    } else {
        1 + chars_within(text.drop_first(), (limit - utf8_width(text[0])) as nat)
    }
}

/// How many characters from the start of a text fit into `limit` bytes of
/// UTF-8, as `chars_within` says.
pub fn fitting_chars(text: &Vec<char>, limit: usize) -> (count: usize)
    ensures
        count == chars_within(text@, limit as nat),
        count <= text.len(),
{
    let mut left: usize = limit;
    let mut k: usize = 0;
    assert(text@.skip(0) =~= text@);
    while k < text.len()
        invariant
            k <= text.len(),
            chars_within(text@, limit as nat) == k + chars_within(text@.skip(k as int), left as nat),
        decreases text.len() - k,
    {
        let n: u32 = text[k] as u32;
        let width: usize = if n < 0x80 {
            1
        } else if n < 0x800 {
            2
        } else if n < 0x10000 {
            3
        } else {
            4
        };
        proof {
            assert(text@.skip(k as int)[0] == text@[k as int]);
            assert(text@.skip(k as int).drop_first() =~= text@.skip(k + 1));
        }
        if width > left {
            return k;
        }
        left = left - width;
        k = k + 1;
    }
    assert(text@.skip(k as int) =~= Seq::<char>::empty());
    k
}

/// The texts that a list of strings holds.
pub open spec fn strings_view(strings: Seq<String>) -> Seq<Seq<char>> {
    Seq::new(strings.len(), |k: int| strings[k]@)
}

/// A copy of a list of strings.
pub fn clone_strings(strings: &Vec<String>) -> (copy: Vec<String>)
    ensures
        strings_view(copy@) == strings_view(strings@),
{
    let mut copy: Vec<String> = Vec::new();
    let mut k: usize = 0;
    while k < strings.len()
        invariant
            k <= strings.len(),
            copy.len() == k,
            forall|j: int| 0 <= j < k ==> (#[trigger] copy[j])@ == strings[j]@,
        decreases strings.len() - k,
    {
        copy.push(strings[k].clone());
        k = k + 1;
    }
    assert(strings_view(copy@) =~= strings_view(strings@));
    copy
}

} // verus!
