//! Enhancement of a note on this machine: rewriting by fixed rules, with no
//! model and no network.

use vstd::prelude::*;
use crate::ai::WritingStyle;
use crate::file_utils::{is_space, trim, trimmed};
use crate::presence::{hex_text, md5_hex, md5_of};
use crate::text::{
    chars_within, contains, contains_text, exceeds_bytes, fitting_chars, from_chars, join, joined,
    clone_strings, lines, lines_of, replace, replace_all, slice, split, split_at, strings_view,
    texts_of, to_chars, utf8_len, with_prefix,
};

verus! {

/// Memory that the local model needs, in bytes.
pub const REQUIRED_MEMORY: u64 = 2_000_000_000;

/// Whether a character is alphabetic, as Unicode has it.
pub uninterp spec fn is_alphabetic(c: char) -> bool;

/// The first character of the upper-case form of a character.
pub uninterp spec fn uppercase_first(c: char) -> Option<char>;

/// `char::is_alphabetic` of std: whether the character has the Unicode
/// property Alphabetic. The answer depends on the character alone.
#[verifier::external_body]
fn alphabetic(c: char) -> (yes: bool)
    ensures
        yes == is_alphabetic(c),
{
    c.is_alphabetic()
}

/// `char::to_uppercase` of std, of which the first character is taken. It
/// depends on the character alone.
#[verifier::external_body]
fn first_uppercase(c: char) -> (upper: Option<char>)
    ensures
        upper == uppercase_first(c),
{
    c.to_uppercase().next()
}

/// The text in the wording of a style.
pub open spec fn styled_text(content: Seq<char>, style: WritingStyle) -> Seq<char> {
    match style {
        WritingStyle::Formal => {
            let a = replace_all(content, "don't"@, "do not"@);
            let b = replace_all(a, "can't"@, "cannot"@);
            let c = replace_all(b, "won't"@, "will not"@);
            let d = replace_all(c, "I think"@, "It appears that"@);
            replace_all(d, "maybe"@, "perhaps"@)
        },
        WritingStyle::Casual => {
            let a = replace_all(content, "It is important to note"@, "Note that"@);
            let b = replace_all(a, "Furthermore"@, "Also"@);
            replace_all(b, "However"@, "But"@)
        },
        WritingStyle::Technical => {
            let a = replace_all(content, "thing"@, "component"@);
            let b = replace_all(a, "stuff"@, "elements"@);
            let c = replace_all(b, "good"@, "effective"@);
            replace_all(c, "bad"@, "inefficient"@)
        },
    }
}

/// The text made clearer: first the wording of the style, then four
/// replacements that hold for every style, each applied to the whole text in
/// turn.
pub open spec fn clarity_text(content: Seq<char>, style: WritingStyle) -> Seq<char> {
    let a = replace_all(styled_text(content, style), "very good"@, "excellent"@);
    let b = replace_all(a, "very bad"@, "poor"@);
    let c = replace_all(b, "a lot of"@, "many"@);
    replace_all(c, "kind of"@, "somewhat"@)
}

/// The text after the ten replacements that mend common slips, each applied
/// to the whole text in turn.
pub open spec fn mended_text(content: Seq<char>) -> Seq<char> {
    let a = replace_all(content, " i "@, " I "@);
    let b = replace_all(a, " i'"@, " I'"@);
    let c = replace_all(b, "it's"@, "its"@);
    let d = replace_all(c, "your welcome"@, "you're welcome"@);
    let e = replace_all(d, "there "@, "their "@);
    let f = replace_all(e, "  "@, " "@);
    let g = replace_all(f, " ."@, "."@);
    let h = replace_all(g, " ,"@, ","@);
    let i = replace_all(h, " !"@, "!"@);
    replace_all(i, " ?"@, "?"@)
}

/// A character that ends a sentence.
pub open spec fn ends_sentence(c: char) -> bool {
    c == '.' || c == '!' || c == '?'
}

/// The text with the first alphabetic character of each sentence in upper
/// case. `pending` says whether a sentence has begun of which no alphabetic
/// character was seen yet.
pub open spec fn capitalized(text: Seq<char>, pending: bool) -> Seq<char>
    decreases text.len(),
{
    if text.len() == 0 {
        text
    } else if pending && is_alphabetic(text[0]) {
        let upper = match uppercase_first(text[0]) {
            Some(u) => u,
            None => text[0],
        };
        seq![upper] + capitalized(text.drop_first(), false)
    } else {
        seq![text[0]] + capitalized(text.drop_first(), pending || ends_sentence(text[0]))
    }
}

/// The text with its grammar mended: the replacements of `mended_text`,
/// then a capital at the start of every sentence.
pub open spec fn grammar_text(content: Seq<char>) -> Seq<char> {
    capitalized(mended_text(content), true)
}

/// Whether a text starts with this character.
pub open spec fn starts_with(text: Seq<char>, c: char) -> bool {
    text.len() > 0 && text[0] == c
}

/// A line that may list things: it holds ` and `, ` or ` or a comma.
pub open spec fn is_listing(line: Seq<char>) -> bool {
    contains_text(line, " and "@) || contains_text(line, " or "@) || contains_text(line, ","@)
}

/// A line that is turned into a list: it may list things, no list has begun
/// before it, it is no list item yet, and commas or semicolons part it.
pub open spec fn becomes_list(line: Seq<char>, in_list: bool) -> bool {
    is_listing(line) && !in_list && !starts_with(line, '-') && !starts_with(line, '*') && split_at(
        line,
        ',',
        ';',
        ';',
    ).len() > 1
}

/// The first line, where it is to become the title: it is not empty and no
/// heading yet.
pub open spec fn is_title_line(lines: Seq<Seq<char>>, i: int) -> bool {
    i == 0 && !starts_with(trimmed(lines[i]), '#') && trimmed(lines[i]).len() > 0
}

/// One list item for each part that is not blank.
pub open spec fn bullets(parts: Seq<Seq<char>>) -> Seq<Seq<char>>
    decreases parts.len(),
{
    if parts.len() == 0 {
        Seq::<Seq<char>>::empty()
    } else if trimmed(parts.last()).len() > 0 {
        bullets(parts.drop_last()).push("- "@ + trimmed(parts.last()))
    } else {
        bullets(parts.drop_last())
    }
}

/// Whether a list has begun once the first `count` lines are dealt with.
pub open spec fn in_list_after(lines: Seq<Seq<char>>, count: nat) -> bool
    decreases count,
{
    if count == 0 {
        false
    } else {
        let i = count - 1;
        let before = in_list_after(lines, i as nat);
        let line = trimmed(lines[i]);
        if is_title_line(lines, i) {
            before
        } else if becomes_list(line, before) {
            true
        } else if is_listing(line) {
            before
        } else {
            false
        }
    }
}

/// What line `i` becomes: the title; a list; a section heading, after an
/// empty line where the line before is not blank, for a line of more than 50
/// bytes that is neither heading nor list item; or itself.
pub open spec fn line_output(lines: Seq<Seq<char>>, i: int, in_list: bool) -> Seq<Seq<char>> {
    let line = trimmed(lines[i]);
    if is_title_line(lines, i) {
        seq!["# "@ + line]
    } else if becomes_list(line, in_list) {
        bullets(split_at(line, ',', ';', ';'))
    } else if utf8_len(line) > 50 && !starts_with(line, '#') && !starts_with(line, '-') {
        if i > 0 && trimmed(lines[i - 1]).len() > 0 {
            seq![Seq::<char>::empty(), "## "@ + line]
        } else {
            seq!["## "@ + line]
        }
    } else {
        seq![lines[i]]
    }
}

/// What the first `count` lines become.
pub open spec fn structured_upto(lines: Seq<Seq<char>>, count: nat) -> Seq<Seq<char>>
    decreases count,
{
    if count == 0 {
        Seq::<Seq<char>>::empty()
    } else {
        structured_upto(lines, (count - 1) as nat) + line_output(
            lines,
            count - 1,
            in_list_after(lines, (count - 1) as nat),
        )
    }
}

/// The text with structure: line by line as `line_output` says, the lines
/// joined by line feeds. A text without lines stays as it is.
pub open spec fn structure_text(content: Seq<char>) -> Seq<char> {
    let lines = lines_of(content);
    if lines.len() == 0 {
        content
    } else {
        joined(structured_upto(lines, lines.len()), "\n"@)
    }
}

/// Whether a line starts with this character.
fn line_starts_with(line: &Vec<char>, c: char) -> (yes: bool)
    ensures
        yes == starts_with(line@, c),
{
    line.len() > 0 && line[0] == c
}

/// Adds one list item for each part that is not blank.
fn push_bullets(out: &mut Vec<Vec<char>>, parts: &Vec<Vec<char>>)
    ensures
        texts_of(final(out)@) == texts_of(old(out)@) + bullets(texts_of(parts@)),
{
    let ghost all = texts_of(parts@);
    let ghost start = texts_of(out@);
    let mut k: usize = 0;
    assert(all.take(0) =~= Seq::<Seq<char>>::empty());
    assert(start + bullets(all.take(0)) =~= start);
    while k < parts.len()
        invariant
            k <= parts.len(),
            all == texts_of(parts@),
            texts_of(out@) == start + bullets(all.take(k as int)),
        decreases parts.len() - k,
    {
        let clean = trim(&parts[k]);
        proof {
            assert(all.take(k + 1).drop_last() =~= all.take(k as int));
            assert(all.take(k + 1).last() == parts[k as int]@);
        }
        if clean.len() > 0 {
            let item = with_prefix("- ", &clean);
            proof {
                assert(texts_of(out@.push(item)) =~= texts_of(out@).push(item@));
                assert(texts_of(out@).push(item@) =~= start + bullets(all.take(k as int)).push(
                    item@,
                ));
            }
            out.push(item);
        }
        k = k + 1;
    }
    assert(all.take(k as int) =~= all);
}

/// The lower-case form of a text.
pub uninterp spec fn lowercase_of(text: Seq<char>) -> Seq<char>;

/// `str::to_lowercase` of std: the lower-case form of the text, which
/// depends on the text alone.
#[verifier::external_body]
fn lowercase(text: &str) -> (lower: String)
    ensures
        lower@ == lowercase_of(text@),
{
    text.to_lowercase()
}

/// A part of a text that counts as a sentence: it is not empty and takes
/// more than 10 bytes.
pub open spec fn is_sentence(part: Seq<char>) -> bool {
    part.len() > 0 && utf8_len(part) > 10
}

/// Those of the parts that, without the white space at their ends, count
/// as sentences.
pub open spec fn sentences_in(parts: Seq<Seq<char>>) -> Seq<Seq<char>>
    decreases parts.len(),
{
    if parts.len() == 0 {
        Seq::<Seq<char>>::empty()
    } else if is_sentence(trimmed(parts.last())) {
        sentences_in(parts.drop_last()).push(trimmed(parts.last()))
    } else {
        sentences_in(parts.drop_last())
    }
}

/// A sentence that carries weight: in lower case it holds `important`,
/// `key`, `main` or `summary`.
pub open spec fn is_key(sentence: Seq<char>) -> bool {
    let low = lowercase_of(sentence);
    contains_text(low, "important"@) || contains_text(low, "key"@) || contains_text(low, "main"@)
        || contains_text(low, "summary"@)
}

/// The first sentence from place `from` on that carries weight.
pub open spec fn first_key(sentences: Seq<Seq<char>>, from: nat) -> Option<Seq<char>>
    decreases sentences.len() - from,
{
    if from >= sentences.len() {
        None
    } else if is_key(sentences[from as int]) {
        Some(sentences[from as int])
    } else {
        first_key(sentences, from + 1)
    }
}

/// The summary of a text: its first sentence and, after a full stop and a
/// space, the first later sentence that carries weight; cut to the characters
/// that fit into 200 bytes, with three dots behind them, where it is longer.
/// A text without a sentence has a fixed summary.
pub open spec fn summary_text(content: Seq<char>) -> Seq<char> {
    let sentences = sentences_in(split_at(content, '.', '!', '?'));
    if sentences.len() == 0 {
        "Brief note content."@
    } else {
        let parts = match first_key(sentences, 1) {
            Some(key) => seq![sentences[0], key],
            None => seq![sentences[0]],
        };
        let summary = joined(parts, ". "@);
        if utf8_len(summary) > 200 {
            summary.take(chars_within(summary, 200) as int) + "..."@
        } else {
            summary
        }
    }
}

/// Whether a sentence carries weight, as `is_key` says.
fn carries_weight(sentence: &Vec<char>) -> (yes: bool)
    ensures
        yes == is_key(sentence@),
{
    let text = from_chars(sentence, 0, sentence.len());
    assert(sentence@.subrange(0, sentence@.len() as int) =~= sentence@);
    let low = to_chars(lowercase(text.as_str()).as_str());
    contains(&low, "important") || contains(&low, "key") || contains(&low, "main") || contains(
        &low,
        "summary",
    )
}

/// The tag alone where it applies, else nothing.
#[verifier::opaque]
pub open spec fn tag_if(applies: bool, tag: Seq<char>) -> Seq<Seq<char>> {
    if applies {
        seq![tag]
    } else {
        Seq::<Seq<char>>::empty()
    }
}

/// The tags for the words that a text in lower case holds, in a fixed
/// order.
pub open spec fn keyword_tags(lower: Seq<char>) -> Seq<Seq<char>> {
    Seq::<Seq<char>>::empty() + tag_if(contains_text(lower, "meeting"@), "#meeting"@) + tag_if(
        contains_text(lower, "project"@),
        "#project"@,
    ) + tag_if(contains_text(lower, "task"@), "#task"@) + tag_if(
        contains_text(lower, "goal"@),
        "#goal"@,
    ) + tag_if(contains_text(lower, "idea"@), "#idea"@) + tag_if(
        contains_text(lower, "research"@),
        "#research"@,
    ) + tag_if(contains_text(lower, "planning"@), "#planning"@) + tag_if(
        contains_text(lower, "development"@),
        "#development"@,
    ) + tag_if(contains_text(lower, "design"@), "#design"@) + tag_if(
        contains_text(lower, "testing"@),
        "#testing"@,
    ) + tag_if(contains_text(lower, "bug"@), "#bug"@) + tag_if(
        contains_text(lower, "feature"@),
        "#feature"@,
    ) + tag_if(contains_text(lower, "documentation"@), "#docs"@) + tag_if(
        contains_text(lower, "review"@),
        "#review"@,
    ) + tag_if(contains_text(lower, "personal"@), "#personal"@) + tag_if(
        contains_text(lower, "work"@),
        "#work"@,
    ) + tag_if(contains_text(lower, "urgent"@), "#urgent"@) + tag_if(
        contains_text(lower, "important"@),
        "#important"@,
    )
}

/// How many words a text has: runs of characters that are not white space.
pub open spec fn word_count(text: Seq<char>) -> nat
    decreases text.len(),
{
    if text.len() == 0 {
        0
    } else if !is_space(text.last()) && (text.len() == 1 || is_space(text[text.len() - 2])) {
        word_count(text.drop_last()) + 1
    } else {
        word_count(text.drop_last())
    }
}

/// All the tags that fit a text: those for its words, then those for what
/// it holds, `#code` for a code fence, `#link` for `http`, `#todo` for `TODO`
/// or `FIXME`, then `#long-form` for more than 100 words and `#detailed` for
/// more than 10 lines.
pub open spec fn all_tags(content: Seq<char>) -> Seq<Seq<char>> {
    keyword_tags(lowercase_of(content)) + tag_if(contains_text(content, "```"@), "#code"@) + tag_if(
        contains_text(content, "http"@),
        "#link"@,
    ) + tag_if(contains_text(content, "TODO"@) || contains_text(content, "FIXME"@), "#todo"@)
        + tag_if(word_count(content) > 100, "#long-form"@) + tag_if(
        lines_of(content).len() > 10,
        "#detailed"@,
    )
}

/// The tags without a tag that repeats the one before it.
pub open spec fn deduped(tags: Seq<Seq<char>>) -> Seq<Seq<char>>
    decreases tags.len(),
{
    if tags.len() == 0 {
        tags
    } else {
        let front = deduped(tags.drop_last());
        if front.len() > 0 && front.last() == tags.last() {
            front
        } else {
            front.push(tags.last())
        }
    }
}

/// The tags of a text: the first six of all that fit it.
pub open spec fn tags_text(content: Seq<char>) -> Seq<Seq<char>> {
    let tags = deduped(all_tags(content));
    if tags.len() > 6 {
        tags.take(6)
    } else {
        tags
    }
}

/// The tags that are kept under a key, where there are any.
pub open spec fn cached_tags(cache: Seq<(Seq<char>, Seq<Seq<char>>)>, key: Seq<char>) -> Option<
    Seq<Seq<char>>,
>
    decreases cache.len(),
{
    if cache.len() == 0 {
        None
    } else if cache[0].0 == key {
        Some(cache[0].1)
    } else {
        cached_tags(cache.drop_first(), key)
    }
}

/// Adds the tag where it applies.
fn push_if(tags: &mut Vec<String>, applies: bool, tag: &str)
    ensures
        strings_view(final(tags)@) == strings_view(old(tags)@) + tag_if(applies, tag@),
{
    reveal(tag_if);
    if applies {
        let owned = tag.to_owned();
        proof {
            assert(strings_view(tags@.push(owned)) =~= strings_view(tags@) + seq![tag@]);
        }
        tags.push(owned);
    } else {
        assert(strings_view(tags@) + Seq::<Seq<char>>::empty() =~= strings_view(tags@));
    }
}

/// How many words a text has, as `word_count` says.
fn count_words(text: &Vec<char>) -> (count: usize)
    ensures
        count == word_count(text@),
{
    let mut count: usize = 0;
    let mut k: usize = 0;
    assert(text@.take(0) =~= Seq::<char>::empty());
    while k < text.len()
        invariant
            k <= text.len(),
            count <= k,
            count == word_count(text@.take(k as int)),
        decreases text.len() - k,
    {
        proof {
            let part = text@.take(k + 1);
            assert(part.drop_last() =~= text@.take(k as int));
            assert(part.last() == text@[k as int]);
            if k > 0 {
                assert(part[part.len() - 2] == text@[k - 1]);
            }
        }
        if !crate::file_utils::is_space_char(text[k]) && (k == 0 || crate::file_utils::is_space_char(
            text[k - 1],
        )) {
            count = count + 1;
        }
        k = k + 1;
    }
    assert(text@.take(k as int) =~= text@);
    count
}

/// The tags without a tag that repeats the one before it, no more than
/// `limit` of them.
fn dedup_first(tags: &Vec<String>, limit: usize) -> (out: Vec<String>)
    ensures
        strings_view(out@) == (if deduped(strings_view(tags@)).len() > limit {
            deduped(strings_view(tags@)).take(limit as int)
        } else {
            deduped(strings_view(tags@))
        }),
{
    let ghost all = strings_view(tags@);
    let mut kept: Vec<String> = Vec::new();
    let mut k: usize = 0;
    assert(all.take(0) =~= Seq::<Seq<char>>::empty());
    assert(strings_view(kept@) =~= deduped(all.take(0)));
    while k < tags.len()
        invariant
            k <= tags.len(),
            all == strings_view(tags@),
            strings_view(kept@) == deduped(all.take(k as int)),
        decreases tags.len() - k,
    {
        proof {
            assert(all.take(k + 1).drop_last() =~= all.take(k as int));
            assert(all.take(k + 1).last() == tags[k as int]@);
            if kept.len() > 0 {
                assert(strings_view(kept@).last() == kept[kept.len() - 1]@);
            }
        }
        let repeats = kept.len() > 0 && kept[kept.len() - 1] == tags[k];
        if !repeats {
            let copy = tags[k].clone();
            proof {
                assert(strings_view(kept@.push(copy)) =~= strings_view(kept@).push(copy@));
            }
            kept.push(copy);
        }
        k = k + 1;
    }
    assert(all.take(k as int) =~= all);
    let mut out: Vec<String> = Vec::new();
    let mut j: usize = 0;
    while j < kept.len() && j < limit
        invariant
            j <= kept.len(),
            j <= limit,
            out.len() == j,
            forall|i: int| 0 <= i < j ==> (#[trigger] out[i])@ == kept[i]@,
        decreases kept.len() - j,
    {
        out.push(kept[j].clone());
        j = j + 1;
    }
    proof {
        if kept.len() > limit {
            assert(strings_view(out@) =~= strings_view(kept@).take(limit as int));
        } else {
            assert(strings_view(out@) =~= strings_view(kept@));
        }
    }
    out
}

/// The tags for the words that a text in lower case holds, as
/// `keyword_tags` says.
fn tags_for_words(lower: &Vec<char>) -> (found: Vec<String>)
    ensures
        strings_view(found@) == keyword_tags(lower@),
{
    let mut found: Vec<String> = Vec::new();
    assert(strings_view(found@) =~= Seq::<Seq<char>>::empty());
    push_if(&mut found, contains(lower, "meeting"), "#meeting");
    push_if(&mut found, contains(lower, "project"), "#project");
    push_if(&mut found, contains(lower, "task"), "#task");
    push_if(&mut found, contains(lower, "goal"), "#goal");
    push_if(&mut found, contains(lower, "idea"), "#idea");
    push_if(&mut found, contains(lower, "research"), "#research");
    push_if(&mut found, contains(lower, "planning"), "#planning");
    push_if(&mut found, contains(lower, "development"), "#development");
    push_if(&mut found, contains(lower, "design"), "#design");
    push_if(&mut found, contains(lower, "testing"), "#testing");
    push_if(&mut found, contains(lower, "bug"), "#bug");
    push_if(&mut found, contains(lower, "feature"), "#feature");
    push_if(&mut found, contains(lower, "documentation"), "#docs");
    push_if(&mut found, contains(lower, "review"), "#review");
    push_if(&mut found, contains(lower, "personal"), "#personal");
    push_if(&mut found, contains(lower, "work"), "#work");
    push_if(&mut found, contains(lower, "urgent"), "#urgent");
    push_if(&mut found, contains(lower, "important"), "#important");
    found
}

/// All the tags that fit a text, as `all_tags` says.
fn fitting_tags(content: &str) -> (found: Vec<String>)
    ensures
        strings_view(found@) == all_tags(content@),
{
    let text = to_chars(content);
    let lower = to_chars(lowercase(content).as_str());
    let mut found = tags_for_words(&lower);
    push_if(&mut found, contains(&text, "```"), "#code");
    push_if(&mut found, contains(&text, "http"), "#link");
    let todo = contains(&text, "TODO") || contains(&text, "FIXME");
    push_if(&mut found, todo, "#todo");
    push_if(&mut found, count_words(&text) > 100, "#long-form");
    push_if(&mut found, lines(&text).len() > 10, "#detailed");
    found
}

/// An enhancer that works on this machine alone.
#[derive(Debug)]
pub struct LocalAI {
    is_available: bool,
    /// Tags that were made before, under the digest of their text.
    tag_cache: Vec<(String, Vec<String>)>,
}

spec fn cache_view(cache: Seq<(String, Vec<String>)>) -> Seq<(Seq<char>, Seq<Seq<char>>)> {
    Seq::new(cache.len(), |k: int| (cache[k].0@, strings_view(cache[k].1@)))
}

impl LocalAI {
    /// Whether the enhancer can be used.
    pub closed spec fn available(&self) -> bool {
        self.is_available
    }

    /// The tags that were made before, each under the digest of its text in
    /// hexadecimal, oldest first.
    pub closed spec fn cache(&self) -> Seq<(Seq<char>, Seq<Seq<char>>)> {
        cache_view(self.tag_cache@)
    }

    /// Memory that is taken to be free, in bytes.
    pub fn get_available_memory() -> (bytes: u64)
        ensures
            bytes == 4_000_000_000u64,
    {
        4_000_000_000
    }

    /// An enhancer, which can be used where more memory is free than the
    /// model needs.
    pub fn new() -> (ai: Self)
        ensures
            ai.available(),
            ai.cache() == Seq::<(Seq<char>, Seq<Seq<char>>)>::empty(),
    {
        let ai = LocalAI {
            is_available: Self::get_available_memory() > REQUIRED_MEMORY,
            tag_cache: Vec::new(),
        };
        assert(ai.cache() =~= Seq::<(Seq<char>, Seq<Seq<char>>)>::empty());
        ai
    }

    /// Whether the enhancer can be used.
    pub fn is_available(&self) -> (yes: bool)
        ensures
            yes == self.available(),
    {
        self.is_available
    }

    /// The name under which the enhancer is offered.
    pub fn get_name(&self) -> (name: &'static str)
        ensures
            name@ == "Local AI (Private)"@,
    {
        "Local AI (Private)"
    }

    /// Makes a text clearer, as `clarity_text` says.
    pub fn improve_clarity(&self, content: &str, style: &WritingStyle) -> (improved: String)
        ensures
            improved@ == clarity_text(content@, *style),
    {
        let mut text = to_chars(content);
        match style {
            WritingStyle::Formal => {
                text = replace(&text, "don't", "do not");
                text = replace(&text, "can't", "cannot");
                text = replace(&text, "won't", "will not");
                text = replace(&text, "I think", "It appears that");
                text = replace(&text, "maybe", "perhaps");
            },
            WritingStyle::Casual => {
                text = replace(&text, "It is important to note", "Note that");
                text = replace(&text, "Furthermore", "Also");
                text = replace(&text, "However", "But");
            },
            WritingStyle::Technical => {
                text = replace(&text, "thing", "component");
                text = replace(&text, "stuff", "elements");
                text = replace(&text, "good", "effective");
                text = replace(&text, "bad", "inefficient");
            },
        }
        text = replace(&text, "very good", "excellent");
        text = replace(&text, "very bad", "poor");
        text = replace(&text, "a lot of", "many");
        text = replace(&text, "kind of", "somewhat");
        let improved = from_chars(&text, 0, text.len());
        assert(text@.subrange(0, text@.len() as int) =~= text@);
        improved
    }

    /// Mends the grammar of a text, as `grammar_text` says.
    pub fn fix_grammar(&self, content: &str) -> (fixed: String)
        ensures
            fixed@ == grammar_text(content@),
    {
        let mut text = to_chars(content);
        text = replace(&text, " i ", " I ");
        text = replace(&text, " i'", " I'");
        text = replace(&text, "it's", "its");
        text = replace(&text, "your welcome", "you're welcome");
        text = replace(&text, "there ", "their ");
        text = replace(&text, "  ", " ");
        text = replace(&text, " .", ".");
        text = replace(&text, " ,", ",");
        text = replace(&text, " !", "!");
        text = replace(&text, " ?", "?");
        let mut fixed = String::new();
        let mut capitalize_next = true;
        let mut k: usize = 0;
        assert(text@.skip(0) =~= text@);
        assert(fixed@ + capitalized(text@, true) =~= capitalized(text@, true));
        while k < text.len()
            invariant
                k <= text.len(),
                fixed@ + capitalized(text@.skip(k as int), capitalize_next) == capitalized(
                    text@,
                    true,
                ),
            decreases text.len() - k,
        {
            let ch = text[k];
            let ghost rest = text@.skip(k as int);
            let ghost before = fixed@;
            proof {
                assert(rest[0] == ch);
                assert(rest.drop_first() =~= text@.skip(k + 1));
            }
            if capitalize_next && alphabetic(ch) {
                let upper = match first_uppercase(ch) {
                    Some(u) => u,
                    None => ch,
                };
                fixed.push(upper);
                capitalize_next = false;
                proof {
                    let after = capitalized(text@.skip(k + 1), false);
                    assert(before.push(upper) + after =~= before + (seq![upper] + after));
                }
            } else {
                fixed.push(ch);
                if ch == '.' || ch == '!' || ch == '?' {
                    capitalize_next = true;
                }
                proof {
                    let after = capitalized(text@.skip(k + 1), capitalize_next);
                    assert(before.push(ch) + after =~= before + (seq![ch] + after));
                }
            }
            k = k + 1;
        }
        assert(text@.skip(k as int) =~= Seq::<char>::empty());
        assert(fixed@ + Seq::<char>::empty() =~= fixed@);
        fixed
    }
    /// Gives a text structure, as `structure_text` says: a title, lists and
    /// section headings.
    pub fn improve_structure(&self, content: &str) -> (structured: String)
        ensures
            structured@ == structure_text(content@),
    {
        let text = to_chars(content);
        let all_lines = lines(&text);
        if all_lines.len() == 0 {
            let same = from_chars(&text, 0, text.len());
            assert(text@.subrange(0, text@.len() as int) =~= text@);
            return same;
        }
        let ghost ls = texts_of(all_lines@);
        let mut out: Vec<Vec<char>> = Vec::new();
        let mut in_list = false;
        let mut i: usize = 0;
        assert(texts_of(out@) =~= structured_upto(ls, 0));
        while i < all_lines.len()
            invariant
                i <= all_lines.len(),
                ls == texts_of(all_lines@),
                texts_of(out@) == structured_upto(ls, i as nat),
                in_list == in_list_after(ls, i as nat),
            decreases all_lines.len() - i,
        {
            let ghost before = texts_of(out@);
            let line = trim(&all_lines[i]);
            proof {
                assert(ls[i as int] == all_lines[i as int]@);
                if i > 0 {
                    assert(ls[i - 1] == all_lines[i - 1]@);
                }
            }
            let hash = line_starts_with(&line, '#');
            let dash = line_starts_with(&line, '-');
            let star = line_starts_with(&line, '*');
            let mut done = false;
            if i == 0 && !hash && line.len() > 0 {
                let title = with_prefix("# ", &line);
                proof {
                    assert(texts_of(out@.push(title)) =~= before + seq![title@]);
                }
                out.push(title);
                done = true;
            } else if contains(&line, " and ") || contains(&line, " or ") || contains(&line, ",") {
                if !in_list && !dash && !star {
                    let items = split(&line, ',', ';', ';');
                    if items.len() > 1 {
                        push_bullets(&mut out, &items);
                        in_list = true;
                        done = true;
                    }
                }
            } else {
                in_list = false;
            }
            if !done {
                if exceeds_bytes(&line, 50) && !hash && !dash {
                    if i > 0 {
                        let previous = trim(&all_lines[i - 1]);
                        if previous.len() > 0 {
                            let blank: Vec<char> = Vec::new();
                            proof {
                                assert(texts_of(out@.push(blank)) =~= texts_of(out@).push(blank@));
                            }
                            out.push(blank);
                        }
                    }
                    let heading = with_prefix("## ", &line);
                    proof {
                        assert(texts_of(out@.push(heading)) =~= texts_of(out@).push(heading@));
                        assert(texts_of(out@).push(heading@) =~= before + line_output(
                            ls,
                            i as int,
                            in_list_after(ls, i as nat),
                        ));
                    }
                    out.push(heading);
                } else {
                    let same = slice(&all_lines[i], 0, all_lines[i].len());
                    proof {
                        assert(same@ =~= ls[i as int]);
                        assert(texts_of(out@.push(same)) =~= before + seq![ls[i as int]]);
                    }
                    out.push(same);
                }
            }
            i = i + 1;
        }
        join(&out, "\n")
    }
    /// Sums a text up, as `summary_text` says.
    pub fn create_summary(&self, content: &str) -> (summary: String)
        ensures
            summary@ == summary_text(content@),
    {
        let text = to_chars(content);
        let parts = split(&text, '.', '!', '?');
        let ghost all = texts_of(parts@);
        let mut sentences: Vec<Vec<char>> = Vec::new();
        let mut k: usize = 0;
        assert(all.take(0) =~= Seq::<Seq<char>>::empty());
        assert(texts_of(sentences@) =~= sentences_in(all.take(0)));
        while k < parts.len()
            invariant
                k <= parts.len(),
                all == texts_of(parts@),
                texts_of(sentences@) == sentences_in(all.take(k as int)),
            decreases parts.len() - k,
        {
            let part = trim(&parts[k]);
            proof {
                assert(all.take(k + 1).drop_last() =~= all.take(k as int));
                assert(all.take(k + 1).last() == parts[k as int]@);
            }
            if part.len() > 0 && exceeds_bytes(&part, 10) {
                proof {
                    assert(texts_of(sentences@.push(part)) =~= texts_of(sentences@).push(part@));
                }
                sentences.push(part);
            }
            k = k + 1;
        }
        assert(all.take(k as int) =~= all);
        if sentences.len() == 0 {
            return "Brief note content.".to_owned();
        }
        let ghost found = texts_of(sentences@);
        let mut chosen: Vec<Vec<char>> = Vec::new();
        chosen.push(slice(&sentences[0], 0, sentences[0].len()));
        proof {
            assert(found[0] == sentences[0]@);
            assert(sentences[0]@.subrange(0, sentences[0]@.len() as int) =~= sentences[0]@);
            assert(texts_of(chosen@) =~= seq![found[0]]);
        }
        let mut j: usize = 1;
        let mut done = false;
        while j < sentences.len() && !done
            invariant
                1 <= j <= sentences.len(),
                found == texts_of(sentences@),
                !done ==> first_key(found, 1) == first_key(found, j as nat) && texts_of(chosen@)
                    == seq![found[0]],
                done ==> first_key(found, 1) is Some && texts_of(chosen@) == seq![
                    found[0],
                    first_key(found, 1)->0,
                ],
            decreases (sentences.len() - j) + (if done { 0int } else { 1int }),
        {
            proof {
                assert(found[j as int] == sentences[j as int]@);
            }
            if carries_weight(&sentences[j]) {
                let key = slice(&sentences[j], 0, sentences[j].len());
                proof {
                    assert(sentences[j as int]@.subrange(0, sentences[j as int]@.len() as int)
                        =~= sentences[j as int]@);
                    assert(key@ == found[j as int]);
                    assert(texts_of(chosen@.push(key)) =~= texts_of(chosen@).push(key@));
                    assert(seq![found[0]].push(found[j as int]) =~= seq![found[0], found[j as int]]);
                }
                chosen.push(key);
                done = true;
            } else {
                j = j + 1;
            }
        }
        let joined_text = join(&chosen, ". ");
        let whole = to_chars(joined_text.as_str());
        if exceeds_bytes(&whole, 200) {
            let count = fitting_chars(&whole, 200);
            let mut summary = from_chars(&whole, 0, count);
            summary.append("...");
            proof {
                assert(whole@.subrange(0, count as int) =~= whole@.take(count as int));
            }
            summary
        } else {
            joined_text
        }
    }
    /// The tags of a text, as `tags_text` says. Tags once made are kept
    /// under the digest of their text and handed out again for a text with
    /// that digest.
    pub fn generate_tags(&mut self, content: &str) -> (tags: Vec<String>)
        ensures
            final(self).available() == old(self).available(),
            match cached_tags(old(self).cache(), hex_text(md5_of(content@))) {
                Some(kept) => strings_view(tags@) == kept && final(self).cache() == old(
                    self,
                ).cache(),
                None => strings_view(tags@) == tags_text(content@) && final(self).cache() == old(
                    self,
                ).cache().push((hex_text(md5_of(content@)), tags_text(content@))),
            },
    {
        let key = md5_hex(content);
        let ghost all = self.cache();
        let mut k: usize = 0;
        assert(all.skip(0) =~= all);
        while k < self.tag_cache.len()
            invariant
                k <= self.tag_cache.len(),
                *self == *old(self),
                all == self.cache(),
                key@ == hex_text(md5_of(content@)),
                cached_tags(all, key@) == cached_tags(all.skip(k as int), key@),
            decreases self.tag_cache.len() - k,
        {
            proof {
                assert(all.skip(k as int)[0] == (
                    self.tag_cache[k as int].0@,
                    strings_view(self.tag_cache[k as int].1@),
                ));
                assert(all.skip(k as int).drop_first() =~= all.skip(k + 1));
            }
            if self.tag_cache[k].0 == key {
                return clone_strings(&self.tag_cache[k].1);
            }
            k = k + 1;
        }
        assert(all.skip(k as int) =~= Seq::<(Seq<char>, Seq<Seq<char>>)>::empty());

        let found = fitting_tags(content);
        let tags = dedup_first(&found, 6);
        let kept = clone_strings(&tags);
        proof {
            assert(cache_view(self.tag_cache@.push((key, kept))) =~= all.push(
                (key@, strings_view(kept@)),
            ));
        }
        self.tag_cache.push((key, kept));
        tags
    }
}

} // verus!
