//! Links as they are found in the text of a note.

use vstd::prelude::*;

verus! {

/// A link in double square brackets, with the place where it stands.
#[derive(Debug, Clone)]
pub struct WikiLink {
    pub text: String,
    pub start: usize,
    pub end: usize,
    pub full_match: String,
}

/// A link in the form of a text in square and an address in round brackets,
/// with the place where it stands.
#[derive(Debug, Clone)]
pub struct MarkdownLink {
    pub text: String,
    pub url: String,
    pub start: usize,
    pub end: usize,
    pub full_match: String,
}

/// A link from one note to another.
#[derive(Debug, Clone)]
pub struct NoteLink {
    pub from_note_id: String,
    pub to_note_id: String,
    pub link_text: String,
    pub position: usize,
}

} // verus!
