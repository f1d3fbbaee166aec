//! Parts of a note that its markup sets apart.

use vstd::prelude::*;

verus! {

/// A heading.
#[derive(Debug, Clone)]
pub struct Header {
    pub level: u8,
    pub text: String,
    pub id: Option<String>,
}

/// A link to an address.
#[derive(Debug, Clone)]
pub struct Link {
    pub text: String,
    pub url: String,
    pub title: Option<String>,
}

/// A link to another note, with the place where it stands.
#[derive(Debug, Clone)]
pub struct WikiLink {
    pub target: String,
    pub display_text: Option<String>,
    pub start: usize,
    pub end: usize,
}

} // verus!
