//! What a request for the enhancement of a note says.

use vstd::prelude::*;

verus! {

/// A kind of enhancement.
#[derive(Debug, Clone, Copy, PartialEq, Eq, Structural)]
pub enum EnhancementType {
    Clarity,
    Structure,
    Tags,
    Summarization,
    Grammar,
}

/// The style to write in.
#[derive(Debug, Clone, Copy, PartialEq, Eq, Structural)]
pub enum WritingStyle {
    Formal,
    Casual,
    Technical,
}

/// How readily the text is changed.
#[derive(Debug, Clone, Copy, PartialEq, Eq, Structural)]
pub enum Sensitivity {
    Low,
    Medium,
    High,
}

/// Where the enhancement is computed.
#[derive(Debug, Clone, Copy, PartialEq, Eq, Structural)]
pub enum AIProviderType {
    Local,
    Cloud,
}

/// A request to enhance the text of a note.
#[derive(Debug, Clone)]
pub struct EnhancementRequest {
    pub content: String,
    pub enhancement_types: Vec<EnhancementType>,
    pub style: WritingStyle,
    pub sensitivity: Sensitivity,
}

impl EnhancementRequest {
    /// Whether the request asks for this kind of enhancement.
    pub fn wants(&self, kind: EnhancementType) -> (wanted: bool)
        ensures
            wanted == self.enhancement_types@.contains(kind),
    {
        let mut i: usize = 0;
        while i < self.enhancement_types.len()
            invariant
                i <= self.enhancement_types.len(),
                forall|j: int| 0 <= j < i ==> self.enhancement_types@[j] != kind,
            decreases self.enhancement_types.len() - i,
        {
            if self.enhancement_types[i] == kind {
                return true;
            }
            i = i + 1;
        }
        false
    }
}

} // verus!
