//! Verified core of a collaborative note editor: text operations, their
//! operational transformation, per-document sessions and presence, the edits
//! on the wire and a bounded inbound queue; with the rule-based enhancer of
//! notes and a few small helpers the editor shell relies on.

pub mod accessibility;
pub mod ai;
pub mod convergence;
pub mod error;
pub mod file_utils;
pub mod inbound;
pub mod json;
pub mod linking;
pub mod local_ai;
pub mod manager;
pub mod markdown;
pub mod operation;
pub mod presence;
pub mod search;
pub mod session;
pub mod sync;
pub mod text;
pub mod transform;
pub mod ui;
pub mod wire;
