//! Core types: topics, tags, relationship types, note identifiers, links and notes.

pub mod tag;
pub mod link;
pub mod topic;
pub mod kind;
pub mod note_id;
pub mod timestamp;
pub mod note;
pub mod validation;
pub mod validate;
pub mod metadata;
