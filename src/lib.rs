//! Compilation logic of the `Message`, `Oneof` and `enumeration` derives:
//! tag assignment and validation, the tag-ordered field layout and the merge
//! dispatch that generated codecs follow.

pub mod tags;
pub mod field;
pub mod error;
pub mod input;
pub mod message;
pub mod oneof;
pub mod enumeration;
