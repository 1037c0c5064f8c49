//! The persisted form of the family document, read and written as plain
//! values: the layout every replica agrees on, the exact encodings of
//! numbers and tags, and how that tree reads as domain values and back.
//! The CRDT that merges replicas holds these values; the logic that decides
//! what they mean lives here.

pub mod codec;
pub mod error;
pub mod mapping;
pub mod roots;
pub mod schema;
pub mod storage;
pub mod value;
