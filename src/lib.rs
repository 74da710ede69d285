//! Persistence and retrieval layer of a terminal launcher: favorite and
//! recent directories, colored tags, launch profiles, and a ranked fuzzy
//! search over directory names.

pub mod laws;
pub mod order;
pub mod paths;
pub mod projects;
pub mod records;
pub mod search;
pub mod store;
pub mod text;
pub mod unique;
