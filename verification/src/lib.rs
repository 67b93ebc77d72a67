//! Naming rules for plain-text notes: metadata is written into a sortable file
//! name and read back from it.
//!
//! A note's file name is made of up to five segments: the identifier, which
//! says when the note was created, a signature, a title, keywords and the
//! file extension. [`codec`] writes and reads such names, [`sanitize`] makes
//! typed text safe for them, [`keywords`] works out a note's keywords,
//! [`config`] resolves the configuration, and [`planner`] puts these
//! together to say what a new or a renamed note is to be called.

pub mod charset;
pub mod chronology;
pub mod codec;
pub mod config;
pub mod identifier;
pub mod keywords;
pub mod metadata;
pub mod paths;
pub mod planner;
pub mod round_trip;
pub mod sanitize;
pub mod segment;
pub mod text;
