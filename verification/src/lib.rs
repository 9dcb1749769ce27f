//! A compiler and abstract-machine runtime for a minimal three-marker
//! language: `w` marks an argument, `W` marks a function reference, and `v`
//! separates groups. Source text is lexed into markers, segmented into
//! groups, built into abstraction and application instructions, and run on a
//! code/environment/dump machine with four byte-oriented built-in values.

pub mod tokens;
pub mod inst;
pub mod copy_helpers;
pub mod machine;
pub mod compiler;
pub mod laws;
