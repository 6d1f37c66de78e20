//! Verified core of a small suite of line-oriented text utilities.
//!
//! The centrepiece is a pattern-based line-search engine: a compiled matcher
//! classifies each line of a source, and an output stage renders the selected
//! lines under a set of orthogonal modes (inverted selection, line numbers,
//! per-source counts, names of matching sources, filename prefixes).  Around
//! it stand the pieces the sibling utilities share: planning a recursive
//! directory walk, splitting byte streams for head/tail, numbering lines,
//! and counting lines, words, bytes and characters.
//!
//! All I/O stays with the caller: every function here maps plain values to
//! plain values, and its contract says exactly which ones.

pub mod args;

pub mod counts;

pub mod matcher;

pub mod render;

pub mod search;

pub mod textops;

pub mod walk;

