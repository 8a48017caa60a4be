//! Builds one combined SVG sprite document out of a directory tree of
//! individual SVG files.
//!
//! The library is organised around three verified pieces: a tree walker that
//! turns a snapshot of the source directory into an ordered list of
//! discovered files ([`walker`]), an identifier builder that joins path
//! segments into an `id` attribute ([`ident`]), and a merger that filters
//! each parsed document and assembles the output element ([`merge`]).
//! The XML tree model shared by those pieces lives in [`xml`].

pub mod ident;
pub mod merge;
pub mod parse;
pub mod walker;
pub mod xml;
