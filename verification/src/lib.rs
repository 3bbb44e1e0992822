//! Rocket is a documentation build engine: it compiles a lightweight,
//! indentation-sensitive markup language into linked, templated HTML.
//!
//! The library is organised after the stages of a build:
//!
//! * [`lex`] turns raw page text into a token stream;
//! * [`parse`] turns tokens into a homogeneous tree of literal text and
//!   directive invocations;
//! * [`evaluator`] walks that tree, dispatching named directives from a
//!   registry ([`directives`]) while tracking lexical bindings, section
//!   nesting, and deferred cross-page references;
//! * [`toctree`] holds the table-of-contents hierarchy and renders it;
//! * [`project`] binds the stages together: building a page, then linking
//!   it by resolving reference placeholders.
//!
//! File and network I/O, configuration parsing, and template rendering are
//! left to the embedding application; the library works on plain values.

pub mod directives;
pub mod evaluator;
pub mod highlighter;
pub mod inject_paragraphs;
pub mod lex;
pub mod outside;
pub mod page;
pub mod parse;
pub mod project;
pub mod strutil;
pub mod toctree;
