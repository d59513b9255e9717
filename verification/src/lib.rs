//! A line-oriented Markdown-to-HTML converter.
//!
//! The converter consumes a Markdown document as text and produces an HTML
//! fragment, applying block-level structural rules (headings, code fences,
//! lists, tables, blockquotes, horizontal rules, paragraphs) and inline
//! formatting rules (bold, italic, inline code, images, links) to each line,
//! carrying minimal state across lines to open and close block-level tags.

pub mod blocks;
pub mod inline;
pub mod laws;
pub mod shell;
pub mod text;
