//! A parser for a small subset of Markdown: headings, ordered and unordered
//! lists, fenced code blocks and paragraphs, each made of inline spans (bold,
//! italic, inline code, images, links and plain text), and a renderer of the
//! parsed document as HTML.

pub mod model;
pub mod text;
pub mod grammar;
pub mod inline;
pub mod block;
pub mod document;
pub mod laws;
pub mod render;

pub use document::parse;
pub use model::{BlockNode, Document, FailureKind, InlineNode, ParseFailure};
pub use render::to_html;
