//! Conversion between the rich-text editor's HTML dialect and plain text.

pub mod chars;
pub mod markup;
pub mod lists;
pub mod whitespace;
pub mod paragraphs;
pub mod convert;
pub mod files;

pub use convert::{html_to_text, strip_markup};
pub use paragraphs::text_to_html;
