//! A compiler from the parse tree of a markup document to HTML.
//!
//! A document is a tree of elements with classes, attributes and text, and
//! of references to templates. Compiling it takes three steps, each a
//! function of plain values with a proved contract:
//!
//! - [`parser::DocumentParser::get_declarations`] reads the declarations at
//!   the head of the document;
//! - the lexer ([`parser::DocumentParser::lex_html_document`]) turns the
//!   tree into tokens, expanding templates, counting pages and collecting
//!   the table of contents;
//! - the generator ([`parser::DocumentParser::generate_html_body`]) writes
//!   the tokens as text, and
//!   [`parser::DocumentParser::generate_html`] puts the text into the
//!   document wrapper.
//!
//! The library reads no file and asks no other program. What a compilation
//! needs from the machine it is handed as values: the parse tree, the fonts
//! that were found, the templates that were found, and the function that
//! writes the utility style rules of a body.

pub mod contents;
pub mod declarations;
pub mod document;
pub mod error;
pub mod generator;
pub mod laws;
pub mod lexer;
pub mod parser;
pub mod shape;
pub mod state;
pub mod substitute;
pub mod template;
pub mod text;
pub mod token;
pub mod tree;
