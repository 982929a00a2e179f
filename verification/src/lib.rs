//! Verified tools for the newt language: a lexer, an event-recording parser and the
//! newt grammar over it, and the lexical scopes of its runtime; a reader for grammar
//! description files with error reports; draw lists, layout, typesetting and resource
//! tables for the renderer.
pub mod drawing;
pub mod text;
pub mod cursor;
pub mod cursor_iterator;
pub mod tokens;
pub mod syntax;
pub mod parse;
pub mod gen_syntax;
pub mod grammar;
pub mod attachments;
pub mod layout;
pub mod resource_table;
pub mod scope;
pub mod typesetting;
pub mod glyph_lines;
pub mod swapchain;
pub mod frame;
pub mod text_item;
