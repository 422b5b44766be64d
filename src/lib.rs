//! The core of a small web browser: URL and HTTP response parsing, an HTML tokenizer and tree
//! constructor that build a DOM, a CSS tokenizer and parser, style resolution, layout and
//! paint, and a minimal script front end.

pub mod constants;
pub mod css_token;
pub mod cssom;
pub mod dom;
pub mod error;
pub mod html_parser;
pub mod http;
pub mod html_token;
pub mod js_ast;
pub mod js_runtime;
pub mod js_token;
pub mod layout;
pub mod style;
mod text;
pub mod ui;
pub mod url;
