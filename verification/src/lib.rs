//! Markup front end, design tokens and deterministic PNG encoding for native UIs.

pub mod text;
pub mod color;
pub mod tokens;
pub mod error;
pub mod span;
pub mod expr;
pub mod expr_parse;
pub mod ast;
pub mod markup;
pub mod doc_parse;
pub mod checker;
pub mod surface;
pub mod png;
pub mod widget;
pub mod font;
pub mod font_data;
pub mod numfmt;
pub mod scaffold;
pub mod manifest;
pub mod request;
pub mod watch;
pub mod strfn;
