//! A static documentation site generator for C++ code bases: declarations are
//! resolved to names and URLs, navigation is assembled, and markdown is
//! rewritten for the site.

pub mod ast;
pub mod builder;
pub mod config;
pub mod html;
pub mod lookahead;
pub mod text;
pub mod url;
