//! Building the site: the events of a markdown document, their rewriting,
//! navigation, and the documentable units.

pub mod builder;
pub mod event;
pub mod function;
pub mod markdown;
pub mod namespace;
pub mod shared;
pub mod traits;
