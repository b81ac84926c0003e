//! A terminal hypertext engine: it flattens an element-tree document into a
//! linear sequence of styled, link-annotated lines, resolves hyperlink
//! destinations against a base address, and drives selection, scrolling and
//! link-following over that line model.

pub mod dom;
pub mod flatten;
pub mod nav;
pub mod project;
pub mod resolve;
pub mod text;
