//! The document model: sections of paragraphs, whose controls may hold
//! tables and text boxes with paragraphs of their own.

pub mod bin_data;
pub mod control;
pub mod document;
pub mod paragraph;
pub mod picture;
pub mod shape;
pub mod style;
pub mod table;
