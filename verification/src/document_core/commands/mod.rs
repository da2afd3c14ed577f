//! Commands on a whole document.

pub mod document;
pub mod click_here;
