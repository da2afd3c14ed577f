//! Document-wide passes: clearing the guide texts that click-here fields
//! show before they are first filled.

pub mod clear_initial;
