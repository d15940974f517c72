//! What the parts of the page decide, apart from how they are drawn.
pub mod kit_bar;
pub mod side_menu;
