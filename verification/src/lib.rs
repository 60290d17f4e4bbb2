//! Link detection, command-palette search and the decision logic of a terminal view.
pub mod chars;
pub mod links;
pub mod order;
pub mod palette;
pub mod quit;
pub mod tab_strip;
pub mod text;
pub mod view;
