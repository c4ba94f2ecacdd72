pub mod chrome;
pub mod classic;
pub mod classic_screen;
pub mod clock;
pub mod command;
pub mod filter;
pub mod filter_state;
pub mod highlight;
pub mod input;
pub mod json;
pub mod keys;
pub mod laws;
pub mod number;
pub mod pattern;
pub mod render;
pub mod screen;
pub mod style;
pub mod text;
pub mod viewer;
