//! Core of a menu launcher: fuzzy filtering of candidates, the selection
//! state machine and the layout of the visible list window.

pub mod bins;
pub mod color;
pub mod desktop;
pub mod exec;
pub mod filtered_lines;
pub mod icon;
pub mod input;
pub mod input_parser;
pub mod list_view;
pub mod locale;
pub mod mode;
pub mod state;
pub mod text;
pub mod usage_cache;

