pub mod commands;
pub mod display;
pub mod paths;
pub mod progress;
pub mod text;
pub mod tui;
