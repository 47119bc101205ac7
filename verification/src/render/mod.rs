pub mod colors;
pub mod grid;
pub mod menu;
pub mod window;
pub mod config;
pub mod spans;
