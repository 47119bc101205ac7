pub mod config;
pub mod profiles;
pub mod render;
pub mod terminal;
pub mod text;
pub mod tmux;
