pub mod backend;
pub mod input;
pub mod pane;
pub mod pty;
pub mod search;
pub mod shell_integration;
pub mod tab;
