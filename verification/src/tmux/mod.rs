pub mod events;
pub mod parser;
pub mod session;
