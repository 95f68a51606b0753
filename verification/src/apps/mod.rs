pub mod digits;
pub mod fibonacci;
pub mod pong;
