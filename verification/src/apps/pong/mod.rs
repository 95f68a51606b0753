pub mod upgrade;
pub mod frame;
pub mod game;
