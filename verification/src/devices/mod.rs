pub mod cga;
pub mod pit;
