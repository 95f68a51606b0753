pub mod frames;
pub mod pages;
pub mod tables;
