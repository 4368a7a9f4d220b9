pub mod constructs;
pub mod board;
pub mod world;
