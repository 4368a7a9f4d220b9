pub mod construct;
pub mod environment;
