pub mod commands;
pub mod events;
pub mod signoff;
