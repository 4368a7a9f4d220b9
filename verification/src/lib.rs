//! CircuitForge core library: the construct evaluation fold, the board world
//! model with its replay and access rules, and the scenario scaffolding tables.
pub mod third_party;
pub mod schemas;
pub mod engine;
pub mod text;
pub mod storage;
pub mod ipc;
pub mod generator;
pub mod sandbox;
