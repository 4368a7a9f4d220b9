pub mod scaffold;
