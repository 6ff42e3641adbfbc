pub mod module;
pub mod ship;
pub mod loadout;
