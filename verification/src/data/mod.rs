pub mod index;
pub mod module_catalog;
pub mod ship_catalog;
pub mod loadout_catalog;
