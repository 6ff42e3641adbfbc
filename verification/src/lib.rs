//! Ship, module and loadout rules of the Nova Engine sandbox: damage
//! resolution on a ship's slot grid, validation of the data catalogs, and
//! instantiation of ships from loadouts.

pub mod domain;
pub mod text;
pub mod data;
pub mod sandbox;
