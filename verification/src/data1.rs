//! The first game's save data: chunk contents, containers and the save-file
//! envelope.

pub mod config;
pub mod galaxy;
pub mod save;
pub mod game;
pub mod spin_driver_path;
pub mod sysconf;
