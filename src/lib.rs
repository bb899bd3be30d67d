//! Discovery and launch helpers for a dedicated game server: finding the
//! game's install directory among the platform's libraries, classifying how
//! ready the game is, listing its map assets and preparing the server launch.

pub mod counter_strike;
pub mod steam;
pub mod utils;
