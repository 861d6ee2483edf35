pub mod actor;
pub mod asset;
pub mod game;
pub mod map;
pub mod palette;
mod shared;
pub mod sprite;
pub mod tile;
pub mod ui;
pub mod widgets;
