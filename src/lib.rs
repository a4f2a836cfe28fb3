//! A tile-based world simulator: terrain store, template catalogs, path
//! search, entity scheduling and the length-framed wire protocol.

pub mod geometry;
pub mod map;
pub mod net;
pub mod template;
pub mod actions;
pub mod entity;
pub mod pathfind;
pub mod game;
pub mod server;
pub mod view;
pub mod mapfile;
pub mod client;
pub mod buildings;
