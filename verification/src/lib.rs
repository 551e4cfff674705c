//! Charon, a maps application: tiles, search, routing and offline regions.

pub mod build;
pub mod config;
pub mod dbus;
pub mod downloader;
pub mod geocoder;
pub mod geometry;
pub mod keyboard;
pub mod region;
pub mod router;
pub mod text;
pub mod tiles;
pub mod ui;
