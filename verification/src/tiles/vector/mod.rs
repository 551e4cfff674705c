//! Mapbox vector tile rendering.

pub mod command;
pub mod draw;
pub mod kind;
pub mod layer;
pub mod protobuf;
pub mod render;
pub mod theme;
