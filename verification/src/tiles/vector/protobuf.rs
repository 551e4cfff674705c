//! Mapbox vector tile data.

use vstd::prelude::*;

verus! {

/// Vector tile data.
#[derive(Debug)]
pub struct Tile {
    pub layers: Vec<Layer>,
}

/// Tile layer.
#[derive(Debug)]
pub struct Layer {
    /// Vector tile version used by this layer.
    pub version: u32,
    /// Unique layer identifier.
    pub name: String,
    /// The features in this tile.
    pub features: Vec<Feature>,
    /// Tag keys used by the layer's features.
    pub keys: Vec<String>,
    /// Tag values used by the layer's features.
    pub values: Vec<Value>,
    /// Inclusive width and height of the layer's coordinate system.
    pub extent: u32,
}

/// Layer features.
#[derive(Debug)]
pub struct Feature {
    /// Unique feature identifier.
    pub id: Option<u64>,
    /// Feature tags are consecutive pairs of keys and values indexing into
    /// [`Layer::keys`] and [`Layer::values`].
    pub tags: Vec<u32>,
    /// The type of geometry stored in this feature.
    pub geometry_type: Option<i32>,
    /// Contains a stream of commands and parameters.
    pub geometry: Vec<u32>,
}

impl Feature {
    /// Type of this feature's geometry.
    pub open spec fn spec_geom_type(&self) -> GeomType {
        match self.geometry_type {
            Some(1) => GeomType::Point,
            Some(2) => GeomType::Linestring,
            Some(3) => GeomType::Polygon,
            _ => GeomType::Unknown,
        }
    }

    /// Get the type of this feature's geometry.
    ///
    /// Missing and unassigned types are unknown.
    pub fn geom_type(&self) -> (geometry_type: GeomType)
        ensures
            geometry_type == self.spec_geom_type(),
    {
        match self.geometry_type {
            Some(1) => GeomType::Point,
            Some(2) => GeomType::Linestring,
            Some(3) => GeomType::Polygon,
            _ => GeomType::Unknown,
        }
    }
}

/// Types of geometry for a feature.
#[derive(Copy, Clone, Debug, PartialEq, Eq, PartialOrd, Ord, Hash, Structural)]
pub enum GeomType {
    Unknown,
    Point,
    Linestring,
    Polygon,
}

/// Feature tag's value.
///
/// Exactly one of these values must be present in a valid message. Values with
/// a fractional part are not used by any tag.
#[derive(Debug)]
pub struct Value {
    pub string_value: Option<String>,
    pub int_value: Option<i64>,
    pub uint_value: Option<u64>,
    pub sint_value: Option<i64>,
    pub bool_value: Option<bool>,
}

} // verus!
