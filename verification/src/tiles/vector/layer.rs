//! Tile layers and geometry types.

use vstd::prelude::*;

use crate::text::str_eq;
use crate::tiles::vector::protobuf::{Feature, GeomType};

verus! {

/// Vector tile layers
#[derive(Copy, Clone, Debug, PartialEq, Eq, PartialOrd, Ord, Structural)]
pub enum Layer {
    // The order of the elements in this enum is used for rendering, with the
    // first element being the bottommost and the last element being the topmost layer.

    // Background areas.
    Land,
    Ocean,
    WaterPolygons,
    WaterLines,
    PierPolygons,
    PierLines,
    Bridges,
    Buildings,

    // Pathways.
    Ferries,
    StreetPolygons,
    Streets,
    Aerialways,
    PublicTransport,
    Boundaries,

    // Labels.
    StreetLabels,
}

/// Number of known layers.
pub const LAYER_COUNT: u8 = 15;

/// Layer with the specified name.
pub open spec fn layer_named(name: Seq<char>) -> Option<Layer> {
    if name == "land"@ {
        Some(Layer::Land)
    } else if name == "ocean"@ {
        Some(Layer::Ocean)
    } else if name == "water_polygons"@ {
        Some(Layer::WaterPolygons)
    } else if name == "water_lines"@ {
        Some(Layer::WaterLines)
    } else if name == "pier_lines"@ {
        Some(Layer::PierLines)
    } else if name == "pier_polygons"@ {
        Some(Layer::PierPolygons)
    } else if name == "boundaries"@ {
        Some(Layer::Boundaries)
    } else if name == "buildings"@ {
        Some(Layer::Buildings)
    } else if name == "streets"@ {
        Some(Layer::Streets)
    } else if name == "street_polygons"@ {
        Some(Layer::StreetPolygons)
    } else if name == "bridges"@ {
        Some(Layer::Bridges)
    } else if name == "aerialways"@ {
        Some(Layer::Aerialways)
    } else if name == "ferries"@ {
        Some(Layer::Ferries)
    } else if name == "public_transport"@ {
        Some(Layer::PublicTransport)
    } else if name == "street_labels"@ {
        Some(Layer::StreetLabels)
    } else {
        None
    }
}

impl Layer {
    /// Position of a layer in the render order.
    pub open spec fn spec_rank(self) -> u8 {
        match self {
            Layer::Land => 0,
            Layer::Ocean => 1,
            Layer::WaterPolygons => 2,
            Layer::WaterLines => 3,
            Layer::PierPolygons => 4,
            Layer::PierLines => 5,
            Layer::Bridges => 6,
            Layer::Buildings => 7,
            Layer::Ferries => 8,
            Layer::StreetPolygons => 9,
            Layer::Streets => 10,
            Layer::Aerialways => 11,
            Layer::PublicTransport => 12,
            Layer::Boundaries => 13,
            Layer::StreetLabels => 14,
        }
    }

    /// Get the position of this layer in the render order.
    pub fn rank(self) -> (rank: u8)
        ensures
            rank == self.spec_rank(),
            rank < LAYER_COUNT,
    {
        match self {
            Layer::Land => 0,
            Layer::Ocean => 1,
            Layer::WaterPolygons => 2,
            Layer::WaterLines => 3,
            Layer::PierPolygons => 4,
            Layer::PierLines => 5,
            Layer::Bridges => 6,
            Layer::Buildings => 7,
            Layer::Ferries => 8,
            Layer::StreetPolygons => 9,
            Layer::Streets => 10,
            Layer::Aerialways => 11,
            Layer::PublicTransport => 12,
            Layer::Boundaries => 13,
            Layer::StreetLabels => 14,
        }
    }

    /// Get a layer from its name.
    pub fn from_str(name: &str) -> (layer: Result<Layer, ()>)
        ensures
            match layer {
                Ok(layer) => layer_named(name@) == Some(layer),
                Err(_) => layer_named(name@) is None,
            },
    {
        if str_eq(name, "land") {
            Ok(Layer::Land)
        } else if str_eq(name, "ocean") {
            Ok(Layer::Ocean)
        } else if str_eq(name, "water_polygons") {
            Ok(Layer::WaterPolygons)
        } else if str_eq(name, "water_lines") {
            Ok(Layer::WaterLines)
        } else if str_eq(name, "pier_lines") {
            Ok(Layer::PierLines)
        } else if str_eq(name, "pier_polygons") {
            Ok(Layer::PierPolygons)
        } else if str_eq(name, "boundaries") {
            Ok(Layer::Boundaries)
        } else if str_eq(name, "buildings") {
            Ok(Layer::Buildings)
        } else if str_eq(name, "streets") {
            Ok(Layer::Streets)
        } else if str_eq(name, "street_polygons") {
            Ok(Layer::StreetPolygons)
        } else if str_eq(name, "bridges") {
            Ok(Layer::Bridges)
        } else if str_eq(name, "aerialways") {
            Ok(Layer::Aerialways)
        } else if str_eq(name, "ferries") {
            Ok(Layer::Ferries)
        } else if str_eq(name, "public_transport") {
            Ok(Layer::PublicTransport)
        } else if str_eq(name, "street_labels") {
            Ok(Layer::StreetLabels)
        } else {
            Err(())
        }
    }
}

/// Types of renderable geometry.
#[derive(Copy, Clone, Debug, PartialEq, Eq, PartialOrd, Ord, Hash, Structural)]
pub enum GeometryType {
    Point,
    Linestring,
    Polygon,
}

/// Renderable type of a feature's geometry.
pub open spec fn renderable_type(geometry_type: GeomType) -> Option<GeometryType> {
    match geometry_type {
        GeomType::Unknown => None,
        GeomType::Point => Some(GeometryType::Point),
        GeomType::Linestring => Some(GeometryType::Linestring),
        GeomType::Polygon => Some(GeometryType::Polygon),
    }
}

impl GeometryType {
    /// Get the renderable type of a feature's geometry.
    pub fn try_from(geometry_type: GeomType) -> (result: Result<Self, ()>)
        ensures
            match result {
                Ok(geometry) => renderable_type(geometry_type) == Some(geometry),
                Err(_) => renderable_type(geometry_type) is None,
            },
    {
        match geometry_type {
            GeomType::Unknown => Err(()),
            GeomType::Point => Ok(GeometryType::Point),
            GeomType::Linestring => Ok(GeometryType::Linestring),
            GeomType::Polygon => Ok(GeometryType::Polygon),
        }
    }
}

/// Name of a layer.
pub open spec fn layer_name(layer: Layer) -> Seq<char> {
    match layer {
        Layer::Land => "land"@,
        Layer::Ocean => "ocean"@,
        Layer::WaterPolygons => "water_polygons"@,
        Layer::WaterLines => "water_lines"@,
        Layer::PierPolygons => "pier_polygons"@,
        Layer::PierLines => "pier_lines"@,
        Layer::Bridges => "bridges"@,
        Layer::Buildings => "buildings"@,
        Layer::Ferries => "ferries"@,
        Layer::StreetPolygons => "street_polygons"@,
        Layer::Streets => "streets"@,
        Layer::Aerialways => "aerialways"@,
        Layer::PublicTransport => "public_transport"@,
        Layer::Boundaries => "boundaries"@,
        Layer::StreetLabels => "street_labels"@,
    }
}

/// Every layer is found by its name, and by no other name.
pub proof fn law_layers_are_found_by_name(layer: Layer, name: Seq<char>)
    ensures
        layer_named(layer_name(layer)) is Some,
        layer_named(name) == Some(layer) ==> name == layer_name(layer),
{
}

/// Layers from the bottommost to the topmost.
pub open spec fn layers_bottom_to_top() -> Seq<Layer> {
    seq![
        Layer::Land,
        Layer::Ocean,
        Layer::WaterPolygons,
        Layer::WaterLines,
        Layer::PierPolygons,
        Layer::PierLines,
        Layer::Bridges,
        Layer::Buildings,
        Layer::Ferries,
        Layer::StreetPolygons,
        Layer::Streets,
        Layer::Aerialways,
        Layer::PublicTransport,
        Layer::Boundaries,
        Layer::StreetLabels,
    ]
}

/// The position of a layer in the render order is its position in the list of
/// all layers from bottom to top.
pub proof fn law_layer_ranks(layer: Layer)
    ensures
        layers_bottom_to_top()[layer.spec_rank() as int] == layer,
        layers_bottom_to_top().len() == LAYER_COUNT,
{
}

/// Points, lines, and polygons can be rendered, all other geometry types are unknown.
pub proof fn law_geometry_types(feature: Feature)
    ensures
        ({
            let geometry = renderable_type(feature.spec_geom_type());
            match feature.geometry_type {
                Some(1) => geometry == Some(GeometryType::Point),
                Some(2) => geometry == Some(GeometryType::Linestring),
                Some(3) => geometry == Some(GeometryType::Polygon),
                _ => geometry is None,
            }
        }),
{
}

} // verus!
