//! Vector tile theme.

use vstd::prelude::*;

use crate::config::Color;
use crate::tiles::vector::kind::Kind;
use crate::tiles::vector::layer::Layer;

verus! {

/// Feature tags.
#[derive(Debug)]
pub struct Tags {
    pub name: Option<String>,
    pub tunnel: bool,
    pub kind: Kind,
}

/// Contents of feature tags.
pub struct TagsView {
    pub name: Option<Seq<char>>,
    pub tunnel: bool,
    pub kind: Kind,
}

impl View for Tags {
    type V = TagsView;

    open spec fn view(&self) -> TagsView {
        TagsView {
            name: match self.name {
                Some(name) => Some(name@),
                None => None,
            },
            tunnel: self.tunnel,
            kind: self.kind,
        }
    }
}

impl TagsView {
    /// Tags of a feature without any.
    pub open spec fn empty() -> Self {
        TagsView { name: None, tunnel: false, kind: Kind::Untagged }
    }
}

impl Default for Tags {
    fn default() -> (tags: Self)
        ensures
            tags@ == TagsView::empty(),
    {
        Tags { name: None, tunnel: false, kind: Kind::Untagged }
    }
}

/// Style used for rendering features.
#[derive(Copy, Clone, Debug, PartialEq, Eq)]
pub struct Style {
    pub color: Color,
    pub stroke_width: u32,
    pub dash: Option<(u32, u32)>,
}

/// Style with thin, solid lines.
pub open spec fn solid(color: Color) -> Style {
    Style { color, stroke_width: 1, dash: None }
}

impl Style {
    /// Create a style from a color.
    pub fn from_color(color: Color) -> (style: Self)
        ensures
            style == solid(color),
    {
        Style { color, stroke_width: 1, dash: None }
    }
}

/// Vector tile theme.
#[derive(Copy, Clone, Debug, PartialEq, Eq, Structural)]
pub struct Theme {
    pub land: Color,
    pub water: Color,
    pub border: Color,
    pub street: Color,
    pub street_highway: Color,
    pub street_primary: Color,
    pub street_secondary: Color,
    pub street_footway: Color,
    pub street_plaza: Color,
    pub street_rail: Color,
    pub nature_forest: Color,
    pub nature_grass: Color,
    pub nature_scrub: Color,
    pub nature_park: Color,
    pub building: Color,
    pub text: Color,
}

impl Theme {
    /// Color of a land area.
    pub open spec fn land_color(self, kind: Kind) -> Option<Color> {
        match kind {
            Kind::Scrub
            | Kind::Heath
            | Kind::Swamp
            | Kind::Bog
            | Kind::StringBog
            | Kind::Farmland
            | Kind::Allotments
            | Kind::GreenhouseHorticulture => Some(self.nature_scrub),
            Kind::Grassland
            | Kind::Grass
            | Kind::Garden
            | Kind::VillageGreen
            | Kind::Meadow
            | Kind::WetMeadow
            | Kind::Marsh
            | Kind::GolfCourse => Some(self.nature_grass),
            Kind::Park
            | Kind::Playground
            | Kind::RecreationGround
            | Kind::MiniatureGolf
            | Kind::Cemetery
            | Kind::GraveYard => Some(self.nature_park),
            Kind::Wood
            | Kind::Forest
            | Kind::Orchard
            | Kind::Vineyard
            | Kind::PlantNursery => Some(self.nature_forest),
            _ => None,
        }
    }

    /// Style of a street, path or railway.
    pub open spec fn street_style(self, kind: Kind) -> Option<Style> {
        match kind {
            Kind::Motorway | Kind::MotorwayLink => Some(
                Style { color: self.street_highway, stroke_width: 14, dash: None },
            ),
            Kind::Trunk | Kind::TrunkLink => Some(
                Style { color: self.street_highway, stroke_width: 12, dash: None },
            ),
            Kind::Primary | Kind::PrimaryLink => Some(
                Style { color: self.street_primary, stroke_width: 10, dash: None },
            ),
            Kind::Secondary | Kind::SecondaryLink => Some(
                Style { color: self.street_secondary, stroke_width: 8, dash: None },
            ),
            Kind::Tertiary | Kind::TertiaryLink => Some(
                Style { color: self.street, stroke_width: 6, dash: None },
            ),
            Kind::Unclassified
            | Kind::Residential
            | Kind::LivingStreet
            | Kind::Service
            | Kind::Road => Some(Style { color: self.street, stroke_width: 4, dash: None }),
            Kind::Pedestrian => Some(
                Style { color: self.street_plaza, stroke_width: 4, dash: None },
            ),
            Kind::Path
            | Kind::Track
            | Kind::Bridleway
            | Kind::Cycleway
            | Kind::Footway
            | Kind::Sidewalk
            | Kind::Crossing
            | Kind::TrafficIsland
            | Kind::Steps => Some(
                Style { color: self.street_footway, stroke_width: 1, dash: Some((4, 6)) },
            ),
            Kind::Rail => Some(
                Style { color: self.street_rail, stroke_width: 3, dash: Some((6, 6)) },
            ),
            Kind::LightRail | Kind::Funicular | Kind::Ferry => Some(
                Style { color: self.street_rail, stroke_width: 2, dash: Some((6, 6)) },
            ),
            Kind::Tram | Kind::Monorail | Kind::Subway => Some(
                Style { color: self.street_rail, stroke_width: 2, dash: None },
            ),
            _ => None,
        }
    }

    /// Style of a feature.
    pub open spec fn spec_style(self, layer: Layer, tags: TagsView) -> Option<Style> {
        match layer {
            Layer::StreetLabels => if tags.name is Some {
                Some(solid(self.text))
            } else {
                None
            },
            Layer::Land => match self.land_color(tags.kind) {
                Some(color) => Some(solid(color)),
                None => None,
            },
            Layer::PierLines | Layer::PierPolygons => Some(solid(self.land)),
            Layer::Ocean | Layer::WaterPolygons | Layer::WaterLines => Some(solid(self.water)),
            Layer::Boundaries => Some(solid(self.border)),
            Layer::Buildings | Layer::Bridges => Some(solid(self.building)),
            Layer::Streets
            | Layer::StreetPolygons
            | Layer::Aerialways
            | Layer::Ferries
            | Layer::PublicTransport => self.street_style(tags.kind),
        }
    }

    /// Get the render style for a feature.
    pub fn style(&self, layer: Layer, tags: &Tags) -> (style: Option<Style>)
        ensures
            style == self.spec_style(layer, tags@),
    {
        let style = match layer {
            Layer::StreetLabels => {
                if tags.name.is_none() {
                    return None;
                }
                Style::from_color(self.text)
            },
            Layer::Land => match tags.kind {
                Kind::Scrub
                | Kind::Heath
                | Kind::Swamp
                | Kind::Bog
                | Kind::StringBog
                | Kind::Farmland
                | Kind::Allotments
                | Kind::GreenhouseHorticulture => Style::from_color(self.nature_scrub),
                Kind::Grassland
                | Kind::Grass
                | Kind::Garden
                | Kind::VillageGreen
                | Kind::Meadow
                | Kind::WetMeadow
                | Kind::Marsh
                | Kind::GolfCourse => Style::from_color(self.nature_grass),
                Kind::Park
                | Kind::Playground
                | Kind::RecreationGround
                | Kind::MiniatureGolf
                | Kind::Cemetery
                | Kind::GraveYard => Style::from_color(self.nature_park),
                Kind::Wood
                | Kind::Forest
                | Kind::Orchard
                | Kind::Vineyard
                | Kind::PlantNursery => Style::from_color(self.nature_forest),
                _ => return None,
            },
            Layer::PierLines | Layer::PierPolygons => Style::from_color(self.land),
            Layer::Ocean | Layer::WaterPolygons | Layer::WaterLines => Style::from_color(
                self.water,
            ),
            Layer::Boundaries => Style::from_color(self.border),
            Layer::Buildings | Layer::Bridges => Style::from_color(self.building),
            Layer::Streets
            | Layer::StreetPolygons
            | Layer::Aerialways
            | Layer::Ferries
            | Layer::PublicTransport => {
                let mut dash: Option<(u32, u32)> = None;
                let (color, stroke_width): (Color, u32) = match tags.kind {
                    Kind::Motorway | Kind::MotorwayLink => (self.street_highway, 14),
                    Kind::Trunk | Kind::TrunkLink => (self.street_highway, 12),
                    Kind::Primary | Kind::PrimaryLink => (self.street_primary, 10),
                    Kind::Secondary | Kind::SecondaryLink => (self.street_secondary, 8),
                    Kind::Tertiary | Kind::TertiaryLink => (self.street, 6),
                    Kind::Unclassified
                    | Kind::Residential
                    | Kind::LivingStreet
                    | Kind::Service
                    | Kind::Road => (self.street, 4),
                    Kind::Pedestrian => (self.street_plaza, 4),
                    Kind::Path
                    | Kind::Track
                    | Kind::Bridleway
                    | Kind::Cycleway
                    | Kind::Footway
                    | Kind::Sidewalk
                    | Kind::Crossing
                    | Kind::TrafficIsland
                    | Kind::Steps => {
                        dash = Some((4, 6));
                        (self.street_footway, 1)
                    },
                    Kind::Rail => {
                        dash = Some((6, 6));
                        (self.street_rail, 3)
                    },
                    Kind::LightRail | Kind::Funicular | Kind::Ferry => {
                        dash = Some((6, 6));
                        (self.street_rail, 2)
                    },
                    Kind::Tram | Kind::Monorail | Kind::Subway => (self.street_rail, 2),
                    _ => return None,
                };
                Style { color, stroke_width, dash }
            },
        };
        Some(style)
    }
}

/// Land areas are colored by the group of kinds they belong to, which are next to
/// each other in the render order. All other kinds of land are not drawn.
pub proof fn law_land_is_colored_by_group(theme: Theme, tags: TagsView)
    ensures
        ({
            let style = theme.spec_style(Layer::Land, tags);
            let rank = tags.kind.spec_rank();
            let first_scrub = Kind::Scrub.spec_rank();
            let first_grass = Kind::Grassland.spec_rank();
            let first_park = Kind::Park.spec_rank();
            let first_wood = Kind::Wood.spec_rank();
            let first_water = Kind::Water.spec_rank();
            &&& rank < first_scrub || rank >= first_water <==> style is None
            &&& first_scrub <= rank < first_grass ==> style->0.color == theme.nature_scrub
            &&& first_grass <= rank < first_park ==> style->0.color == theme.nature_grass
            &&& first_park <= rank < first_wood ==> style->0.color == theme.nature_park
            &&& first_wood <= rank < first_water ==> style->0.color == theme.nature_forest
        }),
{
}

/// All water has the same color, and so have all piers and all buildings, no
/// matter what their tags are.
pub proof fn law_uniform_layers(theme: Theme, tags: TagsView)
    ensures
        ({
            let water = theme.spec_style(Layer::Ocean, tags);
            &&& water is Some && water->0.color == theme.water
            &&& theme.spec_style(Layer::WaterPolygons, tags) == water
            &&& theme.spec_style(Layer::WaterLines, tags) == water
        }),
        ({
            let pier = theme.spec_style(Layer::PierPolygons, tags);
            &&& pier is Some && pier->0.color == theme.land
            &&& theme.spec_style(Layer::PierLines, tags) == pier
        }),
        ({
            let building = theme.spec_style(Layer::Buildings, tags);
            &&& building is Some && building->0.color == theme.building
            &&& theme.spec_style(Layer::Bridges, tags) == building
        }),
        ({
            let boundary = theme.spec_style(Layer::Boundaries, tags);
            boundary is Some && boundary->0.color == theme.border
        }),
        ({
            let label = theme.spec_style(Layer::StreetLabels, tags);
            &&& label is Some <==> tags.name is Some
            &&& label is Some ==> label->0.color == theme.text
        }),
{
}

/// A layer holds streets, paths, or railways.
pub open spec fn is_street_layer(layer: Layer) -> bool {
    layer == Layer::Streets || layer == Layer::StreetPolygons || layer == Layer::Aerialways
        || layer == Layer::Ferries || layer == Layer::PublicTransport
}

/// Width of a street.
pub open spec fn street_width(theme: Theme, layer: Layer, tags: TagsView) -> u32 {
    theme.spec_style(layer, tags)->0.stroke_width
}

/// Streets have a style in every street layer, which only depends on their kind:
/// car roads are solid, paths are dashed, and bigger roads are never thinner than
/// smaller ones.
pub proof fn law_streets_are_drawn_by_size(theme: Theme, layer: Layer, a: TagsView, b: TagsView)
    requires
        is_street_layer(layer),
    ensures
        ({
            let style = theme.spec_style(layer, a);
            let rank = a.kind.spec_rank();
            let first_car = Kind::Road.spec_rank();
            let first_path = Kind::Path.spec_rank();
            let first_rail = Kind::Ferry.spec_rank();
            let first_other = Kind::Untagged.spec_rank();
            &&& style == theme.spec_style(Layer::Streets, a)
            &&& a.kind == b.kind ==> style == theme.spec_style(layer, b)
            &&& style is Some <==> a.kind == Kind::Pedestrian || first_car <= rank < first_other
            &&& first_car <= rank < first_path ==> style->0.dash is None
            &&& first_path <= rank < first_rail ==> style->0.dash is Some && style->0.color
                == theme.street_footway && style->0.stroke_width == 1
            &&& first_rail <= rank < first_other ==> style->0.color == theme.street_rail
            &&& first_car <= rank <= b.kind.spec_rank() < first_path ==> street_width(
                theme,
                layer,
                a,
            ) <= street_width(theme, layer, b)
        }),
{
}

/// Links have the style of their road, and every class of roads is wider than the
/// one below.
pub proof fn law_road_classes(theme: Theme, tunnel: bool, name: Option<Seq<char>>)
    ensures
        ({
            let style = |kind: Kind|
                theme.spec_style(Layer::Streets, TagsView { name, tunnel, kind })->0;
            &&& style(Kind::MotorwayLink) == style(Kind::Motorway)
            &&& style(Kind::TrunkLink) == style(Kind::Trunk)
            &&& style(Kind::PrimaryLink) == style(Kind::Primary)
            &&& style(Kind::SecondaryLink) == style(Kind::Secondary)
            &&& style(Kind::TertiaryLink) == style(Kind::Tertiary)
            &&& style(Kind::Motorway).stroke_width > style(Kind::Trunk).stroke_width
            &&& style(Kind::Trunk).stroke_width > style(Kind::Primary).stroke_width
            &&& style(Kind::Primary).stroke_width > style(Kind::Secondary).stroke_width
            &&& style(Kind::Secondary).stroke_width > style(Kind::Tertiary).stroke_width
            &&& style(Kind::Tertiary).stroke_width > style(Kind::Residential).stroke_width
            &&& style(Kind::Motorway).color == theme.street_highway
            &&& style(Kind::Trunk).color == theme.street_highway
            &&& style(Kind::Primary).color == theme.street_primary
            &&& style(Kind::Secondary).color == theme.street_secondary
            &&& style(Kind::Tertiary).color == theme.street
            &&& style(Kind::Residential).color == theme.street
            &&& style(Kind::Pedestrian).color == theme.street_plaza
        }),
{
}

} // verus!
