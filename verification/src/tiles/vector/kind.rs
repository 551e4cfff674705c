//! Feature kinds.

use vstd::prelude::*;
use vstd::std_specs::convert::FromSpecImpl;

use crate::text::str_eq;

verus! {

/// Kind feature tag variants.
#[derive(Copy, Clone, Debug, PartialEq, Eq, PartialOrd, Ord, Structural)]
pub enum Kind {
    // The order of these variants defines the order in which features are rendered.

    // "Areas" used for backgrounds.
    Sand,
    Dune,
    Beach,
    Scrub,
    Heath,
    Swamp,
    Bog,
    StringBog,
    Farmland,
    Allotments,
    GreenhouseHorticulture,
    Grassland,
    Grass,
    Garden,
    VillageGreen,
    Meadow,
    WetMeadow,
    Marsh,
    GolfCourse,
    Park,
    Playground,
    RecreationGround,
    MiniatureGolf,
    Cemetery,
    GraveYard,
    Wood,
    Forest,
    Orchard,
    Vineyard,
    PlantNursery,
    Water,
    River,
    Canal,
    Ditch,
    Stream,
    Basin,
    Dock,
    Bridge,
    Pier,
    Breakwater,
    Gryone,
    Pedestrian,

    // Car roads in ascending size.
    Taxiway,
    Runway,
    Road,
    Service,
    LivingStreet,
    // This is both a land and a street tag. If it is ever rendered as a land, we
    // need to special-case this for feature sorting or it will overlay all parks etc.
    Residential,
    Unclassified,
    TertiaryLink,
    Tertiary,
    SecondaryLink,
    Secondary,
    PrimaryLink,
    Primary,
    TrunkLink,
    Trunk,
    MotorwayLink,
    Motorway,

    // Pedestrian roads in descending size.
    Path,
    Track,
    Bridleway,
    Cycleway,
    Footway,
    Sidewalk,
    Crossing,
    TrafficIsland,
    Steps,

    // Rail in ascending size.
    Ferry,
    Subway,
    Tram,
    Funicular,
    LightRail,
    Rail,
    Monorail,

    /// Features without kind.
    Untagged,

    // Unused and/or unknown features.
    Unknown,
}

impl Default for Kind {
    fn default() -> (kind: Self)
        ensures
            kind == Kind::Untagged,
    {
        Kind::Untagged
    }
}

/// Number of feature kinds.
pub const KIND_COUNT: u8 = 77;

impl Kind {
    /// Position of a kind in the render order.
    pub open spec fn spec_rank(self) -> u8 {
        match self {
            Kind::Sand => 0,
            Kind::Dune => 1,
            Kind::Beach => 2,
            Kind::Scrub => 3,
            Kind::Heath => 4,
            Kind::Swamp => 5,
            Kind::Bog => 6,
            Kind::StringBog => 7,
            Kind::Farmland => 8,
            Kind::Allotments => 9,
            Kind::GreenhouseHorticulture => 10,
            Kind::Grassland => 11,
            Kind::Grass => 12,
            Kind::Garden => 13,
            Kind::VillageGreen => 14,
            Kind::Meadow => 15,
            Kind::WetMeadow => 16,
            Kind::Marsh => 17,
            Kind::GolfCourse => 18,
            Kind::Park => 19,
            Kind::Playground => 20,
            Kind::RecreationGround => 21,
            Kind::MiniatureGolf => 22,
            Kind::Cemetery => 23,
            Kind::GraveYard => 24,
            Kind::Wood => 25,
            Kind::Forest => 26,
            Kind::Orchard => 27,
            Kind::Vineyard => 28,
            Kind::PlantNursery => 29,
            Kind::Water => 30,
            Kind::River => 31,
            Kind::Canal => 32,
            Kind::Ditch => 33,
            Kind::Stream => 34,
            Kind::Basin => 35,
            Kind::Dock => 36,
            Kind::Bridge => 37,
            Kind::Pier => 38,
            Kind::Breakwater => 39,
            Kind::Gryone => 40,
            Kind::Pedestrian => 41,
            Kind::Taxiway => 42,
            Kind::Runway => 43,
            Kind::Road => 44,
            Kind::Service => 45,
            Kind::LivingStreet => 46,
            Kind::Residential => 47,
            Kind::Unclassified => 48,
            Kind::TertiaryLink => 49,
            Kind::Tertiary => 50,
            Kind::SecondaryLink => 51,
            Kind::Secondary => 52,
            Kind::PrimaryLink => 53,
            Kind::Primary => 54,
            Kind::TrunkLink => 55,
            Kind::Trunk => 56,
            Kind::MotorwayLink => 57,
            Kind::Motorway => 58,
            Kind::Path => 59,
            Kind::Track => 60,
            Kind::Bridleway => 61,
            Kind::Cycleway => 62,
            Kind::Footway => 63,
            Kind::Sidewalk => 64,
            Kind::Crossing => 65,
            Kind::TrafficIsland => 66,
            Kind::Steps => 67,
            Kind::Ferry => 68,
            Kind::Subway => 69,
            Kind::Tram => 70,
            Kind::Funicular => 71,
            Kind::LightRail => 72,
            Kind::Rail => 73,
            Kind::Monorail => 74,
            Kind::Untagged => 75,
            Kind::Unknown => 76,
        }
    }

    /// Get the position of this kind in the render order.
    pub fn rank(self) -> (rank: u8)
        ensures
            rank == self.spec_rank(),
            rank < KIND_COUNT,
    {
        match self {
            Kind::Sand => 0,
            Kind::Dune => 1,
            Kind::Beach => 2,
            Kind::Scrub => 3,
            Kind::Heath => 4,
            Kind::Swamp => 5,
            Kind::Bog => 6,
            Kind::StringBog => 7,
            Kind::Farmland => 8,
            Kind::Allotments => 9,
            Kind::GreenhouseHorticulture => 10,
            Kind::Grassland => 11,
            Kind::Grass => 12,
            Kind::Garden => 13,
            Kind::VillageGreen => 14,
            Kind::Meadow => 15,
            Kind::WetMeadow => 16,
            Kind::Marsh => 17,
            Kind::GolfCourse => 18,
            Kind::Park => 19,
            Kind::Playground => 20,
            Kind::RecreationGround => 21,
            Kind::MiniatureGolf => 22,
            Kind::Cemetery => 23,
            Kind::GraveYard => 24,
            Kind::Wood => 25,
            Kind::Forest => 26,
            Kind::Orchard => 27,
            Kind::Vineyard => 28,
            Kind::PlantNursery => 29,
            Kind::Water => 30,
            Kind::River => 31,
            Kind::Canal => 32,
            Kind::Ditch => 33,
            Kind::Stream => 34,
            Kind::Basin => 35,
            Kind::Dock => 36,
            Kind::Bridge => 37,
            Kind::Pier => 38,
            Kind::Breakwater => 39,
            Kind::Gryone => 40,
            Kind::Pedestrian => 41,
            Kind::Taxiway => 42,
            Kind::Runway => 43,
            Kind::Road => 44,
            Kind::Service => 45,
            Kind::LivingStreet => 46,
            Kind::Residential => 47,
            Kind::Unclassified => 48,
            Kind::TertiaryLink => 49,
            Kind::Tertiary => 50,
            Kind::SecondaryLink => 51,
            Kind::Secondary => 52,
            Kind::PrimaryLink => 53,
            Kind::Primary => 54,
            Kind::TrunkLink => 55,
            Kind::Trunk => 56,
            Kind::MotorwayLink => 57,
            Kind::Motorway => 58,
            Kind::Path => 59,
            Kind::Track => 60,
            Kind::Bridleway => 61,
            Kind::Cycleway => 62,
            Kind::Footway => 63,
            Kind::Sidewalk => 64,
            Kind::Crossing => 65,
            Kind::TrafficIsland => 66,
            Kind::Steps => 67,
            Kind::Ferry => 68,
            Kind::Subway => 69,
            Kind::Tram => 70,
            Kind::Funicular => 71,
            Kind::LightRail => 72,
            Kind::Rail => 73,
            Kind::Monorail => 74,
            Kind::Untagged => 75,
            Kind::Unknown => 76,
        }
    }
}

/// Different kinds never share their position in the render order.
pub proof fn law_kinds_have_distinct_ranks(a: Kind, b: Kind)
    requires
        a.spec_rank() == b.spec_rank(),
    ensures
        a == b,
{
}

/// Kind with the specified tag value.
pub open spec fn kind_of(s: Seq<char>) -> Kind {
    if s == "allotments"@ {
        Kind::Allotments
    } else if s == "basin"@ {
        Kind::Basin
    } else if s == "beach"@ {
        Kind::Beach
    } else if s == "bog"@ {
        Kind::Bog
    } else if s == "breakwater"@ {
        Kind::Breakwater
    } else if s == "bridge"@ {
        Kind::Bridge
    } else if s == "bridleway"@ {
        Kind::Bridleway
    } else if s == "canal"@ {
        Kind::Canal
    } else if s == "cemetery"@ {
        Kind::Cemetery
    } else if s == "crossing"@ {
        Kind::Crossing
    } else if s == "cycleway"@ {
        Kind::Cycleway
    } else if s == "ditch"@ {
        Kind::Ditch
    } else if s == "dock"@ {
        Kind::Dock
    } else if s == "dune"@ {
        Kind::Dune
    } else if s == "farmland"@ {
        Kind::Farmland
    } else if s == "ferry"@ {
        Kind::Ferry
    } else if s == "footway"@ {
        Kind::Footway
    } else if s == "forest"@ {
        Kind::Forest
    } else if s == "funicular"@ {
        Kind::Funicular
    } else if s == "garden"@ {
        Kind::Garden
    } else if s == "golf_course"@ {
        Kind::GolfCourse
    } else if s == "grassland"@ {
        Kind::Grassland
    } else if s == "grass"@ {
        Kind::Grass
    } else if s == "grave_yard"@ {
        Kind::GraveYard
    } else if s == "greenhouse_horticulture"@ {
        Kind::GreenhouseHorticulture
    } else if s == "gryone"@ {
        Kind::Gryone
    } else if s == "heath"@ {
        Kind::Heath
    } else if s == "light_rail"@ {
        Kind::LightRail
    } else if s == "living_street"@ {
        Kind::LivingStreet
    } else if s == "marsh"@ {
        Kind::Marsh
    } else if s == "meadow"@ {
        Kind::Meadow
    } else if s == "miniature_golf"@ {
        Kind::MiniatureGolf
    } else if s == "monorail"@ {
        Kind::Monorail
    } else if s == "motorway_link"@ {
        Kind::MotorwayLink
    } else if s == "motorway"@ {
        Kind::Motorway
    } else if s == "orchard"@ {
        Kind::Orchard
    } else if s == "park"@ {
        Kind::Park
    } else if s == "path"@ {
        Kind::Path
    } else if s == "pedestrian"@ {
        Kind::Pedestrian
    } else if s == "pier"@ {
        Kind::Pier
    } else if s == "plant_nursery"@ {
        Kind::PlantNursery
    } else if s == "playground"@ {
        Kind::Playground
    } else if s == "primary_link"@ {
        Kind::PrimaryLink
    } else if s == "primary"@ {
        Kind::Primary
    } else if s == "rail"@ {
        Kind::Rail
    } else if s == "recreation_ground"@ {
        Kind::RecreationGround
    } else if s == "residential"@ {
        Kind::Residential
    } else if s == "river"@ {
        Kind::River
    } else if s == "road"@ {
        Kind::Road
    } else if s == "runway"@ {
        Kind::Runway
    } else if s == "sand"@ {
        Kind::Sand
    } else if s == "scrub"@ {
        Kind::Scrub
    } else if s == "secondary_link"@ {
        Kind::SecondaryLink
    } else if s == "secondary"@ {
        Kind::Secondary
    } else if s == "service"@ {
        Kind::Service
    } else if s == "sidewalk"@ {
        Kind::Sidewalk
    } else if s == "steps"@ {
        Kind::Steps
    } else if s == "stream"@ {
        Kind::Stream
    } else if s == "string_bog"@ {
        Kind::StringBog
    } else if s == "subway"@ {
        Kind::Subway
    } else if s == "swamp"@ {
        Kind::Swamp
    } else if s == "taxiway"@ {
        Kind::Taxiway
    } else if s == "tertiary_link"@ {
        Kind::TertiaryLink
    } else if s == "tertiary"@ {
        Kind::Tertiary
    } else if s == "track"@ {
        Kind::Track
    } else if s == "traffic_island"@ {
        Kind::TrafficIsland
    } else if s == "tram"@ {
        Kind::Tram
    } else if s == "trunk_link"@ {
        Kind::TrunkLink
    } else if s == "trunk"@ {
        Kind::Trunk
    } else if s == "unclassified"@ {
        Kind::Unclassified
    } else if s == "village_green"@ {
        Kind::VillageGreen
    } else if s == "vineyard"@ {
        Kind::Vineyard
    } else if s == "water"@ {
        Kind::Water
    } else if s == "wet_meadow"@ {
        Kind::WetMeadow
    } else if s == "wood"@ {
        Kind::Wood
    } else {
        Kind::Unknown
    }
}

impl<'a> From<&'a str> for Kind {
    fn from(s: &'a str) -> (kind: Self) {
        if str_eq(s, "allotments") {
            Kind::Allotments
        } else if str_eq(s, "basin") {
            Kind::Basin
        } else if str_eq(s, "beach") {
            Kind::Beach
        } else if str_eq(s, "bog") {
            Kind::Bog
        } else if str_eq(s, "breakwater") {
            Kind::Breakwater
        } else if str_eq(s, "bridge") {
            Kind::Bridge
        } else if str_eq(s, "bridleway") {
            Kind::Bridleway
        } else if str_eq(s, "canal") {
            Kind::Canal
        } else if str_eq(s, "cemetery") {
            Kind::Cemetery
        } else if str_eq(s, "crossing") {
            Kind::Crossing
        } else if str_eq(s, "cycleway") {
            Kind::Cycleway
        } else if str_eq(s, "ditch") {
            Kind::Ditch
        } else if str_eq(s, "dock") {
            Kind::Dock
        } else if str_eq(s, "dune") {
            Kind::Dune
        } else if str_eq(s, "farmland") {
            Kind::Farmland
        } else if str_eq(s, "ferry") {
            Kind::Ferry
        } else if str_eq(s, "footway") {
            Kind::Footway
        } else if str_eq(s, "forest") {
            Kind::Forest
        } else if str_eq(s, "funicular") {
            Kind::Funicular
        } else if str_eq(s, "garden") {
            Kind::Garden
        } else if str_eq(s, "golf_course") {
            Kind::GolfCourse
        } else if str_eq(s, "grassland") {
            Kind::Grassland
        } else if str_eq(s, "grass") {
            Kind::Grass
        } else if str_eq(s, "grave_yard") {
            Kind::GraveYard
        } else if str_eq(s, "greenhouse_horticulture") {
            Kind::GreenhouseHorticulture
        } else if str_eq(s, "gryone") {
            Kind::Gryone
        } else if str_eq(s, "heath") {
            Kind::Heath
        } else if str_eq(s, "light_rail") {
            Kind::LightRail
        } else if str_eq(s, "living_street") {
            Kind::LivingStreet
        } else if str_eq(s, "marsh") {
            Kind::Marsh
        } else if str_eq(s, "meadow") {
            Kind::Meadow
        } else if str_eq(s, "miniature_golf") {
            Kind::MiniatureGolf
        } else if str_eq(s, "monorail") {
            Kind::Monorail
        } else if str_eq(s, "motorway_link") {
            Kind::MotorwayLink
        } else if str_eq(s, "motorway") {
            Kind::Motorway
        } else if str_eq(s, "orchard") {
            Kind::Orchard
        } else if str_eq(s, "park") {
            Kind::Park
        } else if str_eq(s, "path") {
            Kind::Path
        } else if str_eq(s, "pedestrian") {
            Kind::Pedestrian
        } else if str_eq(s, "pier") {
            Kind::Pier
        } else if str_eq(s, "plant_nursery") {
            Kind::PlantNursery
        } else if str_eq(s, "playground") {
            Kind::Playground
        } else if str_eq(s, "primary_link") {
            Kind::PrimaryLink
        } else if str_eq(s, "primary") {
            Kind::Primary
        } else if str_eq(s, "rail") {
            Kind::Rail
        } else if str_eq(s, "recreation_ground") {
            Kind::RecreationGround
        } else if str_eq(s, "residential") {
            Kind::Residential
        } else if str_eq(s, "river") {
            Kind::River
        } else if str_eq(s, "road") {
            Kind::Road
        } else if str_eq(s, "runway") {
            Kind::Runway
        } else if str_eq(s, "sand") {
            Kind::Sand
        } else if str_eq(s, "scrub") {
            Kind::Scrub
        } else if str_eq(s, "secondary_link") {
            Kind::SecondaryLink
        } else if str_eq(s, "secondary") {
            Kind::Secondary
        } else if str_eq(s, "service") {
            Kind::Service
        } else if str_eq(s, "sidewalk") {
            Kind::Sidewalk
        } else if str_eq(s, "steps") {
            Kind::Steps
        } else if str_eq(s, "stream") {
            Kind::Stream
        } else if str_eq(s, "string_bog") {
            Kind::StringBog
        } else if str_eq(s, "subway") {
            Kind::Subway
        } else if str_eq(s, "swamp") {
            Kind::Swamp
        } else if str_eq(s, "taxiway") {
            Kind::Taxiway
        } else if str_eq(s, "tertiary_link") {
            Kind::TertiaryLink
        } else if str_eq(s, "tertiary") {
            Kind::Tertiary
        } else if str_eq(s, "track") {
            Kind::Track
        } else if str_eq(s, "traffic_island") {
            Kind::TrafficIsland
        } else if str_eq(s, "tram") {
            Kind::Tram
        } else if str_eq(s, "trunk_link") {
            Kind::TrunkLink
        } else if str_eq(s, "trunk") {
            Kind::Trunk
        } else if str_eq(s, "unclassified") {
            Kind::Unclassified
        } else if str_eq(s, "village_green") {
            Kind::VillageGreen
        } else if str_eq(s, "vineyard") {
            Kind::Vineyard
        } else if str_eq(s, "water") {
            Kind::Water
        } else if str_eq(s, "wet_meadow") {
            Kind::WetMeadow
        } else if str_eq(s, "wood") {
            Kind::Wood
        } else {
            Kind::Unknown
        }
    }
}

impl<'a> FromSpecImpl<&'a str> for Kind {
    open spec fn obeys_from_spec() -> bool {
        true
    }

    open spec fn from_spec(s: &'a str) -> Kind {
        kind_of(s@)
    }
}

/// Tag value of a kind, unless the kind has none.
pub open spec fn kind_name(kind: Kind) -> Option<Seq<char>> {
    match kind {
        Kind::Sand => Some("sand"@),
        Kind::Dune => Some("dune"@),
        Kind::Beach => Some("beach"@),
        Kind::Scrub => Some("scrub"@),
        Kind::Heath => Some("heath"@),
        Kind::Swamp => Some("swamp"@),
        Kind::Bog => Some("bog"@),
        Kind::StringBog => Some("string_bog"@),
        Kind::Farmland => Some("farmland"@),
        Kind::Allotments => Some("allotments"@),
        Kind::GreenhouseHorticulture => Some("greenhouse_horticulture"@),
        Kind::Grassland => Some("grassland"@),
        Kind::Grass => Some("grass"@),
        Kind::Garden => Some("garden"@),
        Kind::VillageGreen => Some("village_green"@),
        Kind::Meadow => Some("meadow"@),
        Kind::WetMeadow => Some("wet_meadow"@),
        Kind::Marsh => Some("marsh"@),
        Kind::GolfCourse => Some("golf_course"@),
        Kind::Park => Some("park"@),
        Kind::Playground => Some("playground"@),
        Kind::RecreationGround => Some("recreation_ground"@),
        Kind::MiniatureGolf => Some("miniature_golf"@),
        Kind::Cemetery => Some("cemetery"@),
        Kind::GraveYard => Some("grave_yard"@),
        Kind::Wood => Some("wood"@),
        Kind::Forest => Some("forest"@),
        Kind::Orchard => Some("orchard"@),
        Kind::Vineyard => Some("vineyard"@),
        Kind::PlantNursery => Some("plant_nursery"@),
        Kind::Water => Some("water"@),
        Kind::River => Some("river"@),
        Kind::Canal => Some("canal"@),
        Kind::Ditch => Some("ditch"@),
        Kind::Stream => Some("stream"@),
        Kind::Basin => Some("basin"@),
        Kind::Dock => Some("dock"@),
        Kind::Bridge => Some("bridge"@),
        Kind::Pier => Some("pier"@),
        Kind::Breakwater => Some("breakwater"@),
        Kind::Gryone => Some("gryone"@),
        Kind::Pedestrian => Some("pedestrian"@),
        Kind::Taxiway => Some("taxiway"@),
        Kind::Runway => Some("runway"@),
        Kind::Road => Some("road"@),
        Kind::Service => Some("service"@),
        Kind::LivingStreet => Some("living_street"@),
        Kind::Residential => Some("residential"@),
        Kind::Unclassified => Some("unclassified"@),
        Kind::TertiaryLink => Some("tertiary_link"@),
        Kind::Tertiary => Some("tertiary"@),
        Kind::SecondaryLink => Some("secondary_link"@),
        Kind::Secondary => Some("secondary"@),
        Kind::PrimaryLink => Some("primary_link"@),
        Kind::Primary => Some("primary"@),
        Kind::TrunkLink => Some("trunk_link"@),
        Kind::Trunk => Some("trunk"@),
        Kind::MotorwayLink => Some("motorway_link"@),
        Kind::Motorway => Some("motorway"@),
        Kind::Path => Some("path"@),
        Kind::Track => Some("track"@),
        Kind::Bridleway => Some("bridleway"@),
        Kind::Cycleway => Some("cycleway"@),
        Kind::Footway => Some("footway"@),
        Kind::Sidewalk => Some("sidewalk"@),
        Kind::Crossing => Some("crossing"@),
        Kind::TrafficIsland => Some("traffic_island"@),
        Kind::Steps => Some("steps"@),
        Kind::Ferry => Some("ferry"@),
        Kind::Subway => Some("subway"@),
        Kind::Tram => Some("tram"@),
        Kind::Funicular => Some("funicular"@),
        Kind::LightRail => Some("light_rail"@),
        Kind::Rail => Some("rail"@),
        Kind::Monorail => Some("monorail"@),
        Kind::Untagged | Kind::Unknown => None,
    }
}

/// Every kind with a tag value is found by it, and by no other value.
pub proof fn law_kinds_are_found_by_name(kind: Kind, name: Seq<char>)
    ensures
        kind_name(kind) matches Some(name) ==> kind_of(name) != Kind::Unknown,
        kind_of(name) != Kind::Unknown ==> kind_name(kind_of(name)) == Some(name),
        kind_of(name) != Kind::Untagged,
{
}

/// Kinds from the bottommost to the topmost.
pub open spec fn kinds_bottom_to_top() -> Seq<Kind> {
    seq![
        Kind::Sand,
        Kind::Dune,
        Kind::Beach,
        Kind::Scrub,
        Kind::Heath,
        Kind::Swamp,
        Kind::Bog,
        Kind::StringBog,
        Kind::Farmland,
        Kind::Allotments,
        Kind::GreenhouseHorticulture,
        Kind::Grassland,
        Kind::Grass,
        Kind::Garden,
        Kind::VillageGreen,
        Kind::Meadow,
        Kind::WetMeadow,
        Kind::Marsh,
        Kind::GolfCourse,
        Kind::Park,
        Kind::Playground,
        Kind::RecreationGround,
        Kind::MiniatureGolf,
        Kind::Cemetery,
        Kind::GraveYard,
        Kind::Wood,
        Kind::Forest,
        Kind::Orchard,
        Kind::Vineyard,
        Kind::PlantNursery,
        Kind::Water,
        Kind::River,
        Kind::Canal,
        Kind::Ditch,
        Kind::Stream,
        Kind::Basin,
        Kind::Dock,
        Kind::Bridge,
        Kind::Pier,
        Kind::Breakwater,
        Kind::Gryone,
        Kind::Pedestrian,
        Kind::Taxiway,
        Kind::Runway,
        Kind::Road,
        Kind::Service,
        Kind::LivingStreet,
        Kind::Residential,
        Kind::Unclassified,
        Kind::TertiaryLink,
        Kind::Tertiary,
        Kind::SecondaryLink,
        Kind::Secondary,
        Kind::PrimaryLink,
        Kind::Primary,
        Kind::TrunkLink,
        Kind::Trunk,
        Kind::MotorwayLink,
        Kind::Motorway,
        Kind::Path,
        Kind::Track,
        Kind::Bridleway,
        Kind::Cycleway,
        Kind::Footway,
        Kind::Sidewalk,
        Kind::Crossing,
        Kind::TrafficIsland,
        Kind::Steps,
        Kind::Ferry,
        Kind::Subway,
        Kind::Tram,
        Kind::Funicular,
        Kind::LightRail,
        Kind::Rail,
        Kind::Monorail,
        Kind::Untagged,
        Kind::Unknown,
    ]
}

/// The position of a kind in the render order is its position in the list of all
/// kinds from bottom to top.
pub proof fn law_kind_ranks(kind: Kind)
    ensures
        kinds_bottom_to_top()[kind.spec_rank() as int] == kind,
        kinds_bottom_to_top().len() == KIND_COUNT,
{
}

} // verus!
