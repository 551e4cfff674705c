//! Modrana region index.

use vstd::prelude::*;

verus! {

/// Base URLs for the modrana data files.
#[derive(Debug)]
pub struct Urls {
    pub postal_country: String,
    pub postal_global: String,
    pub geocoder_nlp: String,
    pub valhalla: String,
    pub base: String,
}

/// Global postal data path and stats.
#[derive(Debug)]
pub struct PostalGlobal {
    pub postal_global: PostalGlobalData,
}

/// Global postal data path and stats.
#[derive(Debug)]
pub struct PostalGlobalData {
    pub path: String,
    pub size: String,
}

/// Modrana region data.
#[derive(Debug)]
pub struct Region {
    pub geocoder_nlp: GeocoderRegion,
    pub postal_country: PostalRegion,
    pub valhalla: ValhallaRegion,
    pub name: String,
}

/// Geocoder path and stats for a region.
#[derive(Debug)]
pub struct GeocoderRegion {
    pub path: String,
    pub size: String,
}

/// Postal path and stats for a region.
#[derive(Debug)]
pub struct PostalRegion {
    pub path: String,
    pub size: String,
}

/// Valhalla packages and stats for a region.
#[derive(Debug)]
pub struct ValhallaRegion {
    pub packages: Vec<String>,
    pub size: String,
}

/// Format of the modrana.org countries_provided.json.
#[derive(Debug)]
pub struct Countries {
    pub postal_global: PostalGlobal,
    pub url: Urls,
    /// Regions and their identifiers.
    pub regions: Vec<(String, Region)>,
}

} // verus!
