//! Online geocoding using photon.

use vstd::prelude::*;

use crate::geocoder::{
    entity_name, find_entity_name, result_views, type_views, QueryResult, QueryResultRank,
    QueryResultView,
};
use crate::geometry::GeoPoint;
use crate::text::{decimal, opt_view, to_decimal};

verus! {

/// Maximum results returned by one Photon query.
pub const MAX_RESULTS: u8 = 15;

/// Photon API GeoJSON properties.
#[derive(Debug)]
pub struct PhotonProperties {
    pub osm_key: String,
    pub osm_value: String,
    pub postcode: Option<String>,
    pub housenumber: Option<String>,
    pub street: Option<String>,
    pub district: Option<String>,
    pub city: Option<String>,
    pub state: Option<String>,
    pub country: Option<String>,
    pub name: Option<String>,
}

/// Address with one more part.
pub open spec fn with_part(address: Option<Seq<char>>, part: Option<Seq<char>>) -> Option<Seq<char>> {
    match (address, part) {
        (Some(address), Some(part)) => Some(address + ", "@ + part),
        (None, Some(part)) => Some(part),
        (address, None) => address,
    }
}

/// Add a part to an address.
fn add_part(address: Option<String>, part: &Option<String>) -> (result: Option<String>)
    ensures
        opt_view(result) == with_part(opt_view(address), opt_view(*part)),
{
    match (address, part) {
        (Some(address), Some(part)) => {
            let mut address = address;
            address.append(", ");
            address.append(part.as_str());
            Some(address)
        },
        (None, Some(part)) => Some(part.clone()),
        (address, None) => address,
    }
}

impl PhotonProperties {
    /// Parts of an address, separated by commas.
    pub open spec fn spec_address(&self) -> Seq<char> {
        let address = with_part(None, opt_view(self.postcode));
        let address = with_part(address, opt_view(self.housenumber));
        let address = with_part(address, opt_view(self.street));
        let address = with_part(address, opt_view(self.district));
        let address = with_part(address, opt_view(self.city));
        let address = with_part(address, opt_view(self.state));
        match with_part(address, opt_view(self.country)) {
            Some(address) => address,
            None => Seq::empty(),
        }
    }

    /// Assemble address from its parts.
    pub fn address(&self) -> (address: String)
        ensures
            address@ == self.spec_address(),
    {
        let address = add_part(None, &self.postcode);
        let address = add_part(address, &self.housenumber);
        let address = add_part(address, &self.street);
        let address = add_part(address, &self.district);
        let address = add_part(address, &self.city);
        let address = add_part(address, &self.state);
        match add_part(address, &self.country) {
            Some(address) => address,
            None => String::new(),
        }
    }
}

/// GeoJSON geometry.
///
/// Coordinates are kept as the bits of their floating point value.
#[derive(Debug)]
pub enum Geometry {
    Point(Vec<u64>),
    /// Geometry which is no point.
    Other,
}

/// GeoJSON feature.
#[derive(Debug)]
pub struct Feature {
    pub geometry: Option<Geometry>,
    pub properties: Option<PhotonProperties>,
}

/// GeoJSON root object.
#[derive(Debug)]
pub enum GeoJson {
    FeatureCollection(Vec<Feature>),
    Feature(Feature),
    Geometry(Geometry),
}

/// Position of a point geometry.
pub open spec fn geometry_point(geometry: Option<Geometry>) -> Option<GeoPoint> {
    match geometry {
        Some(Geometry::Point(coordinates)) if coordinates.len() == 2 => Some(
            GeoPoint { lat: coordinates[1], lon: coordinates[0] },
        ),
        _ => None,
    }
}

/// Key of an entity type.
pub open spec fn entity_key(properties: PhotonProperties) -> Seq<char> {
    properties.osm_key@ + "_"@ + properties.osm_value@
}

/// Query result of a feature.
///
/// Features need to have a name, a known entity type, and a position.
pub open spec fn mapped_feature(
    types: Seq<(Seq<char>, Seq<char>)>,
    feature: Feature,
    index: int,
) -> Option<QueryResultView> {
    match feature.properties {
        Some(properties) => {
            match (
                opt_view(properties.name),
                entity_name(types, entity_key(properties)),
                geometry_point(feature.geometry),
            ) {
                (Some(title), Some(entity_type), Some(point)) => Some(
                    QueryResultView {
                        entity_type,
                        address: properties.spec_address(),
                        point,
                        title,
                        distance: None,
                        rank: QueryResultRank::Photon(index as usize),
                    },
                ),
                _ => None,
            }
        },
        None => None,
    }
}

/// Try to map a Photon GeoJSON feature to a query result.
///
/// The distance to the search reference is left unset.
pub fn map_feature(types: &Vec<(String, String)>, feature: &Feature, index: usize) -> (result: Option<
    QueryResult,
>)
    ensures
        match result {
            Some(result) => mapped_feature(type_views(types@), *feature, index as int) == Some(
                result@,
            ),
            None => mapped_feature(type_views(types@), *feature, index as int) is None,
        },
{
    let properties = match &feature.properties {
        Some(properties) => properties,
        None => return None,
    };
    let address = properties.address();
    let title = match &properties.name {
        Some(name) => name.clone(),
        None => return None,
    };

    // Filter out unknown entity types.
    //
    // Unknown entities generally refer to old data like
    // `emergency_fire_detection_system`, which have been removed from OSM. Since
    // these are likely irrelevant, we remove them from the result.
    let mut key = properties.osm_key.clone();
    key.append("_");
    key.append(properties.osm_value.as_str());
    let entity_type = match find_entity_name(types, key.as_str()) {
        Some(entity_type) => entity_type,
        None => return None,
    };

    // Map geometry; luckily Photon only uses points, which makes our life easier.
    let point = match &feature.geometry {
        Some(Geometry::Point(coordinates)) if coordinates.len() == 2 => GeoPoint::new(
            coordinates[1],
            coordinates[0],
        ),
        _ => return None,
    };

    Some(
        QueryResult {
            entity_type,
            address,
            point,
            title,
            distance: None,
            rank: QueryResultRank::Photon(index),
        },
    )
}

/// Query results of the first `n` features.
pub open spec fn mapped_features(
    types: Seq<(Seq<char>, Seq<char>)>,
    features: Seq<Feature>,
    n: int,
) -> Seq<QueryResultView>
    decreases n,
{
    if n <= 0 {
        Seq::empty()
    } else {
        match mapped_feature(types, features[n - 1], n - 1) {
            Some(result) => mapped_features(types, features, n - 1).push(result),
            None => mapped_features(types, features, n - 1),
        }
    }
}

/// Query results of a GeoJSON object.
pub open spec fn mapped_geo_json(
    types: Seq<(Seq<char>, Seq<char>)>,
    geo_json: GeoJson,
) -> Seq<QueryResultView> {
    match geo_json {
        GeoJson::FeatureCollection(features) => mapped_features(
            types,
            features@,
            features.len() as int,
        ),
        GeoJson::Feature(feature) => match mapped_feature(types, feature, 0) {
            Some(result) => seq![result],
            None => Seq::empty(),
        },
        GeoJson::Geometry(_) => Seq::empty(),
    }
}

/// Map a Photon GeoJSON response to a list of query results.
pub fn map_geo_json(types: &Vec<(String, String)>, geo_json: &GeoJson) -> (results: Vec<QueryResult>)
    ensures
        result_views(results@) == mapped_geo_json(type_views(types@), *geo_json),
{
    let mut results: Vec<QueryResult> = Vec::new();
    let ghost names = type_views(types@);
    proof {
        assert(result_views(results@) =~= Seq::<QueryResultView>::empty());
    }
    match geo_json {
        GeoJson::FeatureCollection(features) => {
            let mut i: usize = 0;
            while i < features.len()
                invariant
                    i <= features.len(),
                    names == type_views(types@),
                    result_views(results@) == mapped_features(names, features@, i as int),
                decreases features.len() - i,
            {
                let ghost before = results@;
                if let Some(result) = map_feature(types, &features[i], i) {
                    results.push(result);
                    proof {
                        assert(result_views(results@) =~= result_views(before).push(result@));
                    }
                }
                i += 1;
            }
        },
        GeoJson::Feature(feature) => {
            if let Some(result) = map_feature(types, feature, 0) {
                results.push(result);
                proof {
                    assert(result_views(results@) =~= seq![result@]);
                }
            }
        },
        // Ignore geometries without any additional detail.
        GeoJson::Geometry(_) => (),
    }
    results
}

/// URL of a search request.
pub fn search_url(url: &str, text: &str) -> (request: String)
    ensures
        request@ == url@ + "/api/?q="@ + text@ + "&limit="@ + decimal(MAX_RESULTS as int),
{
    let mut request = url.to_owned();
    request.append("/api/?q=");
    request.append(text);
    request.append("&limit=");
    let limit = to_decimal(MAX_RESULTS as u64);
    request.append(limit.as_str());
    request
}

/// URL of a reverse search request at a position written down as text.
pub fn reverse_url(url: &str, lat: &str, lon: &str) -> (request: String)
    ensures
        request@ == url@ + "/reverse?lat="@ + lat@ + "&lon="@ + lon@ + "&limit="@ + decimal(
            MAX_RESULTS as int,
        ),
{
    let mut request = url.to_owned();
    request.append("/reverse?lat=");
    request.append(lat);
    request.append("&lon=");
    request.append(lon);
    request.append("&limit=");
    let limit = to_decimal(MAX_RESULTS as u64);
    request.append(limit.as_str());
    request
}

/// Addresses end with their last part, without any superfluous separator.
pub proof fn law_address_ends_with_last_part(address: Option<Seq<char>>, part: Seq<char>)
    ensures
        ({
            let result = with_part(address, Some(part))->0;
            &&& with_part(address, Some(part)) is Some
            &&& part.len() <= result.len()
            &&& result.skip(result.len() - part.len()) == part
        }),
{
    let result = with_part(address, Some(part))->0;
    assert(result.skip(result.len() - part.len()) =~= part);
}

/// Parts which are present.
pub open spec fn present(parts: Seq<Option<String>>) -> Seq<Seq<char>>
    decreases parts.len(),
{
    if parts.len() == 0 {
        Seq::empty()
    } else {
        match parts.last() {
            Some(part) => present(parts.drop_last()).push(part@),
            None => present(parts.drop_last()),
        }
    }
}

/// Parts with a separator between each of them.
pub open spec fn joined(parts: Seq<Seq<char>>, separator: Seq<char>) -> Seq<char>
    decreases parts.len(),
{
    if parts.len() == 0 {
        Seq::empty()
    } else if parts.len() == 1 {
        parts[0]
    } else {
        joined(parts.drop_last(), separator) + separator + parts.last()
    }
}

/// Address made of the first parts.
spec fn partial_address(parts: Seq<Option<String>>) -> Option<Seq<char>> {
    if present(parts).len() == 0 {
        None
    } else {
        Some(joined(present(parts), ", "@))
    }
}

proof fn lemma_next_part(parts: Seq<Option<String>>, n: int)
    requires
        0 <= n < parts.len(),
    ensures
        with_part(partial_address(parts.take(n)), opt_view(parts[n])) == partial_address(
            parts.take(n + 1),
        ),
{
    assert(parts.take(n + 1).drop_last() =~= parts.take(n));
    if let Some(text) = parts[n] {
        let list = present(parts.take(n));
        assert(list.push(text@).drop_last() =~= list);
    }
}

/// The address consists of all parts which are present, from the postcode to the
/// country, separated by commas.
pub proof fn law_address_lists_all_parts(properties: PhotonProperties)
    ensures
        properties.spec_address() == joined(
            present(
                seq![
                    properties.postcode,
                    properties.housenumber,
                    properties.street,
                    properties.district,
                    properties.city,
                    properties.state,
                    properties.country,
                ],
            ),
            ", "@,
        ),
{
    let all = seq![
        properties.postcode,
        properties.housenumber,
        properties.street,
        properties.district,
        properties.city,
        properties.state,
        properties.country,
    ];
    assert(partial_address(all.take(0)) is None);
    lemma_next_part(all, 0);
    lemma_next_part(all, 1);
    lemma_next_part(all, 2);
    lemma_next_part(all, 3);
    lemma_next_part(all, 4);
    lemma_next_part(all, 5);
    lemma_next_part(all, 6);
    assert(all.take(7) =~= all);
}

/// A text occurs inside of another one.
pub open spec fn has_text(text: Seq<char>, part: Seq<char>) -> bool {
    exists|i: int|
        0 <= i <= text.len() - part.len() && #[trigger] text.subrange(i, i + part.len()) == part
}

proof fn lemma_joined_has_part(parts: Seq<Seq<char>>, separator: Seq<char>, i: int)
    requires
        0 <= i < parts.len(),
    ensures
        has_text(joined(parts, separator), parts[i]),
    decreases parts.len(),
{
    let text = joined(parts, separator);
    let part = parts[i];
    if i == parts.len() - 1 {
        let start = text.len() - part.len();
        assert(text.subrange(start, start + part.len()) =~= part);
    } else {
        lemma_joined_has_part(parts.drop_last(), separator, i);
        let head = joined(parts.drop_last(), separator);
        let start = choose|j: int|
            0 <= j <= head.len() - part.len() && #[trigger] head.subrange(j, j + part.len())
                == part;
        assert(text.subrange(start, start + part.len()) =~= head.subrange(
            start,
            start + part.len(),
        ));
    }
}

proof fn lemma_present(parts: Seq<Option<String>>, i: int)
    requires
        0 <= i < parts.len(),
        parts[i] is Some,
    ensures
        exists|j: int| 0 <= j < present(parts).len() && #[trigger] present(parts)[j] == parts[i]->0@,
    decreases parts.len(),
{
    if i < parts.len() - 1 {
        lemma_present(parts.drop_last(), i);
        let head = present(parts.drop_last());
        let j = choose|j: int| 0 <= j < head.len() && #[trigger] head[j] == parts[i]->0@;
        assert(present(parts)[j] == parts[i]->0@);
    } else {
        let j = present(parts).len() - 1;
        assert(present(parts)[j] == parts[i]->0@);
    }
}

/// Every part of an address which is present occurs in it.
pub proof fn law_address_has_every_part(properties: PhotonProperties)
    ensures
        ({
            let address = properties.spec_address();
            &&& properties.postcode matches Some(part) ==> has_text(address, part@)
            &&& properties.housenumber matches Some(part) ==> has_text(address, part@)
            &&& properties.street matches Some(part) ==> has_text(address, part@)
            &&& properties.district matches Some(part) ==> has_text(address, part@)
            &&& properties.city matches Some(part) ==> has_text(address, part@)
            &&& properties.state matches Some(part) ==> has_text(address, part@)
            &&& properties.country matches Some(part) ==> has_text(address, part@)
        }),
{
    law_address_lists_all_parts(properties);
    let all = seq![
        properties.postcode,
        properties.housenumber,
        properties.street,
        properties.district,
        properties.city,
        properties.state,
        properties.country,
    ];
    let list = present(all);
    assert forall|i: int| 0 <= i < 7 && (#[trigger] all[i]) is Some implies has_text(
        properties.spec_address(),
        all[i]->0@,
    ) by {
        lemma_present(all, i);
        let j = choose|j: int| 0 <= j < list.len() && #[trigger] list[j] == all[i]->0@;
        lemma_joined_has_part(list, ", "@, j);
    }
    assert(all[0] == properties.postcode && all[1] == properties.housenumber && all[2]
        == properties.street && all[3] == properties.district && all[4] == properties.city && all[5]
        == properties.state && all[6] == properties.country);
}

/// Exactly the features with a name, a known type, and a position are results.
/// They are called by their name, and located at their position, which starts
/// with the longitude.
pub proof fn law_named_features_are_results(
    types: Seq<(Seq<char>, Seq<char>)>,
    properties: PhotonProperties,
    coordinates: Vec<u64>,
    index: int,
)
    requires
        0 <= index <= usize::MAX,
    ensures
        ({
            let feature = Feature {
                geometry: Some(Geometry::Point(coordinates)),
                properties: Some(properties),
            };
            let entity_type = entity_name(
                types,
                properties.osm_key@ + "_"@ + properties.osm_value@,
            );
            let result = mapped_feature(types, feature, index);
            &&& result is Some <==> properties.name is Some && entity_type is Some
                && coordinates.len() == 2
            &&& result matches Some(result) ==> {
                &&& result.title == properties.name->0@
                &&& result.entity_type == entity_type->0
                &&& result.point.lon == coordinates[0]
                &&& result.point.lat == coordinates[1]
                &&& result.address == properties.spec_address()
                &&& result.rank == QueryResultRank::Photon(index as usize)
            }
        }),
        mapped_feature(
            types,
            Feature { geometry: None, properties: Some(properties) },
            index,
        ) is None,
        mapped_feature(
            types,
            Feature { geometry: Some(Geometry::Point(coordinates)), properties: None },
            index,
        ) is None,
{
}

/// Every feature which is a result is listed, and the results are in the order of
/// their features, with the first one having the best rank.
pub proof fn law_results_follow_features(
    types: Seq<(Seq<char>, Seq<char>)>,
    features: Seq<Feature>,
    n: int,
)
    requires
        0 <= n <= features.len() <= usize::MAX,
    ensures
        ({
            let results = mapped_features(types, features, n);
            &&& results.len() <= n
            &&& forall|i: int|
                0 <= i < n && mapped_feature(types, #[trigger] features[i], i) is Some
                    ==> results.contains(mapped_feature(types, features[i], i)->0)
            &&& forall|i: int|
                0 <= i < results.len() ==> (#[trigger] results[i]).rank is Photon
                    && results[i].rank->Photon_0 < n
            &&& forall|i: int, j: int|
                0 <= i < j < results.len() ==> (#[trigger] results[i]).rank->Photon_0 < (
                #[trigger] results[j]).rank->Photon_0
        }),
    decreases n,
{
    if n > 0 {
        law_results_follow_features(types, features, n - 1);
        let before = mapped_features(types, features, n - 1);
        let results = mapped_features(types, features, n);
        assert forall|i: int|
            0 <= i < n && mapped_feature(types, #[trigger] features[i], i) is Some implies
            results.contains(mapped_feature(types, features[i], i)->0) by {
            let result = mapped_feature(types, features[i], i)->0;
            if i < n - 1 {
                let j = choose|j: int| 0 <= j < before.len() && before[j] == result;
                assert(results[j] == result);
            } else {
                assert(results[results.len() - 1] == result);
            }
        }
    }
}

/// A single feature has the same results as a collection with nothing but this
/// feature, and geometries without a feature have none.
pub proof fn law_single_feature_is_collection(
    types: Seq<(Seq<char>, Seq<char>)>,
    feature: Feature,
    features: Vec<Feature>,
    geometry: Geometry,
)
    requires
        features@ == seq![feature],
    ensures
        mapped_geo_json(types, GeoJson::Feature(feature)) == mapped_geo_json(
            types,
            GeoJson::FeatureCollection(features),
        ),
        mapped_feature(types, feature, 0) matches Some(result) ==> mapped_geo_json(
            types,
            GeoJson::Feature(feature),
        ) == seq![result],
        mapped_geo_json(types, GeoJson::Geometry(geometry)).len() == 0,
{
    reveal_with_fuel(mapped_features, 2);
    assert(mapped_geo_json(types, GeoJson::Feature(feature)) =~= mapped_geo_json(
        types,
        GeoJson::FeatureCollection(features),
    ));
}

} // verus!
