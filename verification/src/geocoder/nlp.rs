//! Offline geocoding.

use vstd::prelude::*;

use crate::geocoder::{
    entity_name, find_entity_name, result_views, type_views, QueryResult, QueryResultRank,
    QueryResultView,
};
use crate::geometry::GeoPoint;
use crate::region::files::{geocoder_dir, postal_root, uri_path};
use crate::region::tree::Region;
use crate::text::{trim, trimmed};

verus! {

/// Geocoding search result.
#[derive(Debug)]
pub struct SearchResult {
    title: String,
    postal_code: String,
    address: String,
    entity_type: String,
    phone: String,
    website: String,
}

/// Contents of a search result.
pub struct SearchResultView {
    pub title: Seq<char>,
    pub postal_code: Seq<char>,
    pub address: Seq<char>,
    pub entity_type: Seq<char>,
    pub phone: Seq<char>,
    pub website: Seq<char>,
}

impl View for SearchResult {
    type V = SearchResultView;

    closed spec fn view(&self) -> SearchResultView {
        SearchResultView {
            title: self.title@,
            postal_code: self.postal_code@,
            address: self.address@,
            entity_type: self.entity_type@,
            phone: self.phone@,
            website: self.website@,
        }
    }
}

impl SearchResult {
    pub fn new(
        title: String,
        postal_code: String,
        address: String,
        entity_type: String,
        phone: String,
        website: String,
    ) -> (result: Self)
        ensures
            result@ == (SearchResultView {
                title: title@,
                postal_code: postal_code@,
                address: address@,
                entity_type: entity_type@,
                phone: phone@,
                website: website@,
            }),
    {
        SearchResult { title, postal_code, address, entity_type, phone, website }
    }

    /// Title of the result's entity.
    pub fn title(&self) -> (title: &str)
        ensures
            title@ == self@.title,
    {
        self.title.as_str()
    }

    /// Postal code of the result's entity.
    pub fn postal_code(&self) -> (postal_code: &str)
        ensures
            postal_code@ == self@.postal_code,
    {
        self.postal_code.as_str()
    }

    /// Address of the result's entity.
    ///
    /// The address does not include the postal code. To get the postal code,
    /// see [`Self::postal_code`].
    pub fn address(&self) -> (address: &str)
        ensures
            address@ == self@.address,
    {
        self.address.as_str()
    }

    /// OSM tag of the result's entity.
    pub fn entity_type(&self) -> (entity_type: &str)
        ensures
            entity_type@ == self@.entity_type,
    {
        self.entity_type.as_str()
    }

    /// Phone number of the result's entity.
    pub fn phone(&self) -> (phone: &str)
        ensures
            phone@ == self@.phone,
    {
        self.phone.as_str()
    }

    /// Website of the result's entity.
    pub fn website(&self) -> (website: &str)
        ensures
            website@ == self@.website,
    {
        self.website.as_str()
    }
}

/// Iterator over search results.
#[derive(Debug)]
pub struct SearchIter {
    results: Vec<SearchResult>,
    index: usize,
}

impl SearchIter {
    /// Results which have not been returned yet.
    pub closed spec fn remaining(&self) -> Seq<SearchResult> {
        if self.index <= self.results.len() {
            self.results@.skip(self.index as int)
        } else {
            Seq::empty()
        }
    }

    pub fn new(results: Vec<SearchResult>) -> (iter: Self)
        ensures
            iter.remaining() == results@,
    {
        let iter = SearchIter { results, index: 0 };
        proof {
            assert(iter.remaining() =~= results@);
        }
        iter
    }

    /// Get the next search result.
    pub fn next(&mut self) -> (result: Option<&SearchResult>)
        ensures
            match result {
                Some(result) => old(self).remaining() == seq![*result] + final(self).remaining(),
                None => old(self).remaining().len() == 0 && final(self).remaining().len() == 0,
            },
    {
        if self.index >= self.results.len() {
            return None;
        }
        let ghost before = *self;
        self.index += 1;
        proof {
            assert(before.remaining() =~= seq![self.results@[self.index - 1]] + self.remaining());
        }
        Some(&self.results[self.index - 1])
    }
}

/// Search result with its position.
#[derive(Debug)]
pub struct NlpResult {
    pub result: SearchResult,
    pub point: GeoPoint,
    /// Distance to the search reference in meters.
    pub distance: u32,
    /// Importance of the search result, lower is better.
    pub rank: i64,
}

/// Address with its postal code, if there is one.
pub open spec fn full_address(postal_code: Seq<char>, address: Seq<char>) -> Seq<char> {
    if postal_code.len() == 0 {
        address
    } else {
        postal_code + ", "@ + address
    }
}

/// Query result with the specified postal code.
///
/// Results with an unknown entity type are filtered out.
pub open spec fn mapped_result(
    types: Seq<(Seq<char>, Seq<char>)>,
    has_reference: bool,
    result: NlpResult,
    postal_code: Seq<char>,
) -> Option<QueryResultView> {
    match entity_name(types, result.result@.entity_type) {
        Some(entity_type) => Some(
            QueryResultView {
                entity_type,
                distance: if has_reference {
                    Some(result.distance)
                } else {
                    None
                },
                address: full_address(postal_code, result.result@.address),
                point: result.point,
                rank: QueryResultRank::Nlp(result.rank),
                title: result.result@.title,
            },
        ),
        None => None,
    }
}

/// Map a result with a postal code without surrounding whitespace.
pub fn map_result(
    types: &Vec<(String, String)>,
    has_reference: bool,
    result: &NlpResult,
    postal_code: &str,
) -> (query_result: Option<QueryResult>)
    ensures
        match query_result {
            Some(query_result) => mapped_result(
                type_views(types@),
                has_reference,
                *result,
                postal_code@,
            ) == Some(query_result@),
            None => mapped_result(
                type_views(types@),
                has_reference,
                *result,
                postal_code@,
            ) is None,
        },
{
    // Filter out unknown entity types.
    //
    // Unknown entities generally refer to old data like
    // `emergency_fire_detection_system`, which have been removed from OSM. Since
    // these are likely irrelevant, we remove them from the result.
    let entity_type = match find_entity_name(types, result.result.entity_type()) {
        Some(entity_type) => entity_type,
        None => return None,
    };

    let mut address = String::new();
    if !postal_code.is_empty() {
        address.append(postal_code);
        address.append(", ");
    }
    address.append(result.result.address());
    proof {
        assert(address@ =~= full_address(postal_code@, result.result@.address));
    }

    let distance: Option<u32> = if has_reference {
        Some(result.distance)
    } else {
        None
    };
    Some(
        QueryResult {
            entity_type,
            distance,
            address,
            point: result.point,
            rank: QueryResultRank::Nlp(result.rank),
            title: result.result.title().to_owned(),
        },
    )
}

/// Query results of the first `n` results.
pub open spec fn mapped_results(
    types: Seq<(Seq<char>, Seq<char>)>,
    has_reference: bool,
    results: Seq<NlpResult>,
    n: int,
) -> Seq<QueryResultView>
    decreases n,
{
    if n <= 0 {
        Seq::empty()
    } else {
        let result = results[n - 1];
        let before = mapped_results(types, has_reference, results, n - 1);
        match mapped_result(types, has_reference, result, trimmed(result.result@.postal_code)) {
            Some(result) => before.push(result),
            None => before,
        }
    }
}

/// Map Geocoder NLP results to our expected format.
pub fn map_results(types: &Vec<(String, String)>, has_reference: bool, results: &Vec<NlpResult>) -> (
query_results: Vec<QueryResult>)
    ensures
        result_views(query_results@) == mapped_results(
            type_views(types@),
            has_reference,
            results@,
            results.len() as int,
        ),
{
    let mut query_results: Vec<QueryResult> = Vec::new();
    let ghost names = type_views(types@);
    let mut i: usize = 0;
    proof {
        assert(result_views(query_results@) =~= Seq::<QueryResultView>::empty());
    }
    while i < results.len()
        invariant
            i <= results.len(),
            names == type_views(types@),
            result_views(query_results@) == mapped_results(
                names,
                has_reference,
                results@,
                i as int,
            ),
        decreases results.len() - i,
    {
        let ghost before = query_results@;
        let postal_code = trim(results[i].result.postal_code());
        if let Some(result) = map_result(types, has_reference, &results[i], postal_code.as_str()) {
            query_results.push(result);
            proof {
                assert(result_views(query_results@) =~= result_views(before).push(result@));
            }
        }
        i += 1;
    }
    query_results
}

/// Change required to use a region's geocoding data.
#[derive(Debug)]
pub enum GeocoderSetup {
    /// The region has no postal data.
    MissingPostal,
    /// The region has no geocoder data.
    MissingGeocoder,
    /// Create a geocoder with the region's geocoder and postal directory.
    Create(String, String),
    /// Update the geocoder to the region's geocoder and postal directory.
    Update(String, String),
}

/// Determine how a geocoder is initialized for a region.
pub fn init_geocoder(region: &Region, has_geocoder: bool) -> (setup: GeocoderSetup)
    ensures
        match (uri_path(region@.postal_path), uri_path(region@.geocoder_path)) {
            (None, _) => setup is MissingPostal,
            (Some(_), None) => setup is MissingGeocoder,
            (Some((_, country_code)), Some((_, name))) => if has_geocoder {
                setup matches GeocoderSetup::Update(geocoder, postal) && geocoder@ == geocoder_dir(
                    name,
                ) && postal@ == postal_root(country_code)
            } else {
                setup matches GeocoderSetup::Create(geocoder, postal) && geocoder@ == geocoder_dir(
                    name,
                ) && postal@ == postal_root(country_code)
            },
        },
{
    // Get region-specific geocoding data paths.
    let postal = match region.postal_country_root() {
        Some(postal) => postal,
        None => return GeocoderSetup::MissingPostal,
    };
    let geocoder = match region.geocoder_path() {
        Some(geocoder) => geocoder,
        None => return GeocoderSetup::MissingGeocoder,
    };

    // Initialize or update the geocoder.
    if has_geocoder {
        GeocoderSetup::Update(geocoder, postal)
    } else {
        GeocoderSetup::Create(geocoder, postal)
    }
}

/// Exactly the results with a known type are shown. They keep their title,
/// position, and rank, and only have a distance if there is a reference.
pub proof fn law_known_results_are_mapped(
    types: Seq<(Seq<char>, Seq<char>)>,
    has_reference: bool,
    result: NlpResult,
    postal_code: Seq<char>,
)
    ensures
        ({
            let mapped = mapped_result(types, has_reference, result, postal_code);
            let entity_type = entity_name(types, result.result@.entity_type);
            &&& mapped is Some <==> entity_type is Some
            &&& mapped matches Some(mapped) ==> {
                &&& mapped.title == result.result@.title
                &&& mapped.point == result.point
                &&& mapped.rank == QueryResultRank::Nlp(result.rank)
                &&& mapped.entity_type == entity_type->0
                &&& mapped.distance is Some <==> has_reference
                &&& mapped.distance matches Some(distance) ==> distance == result.distance
            }
        }),
{
}

/// Addresses end with the address itself, and start with the postal code and a
/// comma if there is one.
pub proof fn law_address_starts_with_postal_code(postal_code: Seq<char>, address: Seq<char>)
    ensures
        ({
            let full = full_address(postal_code, address);
            &&& full.skip(full.len() - address.len()) == address
            &&& postal_code.len() == 0 ==> full == address
            &&& postal_code.len() > 0 ==> full.take(full.len() - address.len()) == postal_code
                + seq![',', ' ']
        }),
{
    let full = full_address(postal_code, address);
    reveal_strlit(", ");
    assert(full.skip(full.len() - address.len()) =~= address);
    if postal_code.len() > 0 {
        assert(full.take(full.len() - address.len()) =~= postal_code + seq![',', ' ']);
    }
}

/// Every result which is shown is listed, in the order in which it was found.
pub proof fn law_results_are_listed_in_order(
    types: Seq<(Seq<char>, Seq<char>)>,
    has_reference: bool,
    results: Seq<NlpResult>,
    n: int,
    i: int,
)
    requires
        0 <= i < n <= results.len(),
    ensures
        ({
            let result = mapped_result(
                types,
                has_reference,
                results[i],
                trimmed(results[i].result@.postal_code),
            );
            let listed = mapped_results(types, has_reference, results, n);
            let before = mapped_results(types, has_reference, results, i);
            &&& before.len() <= listed.len() <= before.len() + n - i
            &&& listed.take(before.len() as int) == before
            &&& result matches Some(result) ==> before.len() < listed.len()
                && listed[before.len() as int] == result
        }),
    decreases n,
{
    let listed = mapped_results(types, has_reference, results, n);
    let before = mapped_results(types, has_reference, results, i);
    if i < n - 1 {
        law_results_are_listed_in_order(types, has_reference, results, n - 1, i);
        let partial = mapped_results(types, has_reference, results, n - 1);
        assert(listed.take(before.len() as int) =~= partial.take(before.len() as int));
    } else {
        assert(listed.take(before.len() as int) =~= before);
    }
}

} // verus!
