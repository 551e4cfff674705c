//! Geocoding abstraction layer.

pub mod nlp;
pub mod photon;

use vstd::prelude::*;

use crate::geometry::GeoPoint;
use crate::router::{url_change, UrlChange};
use crate::text::{opt_view, str_eq};
use crate::ui::view::search::QueryId;

verus! {

/// Geocoder-specific search result rank.
#[derive(Copy, Clone, Debug, PartialEq, Eq, Structural)]
pub enum QueryResultRank {
    /// Geocoder NLP result rank, lower is better.
    Nlp(i64),
    /// Photon result rank, lower is better.
    Photon(usize),
}

impl QueryResultRank {
    /// A rank is better than another one, or as good.
    ///
    /// All Photon results are better than those of Geocoder NLP.
    pub open spec fn spec_at_least(self, other: Self) -> bool {
        match (self, other) {
            (QueryResultRank::Photon(a), QueryResultRank::Photon(b)) => a <= b,
            (QueryResultRank::Photon(_), QueryResultRank::Nlp(_)) => true,
            (QueryResultRank::Nlp(a), QueryResultRank::Nlp(b)) => a <= b,
            (QueryResultRank::Nlp(_), QueryResultRank::Photon(_)) => false,
        }
    }

    /// Check whether this rank is better than another one, or as good.
    pub fn at_least(self, other: Self) -> (result: bool)
        ensures
            result == self.spec_at_least(other),
    {
        match (self, other) {
            (QueryResultRank::Photon(a), QueryResultRank::Photon(b)) => a <= b,
            (QueryResultRank::Photon(_), QueryResultRank::Nlp(_)) => true,
            (QueryResultRank::Nlp(a), QueryResultRank::Nlp(b)) => a <= b,
            (QueryResultRank::Nlp(_), QueryResultRank::Photon(_)) => false,
        }
    }
}

/// Geocoding search result.
#[derive(Debug)]
pub struct QueryResult {
    pub point: GeoPoint,
    /// Distance to the reference in meters.
    pub distance: Option<u32>,
    pub title: String,
    pub address: String,
    pub entity_type: String,
    pub rank: QueryResultRank,
}

/// Contents of a search result.
pub struct QueryResultView {
    pub point: GeoPoint,
    pub distance: Option<u32>,
    pub title: Seq<char>,
    pub address: Seq<char>,
    pub entity_type: Seq<char>,
    pub rank: QueryResultRank,
}

impl View for QueryResult {
    type V = QueryResultView;

    open spec fn view(&self) -> QueryResultView {
        QueryResultView {
            point: self.point,
            distance: self.distance,
            title: self.title@,
            address: self.address@,
            entity_type: self.entity_type@,
            rank: self.rank,
        }
    }
}

/// Contents of a list of search results.
pub open spec fn result_views(results: Seq<QueryResult>) -> Seq<QueryResultView> {
    results.map_values(|result: QueryResult| result@)
}

/// Results with the best match first.
pub open spec fn best_first(results: Seq<QueryResult>) -> bool {
    forall|i: int, j: int|
        0 <= i < j < results.len() ==> (#[trigger] results[i]).rank.spec_at_least(
            (#[trigger] results[j]).rank,
        )
}

/// Geocoding search query.
#[derive(Debug)]
pub struct SearchQuery {
    pub id: QueryId,
    pub text: String,
    pub reference_point: Option<GeoPoint>,
    pub reference_zoom: Option<u8>,
}

impl SearchQuery {
    pub fn new(id: QueryId, query: &str) -> (search: Self)
        ensures
            search.id == id,
            search.text@ == query@,
            search.reference_point is None,
            search.reference_zoom is None,
    {
        SearchQuery {
            id,
            text: query.to_owned(),
            reference_point: None,
            reference_zoom: None,
        }
    }

    /// Set the query's search reference.
    pub fn set_reference(&mut self, point: GeoPoint, zoom: u8)
        ensures
            final(self).id == old(self).id,
            final(self).text@ == old(self).text@,
            final(self).reference_point == Some(point),
            final(self).reference_zoom == Some(zoom),
    {
        self.reference_point = Some(point);
        self.reference_zoom = Some(zoom);
    }
}

/// Reverse geocoding query.
#[derive(Copy, Clone, Debug, PartialEq, Eq, Structural)]
pub struct ReverseQuery {
    pub id: QueryId,
    pub point: GeoPoint,
    pub zoom: u8,
}

impl ReverseQuery {
    pub fn new(id: QueryId, point: GeoPoint, zoom: u8) -> (query: Self)
        ensures
            query == (ReverseQuery { id, point, zoom }),
    {
        ReverseQuery { id, point, zoom }
    }
}

/// Search query update event.
#[derive(Debug)]
pub enum QueryResultEvent {
    /// New query results available.
    Results(Vec<QueryResult>),
    /// Photon search is done, no more results will be delivered.
    PhotonDone,
    /// Geocoder NLP search is done, no more results will be delivered.
    NlpDone,
}

/// Reaction to a search query update.
#[derive(Copy, Clone, Debug, PartialEq, Eq, Structural)]
pub enum GeocoderAction {
    /// Nothing changed.
    Ignore,
    /// Show the new search state.
    Redraw,
    /// Tell the user that nothing was found.
    NotFound,
}

/// Multi-provider geocoder.
pub struct Geocoder {
    photon_url: String,
    results: Vec<QueryResult>,
    last_query: QueryId,
    photon_searching: bool,
    nlp_searching: bool,
}

/// Contents of a geocoder.
pub struct GeocoderView {
    pub photon_url: Seq<char>,
    pub results: Seq<QueryResult>,
    pub last_query: QueryId,
    pub photon_searching: bool,
    pub nlp_searching: bool,
}

impl GeocoderView {
    /// Any search is in progress.
    pub open spec fn searching(self) -> bool {
        self.photon_searching || self.nlp_searching
    }

    /// Geocoder after an event for its current query, with the specified
    /// results.
    pub open spec fn updated(self, event: QueryResultEvent, results: Seq<QueryResult>) -> Self {
        GeocoderView {
            results,
            photon_searching: self.photon_searching && !(event is PhotonDone),
            nlp_searching: self.nlp_searching && !(event is NlpDone),
            ..self
        }
    }
}

impl View for Geocoder {
    type V = GeocoderView;

    closed spec fn view(&self) -> GeocoderView {
        GeocoderView {
            photon_url: self.photon_url@,
            results: self.results@,
            last_query: self.last_query,
            photon_searching: self.photon_searching,
            nlp_searching: self.nlp_searching,
        }
    }
}

/// Results added by an event.
pub open spec fn added_results(event: QueryResultEvent) -> Seq<QueryResult> {
    match event {
        QueryResultEvent::Results(results) => results@,
        _ => Seq::empty(),
    }
}

/// Add a result to a list, keeping the best match first.
fn insert_result(results: &mut Vec<QueryResult>, result: QueryResult)
    requires
        best_first(old(results)@),
    ensures
        best_first(final(results)@),
        final(results)@.to_multiset() == old(results)@.to_multiset().insert(result),
{
    let ghost before = results@;
    let mut i: usize = results.len();
    while i > 0 && !results[i - 1].rank.at_least(result.rank)
        invariant
            results@ == before,
            i <= results.len(),
            forall|j: int|
                i <= j < results.len() ==> !(#[trigger] results[j]).rank.spec_at_least(result.rank),
        decreases i,
    {
        i -= 1;
    }
    results.insert(i, result);
    proof {
        vstd::seq_lib::to_multiset_insert(before, i as int, result);
        assert forall|j: int, k: int| 0 <= j < k < results.len() implies (
        #[trigger] results@[j]).rank.spec_at_least((#[trigger] results@[k]).rank) by {
            if k > i {
                assert(results@[k] == before[k - 1]);
            }
            if j > i {
                assert(results@[j] == before[j - 1]);
            } else if j < i {
                assert(results@[j] == before[j]);
                if i > 0 && j < i - 1 {
                    assert(before[j].rank.spec_at_least(before[i - 1].rank));
                }
            }
        }
    }
}

impl Geocoder {
    pub fn new(photon_url: String, last_query: QueryId) -> (geocoder: Self)
        ensures
            geocoder@ == (GeocoderView {
                photon_url: photon_url@,
                results: Seq::empty(),
                last_query,
                photon_searching: false,
                nlp_searching: false,
            }),
            best_first(geocoder@.results),
    {
        Geocoder {
            photon_url,
            results: Vec::new(),
            last_query,
            photon_searching: false,
            nlp_searching: false,
        }
    }

    /// Start tracking a query for all geocoders.
    pub fn query(&mut self, id: QueryId)
        ensures
            final(self)@ == (GeocoderView {
                last_query: id,
                photon_searching: true,
                nlp_searching: true,
                results: Seq::empty(),
                ..old(self)@
            }),
            best_first(final(self)@.results),
    {
        self.last_query = id;
        self.photon_searching = true;
        self.nlp_searching = true;
        self.results.clear();
    }

    /// Submit a search query.
    pub fn search(&mut self, query: &SearchQuery)
        ensures
            final(self)@ == (GeocoderView {
                last_query: query.id,
                photon_searching: true,
                nlp_searching: true,
                results: Seq::empty(),
                ..old(self)@
            }),
            best_first(final(self)@.results),
    {
        self.query(query.id);
    }

    /// Submit a reverse geocoding query.
    pub fn reverse(&mut self, query: &ReverseQuery)
        ensures
            final(self)@ == (GeocoderView {
                last_query: query.id,
                photon_searching: true,
                nlp_searching: true,
                results: Seq::empty(),
                ..old(self)@
            }),
            best_first(final(self)@.results),
    {
        self.query(query.id);
    }

    /// Clear the current search.
    ///
    /// The new ID makes sure that events of the cleared search are ignored.
    pub fn reset(&mut self, id: QueryId)
        ensures
            final(self)@ == (GeocoderView {
                last_query: id,
                photon_searching: false,
                nlp_searching: false,
                results: Seq::empty(),
                ..old(self)@
            }),
            best_first(final(self)@.results),
    {
        self.last_query = id;
        self.photon_searching = false;
        self.nlp_searching = false;
        self.results.clear();
    }

    /// Get current query results.
    pub fn results(&self) -> (results: &Vec<QueryResult>)
        ensures
            results@ == self@.results,
    {
        &self.results
    }

    /// Check if search is in progress.
    pub fn searching(&self) -> (searching: bool)
        ensures
            searching == self@.searching(),
    {
        self.photon_searching || self.nlp_searching
    }

    /// Handle new geocoding results.
    ///
    /// Events for old queries are ignored. New results are added to all previous
    /// ones, with the best match first.
    pub fn update(&mut self, id: QueryId, event: QueryResultEvent) -> (action: GeocoderAction)
        requires
            best_first(old(self)@.results),
        ensures
            best_first(final(self)@.results),
            id != old(self)@.last_query ==> action is Ignore && final(self)@ == old(self)@,
            id == old(self)@.last_query ==> {
                &&& final(self)@ == old(self)@.updated(event, final(self)@.results)
                &&& final(self)@.results.to_multiset() == (old(self)@.results + added_results(
                    event,
                )).to_multiset()
                &&& !(event is Results) ==> final(self)@.results == old(self)@.results
                &&& action == (if !final(self)@.searching() && final(self)@.results.len() == 0 {
                    GeocoderAction::NotFound
                } else {
                    GeocoderAction::Redraw
                })
            },
    {
        // Ignore events for old queries.
        if id != self.last_query {
            return GeocoderAction::Ignore;
        }

        let ghost before = self@.results;
        let ghost added = added_results(event);
        match event {
            // Update search results.
            QueryResultEvent::Results(results) => {
                let mut results = results;
                proof {
                    vstd::seq_lib::lemma_multiset_commutative(before, results@);
                }
                while results.len() > 0
                    invariant
                        best_first(self.results@),
                        self.photon_url@ == old(self)@.photon_url,
                        self.last_query == old(self)@.last_query,
                        self.photon_searching == old(self)@.photon_searching,
                        self.nlp_searching == old(self)@.nlp_searching,
                        (before + added).to_multiset() == self.results@.to_multiset().add(
                            results@.to_multiset(),
                        ),
                    decreases results.len(),
                {
                    let ghost list = results@;
                    let ghost target = self.results@.to_multiset();
                    if let Some(result) = results.pop() {
                        insert_result(&mut self.results, result);
                        proof {
                            list.to_multiset_ensures();
                            assert(list =~= results@.push(result));
                            results@.to_multiset_ensures();
                            assert(list.to_multiset() =~= results@.to_multiset().insert(result));
                            assert(target.add(list.to_multiset()) =~= target.insert(result).add(
                                results@.to_multiset(),
                            ));
                        }
                    }
                }
                proof {
                    results@.to_multiset_ensures();
                    assert(results@ =~= Seq::<QueryResult>::empty());
                    assert(self.results@.to_multiset().add(results@.to_multiset())
                        =~= self.results@.to_multiset());
                }
            },
            // Mark current Photon search as done.
            QueryResultEvent::PhotonDone => {
                self.photon_searching = false;
                proof {
                    assert(before + added =~= before);
                }
            },
            // Mark current Geocoder NLP search as done.
            QueryResultEvent::NlpDone => {
                self.nlp_searching = false;
                proof {
                    assert(before + added =~= before);
                }
            },
        }

        // Notify user about geocoding failure.
        if !self.searching() && self.results.len() == 0 {
            GeocoderAction::NotFound
        } else {
            GeocoderAction::Redraw
        }
    }

    /// Handle config updates.
    pub fn update_config(&mut self, photon_url: &str) -> (change: UrlChange)
        ensures
            change == url_change(old(self)@.photon_url, photon_url@),
            final(self)@ == (GeocoderView { photon_url: photon_url@, ..old(self)@ }),
    {
        // Restart Photon geocoder on URL change.
        if str_eq(self.photon_url.as_str(), photon_url) {
            return UrlChange::Unchanged;
        }
        self.photon_url = photon_url.to_owned();
        if photon_url.is_empty() {
            UrlChange::Stop
        } else {
            UrlChange::Restart
        }
    }
}

/// Name of an entity type, with later entries replacing earlier ones.
pub open spec fn entity_name(types: Seq<(Seq<char>, Seq<char>)>, key: Seq<char>) -> Option<Seq<char>>
    decreases types.len(),
{
    if types.len() == 0 {
        None
    } else if types.last().0 == key {
        Some(types.last().1)
    } else {
        entity_name(types.drop_last(), key)
    }
}

/// Contents of a table of entity types.
pub open spec fn type_views(types: Seq<(String, String)>) -> Seq<(Seq<char>, Seq<char>)> {
    types.map_values(|entry: (String, String)| (entry.0@, entry.1@))
}

/// Find the name of an entity type.
pub fn find_entity_name(types: &Vec<(String, String)>, key: &str) -> (name: Option<String>)
    ensures
        opt_view(name) == entity_name(type_views(types@), key@),
{
    let ghost all = type_views(types@);
    let mut n: usize = types.len();
    proof {
        assert(all.take(n as int) =~= all);
    }
    while n > 0
        invariant
            n <= types.len(),
            all == type_views(types@),
            entity_name(all.take(n as int), key@) == entity_name(all, key@),
        decreases n,
    {
        proof {
            assert(all.take(n as int).drop_last() =~= all.take(n - 1));
            assert(all.take(n as int).last() == (types@[n - 1].0@, types@[n - 1].1@));
        }
        if str_eq(types[n - 1].0.as_str(), key) {
            return Some(types[n - 1].1.clone());
        }
        n -= 1;
    }
    None
}

/// Sorted results list everything found online first, and otherwise start with
/// the lowest rank.
pub proof fn law_best_results_come_first(results: Seq<QueryResult>, i: int, j: int)
    requires
        best_first(results),
        0 <= i < j < results.len(),
    ensures
        results[i].rank is Nlp ==> results[j].rank is Nlp,
        results[i].rank matches QueryResultRank::Photon(a) ==> (results[j].rank
            matches QueryResultRank::Photon(b) ==> a <= b),
        results[i].rank matches QueryResultRank::Nlp(a) ==> (results[j].rank
            matches QueryResultRank::Nlp(b) ==> a <= b),
{
    assert(results[i].rank.spec_at_least(results[j].rank));
}

/// Ranks can always be compared, and only equal ranks are as good as each other.
pub proof fn law_ranks_are_ordered(a: QueryResultRank, b: QueryResultRank, c: QueryResultRank)
    ensures
        a.spec_at_least(b) || b.spec_at_least(a),
        a.spec_at_least(b) && b.spec_at_least(a) <==> a == b,
        a.spec_at_least(b) && b.spec_at_least(c) ==> a.spec_at_least(c),
        a is Photon && b is Nlp ==> a.spec_at_least(b),
{
}

/// A search is in progress until both providers are done, no matter which one is
/// done first.
pub proof fn law_search_ends_with_last_provider(
    geocoder: GeocoderView,
    event: QueryResultEvent,
    results: Seq<QueryResult>,
)
    ensures
        ({
            let after = geocoder.updated(event, results);
            &&& after.results == results
            &&& after.last_query == geocoder.last_query
            &&& event is Results ==> after.searching() == geocoder.searching()
            &&& event is PhotonDone ==> after.searching() == geocoder.nlp_searching
            &&& event is NlpDone ==> after.searching() == geocoder.photon_searching
            &&& event is PhotonDone ==> after.updated(QueryResultEvent::NlpDone, results).searching()
                == false
            &&& event is NlpDone ==> after.updated(
                QueryResultEvent::PhotonDone,
                results,
            ).searching() == false
        }),
{
}

/// Results only come with their own event, and all of them are added.
pub proof fn law_added_results(results: Vec<QueryResult>)
    ensures
        added_results(QueryResultEvent::Results(results)) == results@,
        added_results(QueryResultEvent::PhotonDone).len() == 0,
        added_results(QueryResultEvent::NlpDone).len() == 0,
{
}

/// An entity type has a name exactly if it is in the table, which is that of its
/// last entry.
pub proof fn law_last_entity_name_counts(types: Seq<(Seq<char>, Seq<char>)>, key: Seq<char>, i: int)
    ensures
        0 <= i < types.len() && types[i].0 == key && (forall|j: int|
            i < j < types.len() ==> (#[trigger] types[j]).0 != key) ==> entity_name(types, key)
            == Some(types[i].1),
        (forall|j: int| 0 <= j < types.len() ==> (#[trigger] types[j]).0 != key) <==> entity_name(
            types,
            key,
        ) is None,
    decreases types.len(),
{
    if types.len() > 0 {
        let rest = types.drop_last();
        assert forall|j: int| 0 <= j < rest.len() implies #[trigger] rest[j] == types[j] by {}
        law_last_entity_name_counts(rest, key, i);
        if entity_name(types, key) is None {
            assert forall|j: int| 0 <= j < types.len() implies (#[trigger] types[j]).0 != key by {
                if j < rest.len() {
                    assert(rest[j].0 != key);
                }
            }
        } else if types.last().0 != key {
            assert(!(forall|j: int| 0 <= j < types.len() ==> (#[trigger] types[j]).0 != key)) by {
                let j = choose|j: int| 0 <= j < rest.len() && (#[trigger] rest[j]).0 == key;
                assert(types[j].0 == key);
            }
        } else {
            assert(types[types.len() - 1].0 == key);
        }
    }
}

} // verus!
