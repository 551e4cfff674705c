use charon::geocoder::nlp::{map_results, NlpResult, SearchIter, SearchResult};
use charon::geocoder::photon::{
    map_feature, map_geo_json, reverse_url, search_url, Feature, GeoJson, Geometry,
    PhotonProperties,
};
use charon::geocoder::{
    find_entity_name, Geocoder, GeocoderAction, QueryResult, QueryResultEvent, QueryResultRank,
    ReverseQuery, SearchQuery,
};
use charon::geometry::GeoPoint;
use charon::router::UrlChange;
use charon::ui::view::search::QueryId;

fn types() -> Vec<(String, String)> {
    vec![
        ("amenity_cafe".to_owned(), "Café".to_owned()),
        ("place_city".to_owned(), "City".to_owned()),
    ]
}

fn properties() -> PhotonProperties {
    PhotonProperties {
        osm_key: "place".to_owned(),
        osm_value: "city".to_owned(),
        postcode: Some("50667".to_owned()),
        housenumber: None,
        street: None,
        district: None,
        city: Some("Cologne".to_owned()),
        state: None,
        country: Some("Germany".to_owned()),
        name: Some("Cologne".to_owned()),
    }
}

#[test]
fn photon_address() {
    assert_eq!(properties().address(), "50667, Cologne, Germany");
    let mut empty = properties();
    empty.postcode = None;
    empty.city = None;
    assert_eq!(empty.address(), "Germany");
    empty.country = None;
    assert_eq!(empty.address(), "");
}

#[test]
fn photon_features() {
    let feature = Feature {
        geometry: Some(Geometry::Point(vec![7, 50])),
        properties: Some(properties()),
    };
    let result = map_feature(&types(), &feature, 3).unwrap();
    assert_eq!(result.point, GeoPoint::new(50, 7));
    assert_eq!(result.title, "Cologne");
    assert_eq!(result.entity_type, "City");
    assert_eq!(result.address, "50667, Cologne, Germany");
    assert_eq!(result.distance, None);
    assert_eq!(result.rank, QueryResultRank::Photon(3));

    // Features without name, point, or known type are ignored.
    let mut unnamed = properties();
    unnamed.name = None;
    let unnamed =
        Feature { geometry: Some(Geometry::Point(vec![7, 50])), properties: Some(unnamed) };
    assert!(map_feature(&types(), &unnamed, 0).is_none());
    let pointless = Feature { geometry: Some(Geometry::Other), properties: Some(properties()) };
    assert!(map_feature(&types(), &pointless, 0).is_none());
    assert!(map_feature(&vec![], &feature, 0).is_none());

    let json = GeoJson::FeatureCollection(vec![unnamed, feature]);
    let results = map_geo_json(&types(), &json);
    assert_eq!(results.len(), 1);
    assert_eq!(results[0].rank, QueryResultRank::Photon(1));
    assert_eq!(map_geo_json(&types(), &GeoJson::Geometry(Geometry::Other)).len(), 0);
}

#[test]
fn photon_urls() {
    assert_eq!(search_url("https://p", "a%20b"), "https://p/api/?q=a%20b&limit=15");
    assert_eq!(reverse_url("https://p", "1.5", "2"), "https://p/reverse?lat=1.5&lon=2&limit=15");
}

fn nlp_result(title: &str, postal_code: &str, entity_type: &str, rank: i64) -> NlpResult {
    NlpResult {
        result: SearchResult::new(
            title.to_owned(),
            postal_code.to_owned(),
            "Street 5, City".to_owned(),
            entity_type.to_owned(),
            "123".to_owned(),
            "https://a".to_owned(),
        ),
        point: GeoPoint::new(1, 2),
        distance: 30,
        rank,
    }
}

#[test]
fn nlp_results() {
    let results = vec![
        nlp_result("A", " 1234\t", "amenity_cafe", -3),
        nlp_result("B", "", "unknown", 0),
        nlp_result("C", " \u{3000} ", "place_city", 1),
    ];
    let mapped = map_results(&types(), true, &results);
    assert_eq!(mapped.len(), 2);
    assert_eq!(mapped[0].title, "A");
    assert_eq!(mapped[0].address, "1234, Street 5, City");
    assert_eq!(mapped[0].entity_type, "Café");
    assert_eq!(mapped[0].distance, Some(30));
    assert_eq!(mapped[0].rank, QueryResultRank::Nlp(-3));
    assert_eq!(mapped[1].address, "Street 5, City");
    assert_eq!(map_results(&types(), false, &results)[0].distance, None);
}

#[test]
fn search_results() {
    let result = nlp_result("A", "1", "b", 0).result;
    assert_eq!(result.title(), "A");
    assert_eq!(result.postal_code(), "1");
    assert_eq!(result.address(), "Street 5, City");
    assert_eq!(result.entity_type(), "b");
    assert_eq!(result.phone(), "123");
    assert_eq!(result.website(), "https://a");

    let mut iter = SearchIter::new(vec![result]);
    assert_eq!(iter.next().unwrap().title(), "A");
    assert!(iter.next().is_none());
}

#[test]
fn entity_names() {
    assert_eq!(find_entity_name(&types(), "place_city"), Some("City".to_owned()));
    assert_eq!(find_entity_name(&types(), "place"), None);
}

fn query_result(title: &str, rank: QueryResultRank) -> QueryResult {
    QueryResult {
        point: GeoPoint::new(0, 0),
        distance: None,
        title: title.to_owned(),
        address: String::new(),
        entity_type: String::new(),
        rank,
    }
}

#[test]
fn combined_results() {
    let mut geocoder = Geocoder::new("https://p".to_owned(), QueryId(0));
    let mut query = SearchQuery::new(QueryId(1), "cafe");
    query.set_reference(GeoPoint::new(3, 4), 5);
    assert_eq!(query.text, "cafe");
    assert_eq!(query.reference_point, Some(GeoPoint::new(3, 4)));
    assert_eq!(query.reference_zoom, Some(5));
    geocoder.search(&query);
    assert!(geocoder.searching());

    let nlp = vec![
        query_result("n1", QueryResultRank::Nlp(1)),
        query_result("n-5", QueryResultRank::Nlp(-5)),
    ];
    let action = geocoder.update(QueryId(1), QueryResultEvent::Results(nlp));
    assert!(matches!(action, GeocoderAction::Redraw));
    let photon = vec![
        query_result("p2", QueryResultRank::Photon(2)),
        query_result("p0", QueryResultRank::Photon(0)),
    ];
    geocoder.update(QueryId(1), QueryResultEvent::Results(photon));
    let titles: Vec<&str> =
        geocoder.results().iter().map(|result| result.title.as_str()).collect();
    assert_eq!(titles, vec!["p0", "p2", "n-5", "n1"]);

    // Old events are ignored.
    let action = geocoder.update(QueryId(0), QueryResultEvent::PhotonDone);
    assert!(matches!(action, GeocoderAction::Ignore));
    geocoder.update(QueryId(1), QueryResultEvent::PhotonDone);
    assert!(geocoder.searching());
    geocoder.update(QueryId(1), QueryResultEvent::NlpDone);
    assert!(!geocoder.searching());

    geocoder.reset(QueryId(2));
    assert!(geocoder.results().is_empty());
}

#[test]
fn nothing_found() {
    let mut geocoder = Geocoder::new(String::new(), QueryId(0));
    geocoder.reverse(&ReverseQuery::new(QueryId(1), GeoPoint::new(0, 0), 3));
    let action = geocoder.update(QueryId(1), QueryResultEvent::NlpDone);
    assert!(matches!(action, GeocoderAction::Redraw));
    let action = geocoder.update(QueryId(1), QueryResultEvent::PhotonDone);
    assert!(matches!(action, GeocoderAction::NotFound));
    assert_eq!(geocoder.update_config("https://p"), UrlChange::Restart);
    assert_eq!(geocoder.update_config("https://p"), UrlChange::Unchanged);
    assert_eq!(geocoder.update_config(""), UrlChange::Stop);
}
