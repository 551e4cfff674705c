//! Route planning abstraction layer.

pub mod polyline;
pub mod valhalla;

use vstd::prelude::*;

use crate::geometry::GeoPoint;
use crate::text::str_eq;
use crate::ui::skia::Svg;
use crate::ui::view::search::QueryId;

verus! {

/// Transportation mode.
#[derive(Copy, Clone, Debug, PartialEq, Eq, Structural)]
pub enum Mode {
    Auto,
    Pedestrian,
}

impl Default for Mode {
    fn default() -> (mode: Self)
        ensures
            mode == Mode::Auto,
    {
        Mode::Auto
    }
}

impl Mode {
    /// The other transportation mode.
    pub open spec fn spec_toggled(self) -> Self {
        match self {
            Mode::Pedestrian => Mode::Auto,
            Mode::Auto => Mode::Pedestrian,
        }
    }

    /// Get the other transportation mode.
    pub fn toggled(self) -> (mode: Self)
        ensures
            mode == self.spec_toggled(),
    {
        match self {
            Mode::Pedestrian => Mode::Auto,
            Mode::Auto => Mode::Pedestrian,
        }
    }

    /// Icon of a transportation mode.
    pub open spec fn spec_svg(self) -> Svg {
        match self {
            Mode::Pedestrian => Svg::Pedestrian,
            Mode::Auto => Svg::Car,
        }
    }

    /// Get the icon for this transportation mode.
    pub fn svg(self) -> (svg: Svg)
        ensures
            svg == self.spec_svg(),
    {
        match self {
            Mode::Pedestrian => Svg::Pedestrian,
            Mode::Auto => Svg::Car,
        }
    }
}

/// Routing query.
#[derive(Copy, Clone, Debug, PartialEq, Eq, Structural)]
pub struct RoutingQuery {
    pub id: QueryId,
    pub origin: GeoPoint,
    pub target: GeoPoint,
    pub mode: Mode,
}

impl RoutingQuery {
    pub fn new(id: QueryId, origin: GeoPoint, target: GeoPoint, mode: Mode) -> (query: Self)
        ensures
            query == (RoutingQuery { id, origin, target, mode }),
    {
        RoutingQuery { id, origin, target, mode }
    }
}

/// Subsection of a route.
#[derive(Debug)]
pub struct Segment {
    pub points: Vec<GeoPoint>,
    /// Navigation instruction.
    pub instruction: String,
    /// Complete trip time in seconds.
    pub time: u64,
    /// Complete trip length in meters.
    pub length: u32,
}

/// Routing result.
#[derive(Debug)]
pub struct Route {
    /// Trip segments.
    pub segments: Vec<Segment>,
    /// Complete trip time in seconds.
    pub time: u64,
    /// Complete trip length in meters.
    pub length: u32,
    /// Transportation mode.
    pub mode: Mode,
}

/// Routing query update event.
#[derive(Debug)]
pub enum RoutingUpdate {
    /// New query results available.
    Results(Route),
    /// Valhalla online routing is done, no more results will be delivered.
    ValhallaApiDone,
}

/// Reaction to a routing query update.
#[derive(Debug)]
pub enum RouterAction {
    /// Nothing needs to be done.
    Wait,
    /// Tell the user that there is no route.
    NoRoute,
    /// Show this route on the map.
    Show(Route),
}

/// Reaction to a changed server URL.
#[derive(Copy, Clone, Debug, PartialEq, Eq, Structural)]
pub enum UrlChange {
    /// The URL did not change.
    Unchanged,
    /// Stop using the server.
    Stop,
    /// Start using the new server.
    Restart,
}

/// Reaction to a server URL.
pub open spec fn url_change(current: Seq<char>, url: Seq<char>) -> UrlChange {
    if current == url {
        UrlChange::Unchanged
    } else if url.len() == 0 {
        UrlChange::Stop
    } else {
        UrlChange::Restart
    }
}

/// Multi-provider router
pub struct Router {
    valhalla_url: String,
    results: Vec<Route>,
    last_query: QueryId,
    valhalla_api_routing: bool,
}

/// Contents of a router.
pub struct RouterView {
    pub valhalla_url: Seq<char>,
    pub results: Seq<Route>,
    pub last_query: QueryId,
    pub valhalla_api_routing: bool,
}

impl View for Router {
    type V = RouterView;

    closed spec fn view(&self) -> RouterView {
        RouterView {
            valhalla_url: self.valhalla_url@,
            results: self.results@,
            last_query: self.last_query,
            valhalla_api_routing: self.valhalla_api_routing,
        }
    }
}

/// Results after an update.
pub open spec fn updated_results(results: Seq<Route>, update: RoutingUpdate) -> Seq<Route> {
    match update {
        RoutingUpdate::Results(route) => results.push(route),
        RoutingUpdate::ValhallaApiDone => results,
    }
}

/// Route with the shortest trip time.
pub open spec fn is_shortest(results: Seq<Route>, route: Route) -> bool {
    &&& results.contains(route)
    &&& forall|i: int| 0 <= i < results.len() ==> route.time <= (#[trigger] results[i]).time
}

impl Router {
    pub fn new(valhalla_url: String, last_query: QueryId) -> (router: Self)
        ensures
            router@ == (RouterView {
                valhalla_url: valhalla_url@,
                results: Seq::empty(),
                last_query,
                valhalla_api_routing: false,
            }),
    {
        Router { valhalla_url, results: Vec::new(), last_query, valhalla_api_routing: false }
    }

    /// Start tracking a routing query.
    pub fn route(&mut self, query: RoutingQuery)
        ensures
            final(self)@ == (RouterView {
                last_query: query.id,
                valhalla_api_routing: true,
                results: Seq::empty(),
                ..old(self)@
            }),
    {
        self.last_query = query.id;
        self.valhalla_api_routing = true;
        self.results.clear();
    }

    /// Check if routing is in progress.
    pub fn routing(&self) -> (routing: bool)
        ensures
            routing == self@.valhalla_api_routing,
    {
        self.valhalla_api_routing
    }

    /// Handle new routing results.
    ///
    /// Events for old queries are ignored. Once all routers are done, the
    /// shortest route is shown.
    pub fn update(&mut self, id: QueryId, update: RoutingUpdate) -> (action: RouterAction)
        ensures
            id != old(self)@.last_query ==> action is Wait && final(self)@ == old(self)@,
            id == old(self)@.last_query ==> {
                let results = updated_results(old(self)@.results, update);
                let routing = old(self)@.valhalla_api_routing && update is Results;
                &&& final(self)@.valhalla_url == old(self)@.valhalla_url
                &&& final(self)@.last_query == old(self)@.last_query
                &&& final(self)@.valhalla_api_routing == routing
                &&& routing ==> action is Wait && final(self)@.results == results
                &&& !routing ==> final(self)@.results == Seq::<Route>::empty()
                &&& !routing && results.len() == 0 ==> action is NoRoute
                &&& !routing && results.len() > 0 ==> (action matches RouterAction::Show(route)
                    && is_shortest(results, route))
            },
    {
        // Ignore events for old queries.
        if id != self.last_query {
            return RouterAction::Wait;
        }

        match update {
            // Update routing results.
            RoutingUpdate::Results(route) => self.results.push(route),
            // Mark current Valhalla API routing as done.
            RoutingUpdate::ValhallaApiDone => self.valhalla_api_routing = false,
        }

        // Once all routers are done, show the route.
        if self.routing() {
            return RouterAction::Wait;
        }
        if self.results.len() == 0 {
            proof {
                assert(self.results@ =~= Seq::<Route>::empty());
            }
            return RouterAction::NoRoute;
        }

        // Extract shortest route from all results.
        let mut shortest: usize = 0;
        let mut i: usize = 1;
        while i < self.results.len()
            invariant
                shortest < i <= self.results.len(),
                forall|j: int|
                    0 <= j < i ==> self.results[shortest as int].time <= (
                    #[trigger] self.results[j]).time,
            decreases self.results.len() - i,
        {
            if self.results[i].time < self.results[shortest].time {
                shortest = i;
            }
            i += 1;
        }
        let ghost results = self.results@;
        let route = self.results.swap_remove(shortest);
        self.results.clear();
        proof {
            assert(results[shortest as int] == route);
        }
        RouterAction::Show(route)
    }

    /// Handle config updates.
    pub fn update_config(&mut self, valhalla_url: &str) -> (change: UrlChange)
        ensures
            change == url_change(old(self)@.valhalla_url, valhalla_url@),
            final(self)@ == (RouterView { valhalla_url: valhalla_url@, ..old(self)@ }),
    {
        // Restart Valhalla API routing engine on URL change.
        if str_eq(self.valhalla_url.as_str(), valhalla_url) {
            return UrlChange::Unchanged;
        }
        self.valhalla_url = valhalla_url.to_owned();
        if valhalla_url.is_empty() {
            UrlChange::Stop
        } else {
            UrlChange::Restart
        }
    }
}

/// The shown route is one of the results, and none of them takes less time.
pub proof fn law_shown_route_is_fastest(results: Seq<Route>, route: Route, i: int)
    requires
        is_shortest(results, route),
        0 <= i < results.len(),
    ensures
        results.contains(route),
        !(results[i].time < route.time),
{
}

/// There is a fastest route as soon as there is any route.
pub proof fn law_fastest_route_exists(results: Seq<Route>)
    requires
        results.len() > 0,
    ensures
        exists|route: Route| is_shortest(results, route),
    decreases results.len(),
{
    if results.len() == 1 {
        assert(results.contains(results[0]));
        assert(is_shortest(results, results[0]));
    } else {
        let rest = results.drop_last();
        law_fastest_route_exists(rest);
        let best = choose|route: Route| is_shortest(rest, route);
        let last = results.last();
        assert(results.contains(last));
        let j = choose|j: int| 0 <= j < rest.len() && rest[j] == best;
        assert(results[j] == best);
        let route = if last.time < best.time {
            last
        } else {
            best
        };
        assert forall|i: int| 0 <= i < results.len() implies route.time <= (
        #[trigger] results[i]).time by {
            if i < rest.len() {
                assert(rest[i] == results[i]);
            }
        }
        assert(is_shortest(results, route));
    }
}

/// Results are kept until all of them are there.
pub proof fn law_results_are_collected(results: Seq<Route>, route: Route)
    ensures
        updated_results(results, RoutingUpdate::Results(route)).len() == results.len() + 1,
        updated_results(results, RoutingUpdate::Results(route)).last() == route,
        updated_results(results, RoutingUpdate::Results(route)).drop_last() == results,
        updated_results(results, RoutingUpdate::ValhallaApiDone) == results,
{
    assert(results.push(route).drop_last() =~= results);
}

/// Services are only touched by a different URL, which stops them if it is empty.
pub proof fn law_url_changes(current: Seq<char>, url: Seq<char>)
    ensures
        url_change(current, url) is Unchanged <==> current == url,
        url_change(current, url) is Stop <==> current != url && url.len() == 0,
        url_change(url, url) is Unchanged,
{
}

/// Both modes have their own icon, and toggling switches between them.
pub proof fn law_modes(mode: Mode)
    ensures
        mode.spec_toggled() != mode,
        mode.spec_toggled().spec_toggled() == mode,
        mode.spec_svg() == Svg::Car <==> mode == Mode::Auto,
        mode.spec_svg() == Svg::Pedestrian <==> mode == Mode::Pedestrian,
{
}

} // verus!
