//! Search UI view.

use vstd::prelude::*;
use vstd::std_specs::convert::FromSpecImpl;

use crate::geocoder::{
    best_first, Geocoder, GeocoderView, QueryResult, ReverseQuery, SearchQuery,
};
use crate::geometry::{GeoPoint, Point, Size};
use crate::router::{Mode, Router, RouterView, RoutingQuery};
use crate::text::{
    chars_of, is_space, law_trimmed_text_has_no_outer_whitespace,
    law_trimming_only_removes_whitespace, str_eq, trim, trimmed,
};
use crate::ui::list::{EntryList, SUB_PIXELS};
use crate::ui::skia::Svg;
use crate::ui::text_field::{press_action, TextField, TextFieldView, TouchState};
use crate::ui::touch::{TouchPoint, TouchSlot, TouchSlots};
use crate::ui::view::download::in_sub_pixels;
use crate::ui::view::View as UiView;
use crate::ui::{Button, Layout};

verus! {

/// Next free ID of a search query.
pub open spec fn next_id(id: u64) -> u64 {
    ((id + 1) % 0x1_0000_0000_0000_0000) as u64
}

/// Unique ID of a search query.
#[derive(Copy, Clone, Debug, PartialEq, Eq, Structural)]
pub struct QueryId(pub u64);

impl QueryId {
    /// Take the next free ID from a counter.
    pub fn new(next_query_id: &mut u64) -> (id: Self)
        ensures
            id == QueryId(*old(next_query_id)),
            *final(next_query_id) == next_id(*old(next_query_id)),
    {
        let id = QueryId(*next_query_id);
        *next_query_id = next_query_id.wrapping_add(1);
        id
    }
}

/// Routing origin point source.
#[derive(Copy, Clone, Debug, PartialEq, Eq, Structural)]
pub enum RouteOrigin {
    GeoPoint(GeoPoint),
    Gps,
}

impl From<GeoPoint> for RouteOrigin {
    fn from(point: GeoPoint) -> (origin: Self) {
        RouteOrigin::GeoPoint(point)
    }
}

impl FromSpecImpl<GeoPoint> for RouteOrigin {
    open spec fn obeys_from_spec() -> bool {
        true
    }

    open spec fn from_spec(point: GeoPoint) -> RouteOrigin {
        RouteOrigin::GeoPoint(point)
    }
}

/// Number of occurrences of a character.
pub open spec fn occurrences(s: Seq<char>, c: char) -> int
    decreases s.len(),
{
    if s.len() == 0 {
        0
    } else {
        occurrences(s.drop_last(), c) + if s.last() == c {
            1int
        } else {
            0
        }
    }
}

/// Zoom level necessary to make an address fully or mostly visible.
pub open spec fn address_zoom(address: Seq<char>) -> u8 {
    let commas = occurrences(address, ',');
    if commas == 0 {
        6
    } else if commas == 1 {
        7
    } else if commas <= 3 {
        11
    } else {
        18
    }
}

/// Get zoom level necessary to make an address fully or mostly visible.
pub fn zoom_from_address(address: &str) -> (zoom: u8)
    ensures
        zoom == address_zoom(address@),
{
    let chars = chars_of(address);
    let mut commas: usize = 0;
    let mut i: usize = 0;
    while i < chars.len()
        invariant
            i <= chars.len(),
            commas <= i,
            commas == occurrences(chars@.take(i as int), ','),
        decreases chars.len() - i,
    {
        proof {
            assert(chars@.take(i + 1).drop_last() =~= chars@.take(i as int));
        }
        if chars[i] == ',' {
            commas += 1;
        }
        i += 1;
    }
    proof {
        assert(chars@.take(i as int) =~= chars@);
    }
    if commas == 0 {
        6
    } else if commas == 1 {
        7
    } else if commas <= 3 {
        11
    } else {
        18
    }
}

/// Entity type and distance of a search result.
pub open spec fn entity_text_of(entity_type: Seq<char>, distance: Option<Seq<char>>) -> Seq<char> {
    match distance {
        Some(distance) => entity_type + " · "@ + distance,
        None => entity_type,
    }
}

/// Write the entity type and distance of a search result.
pub fn entity_text(entity_type: &str, distance: Option<&str>) -> (text: String)
    ensures
        text@ == entity_text_of(
            entity_type@,
            match distance {
                Some(distance) => Some(distance@),
                None => None,
            },
        ),
{
    let mut text = entity_type.to_owned();
    if let Some(distance) = distance {
        text.append(" · ");
        text.append(distance);
    }
    text
}

/// Intention of a touch sequence.
#[derive(Copy, Clone, Debug, PartialEq, Eq, Structural)]
pub enum TouchAction {
    SearchField,
    CancelRoute,
    RouteMode,
    RouteGps,
    Search,
    Config,
    Back,
    Drag,
    Tap,
}

/// Reaction to the motion of a touch point.
#[derive(Copy, Clone, Debug, PartialEq, Eq, Structural)]
pub enum TouchMotion {
    /// Nothing needs to be done.
    Ignored,
    /// Scroll the results, if the slot is far enough from its starting point.
    Drag { slot: TouchSlot, old_point: TouchPoint },
    /// Forward the motion to the search field.
    SearchField,
}

/// Request for a new route.
#[derive(Copy, Clone, Debug, PartialEq, Eq, Structural)]
pub struct RouteRequest {
    pub query: RoutingQuery,
    /// The route should be updated from GPS.
    pub is_gps_route: bool,
}

/// Reaction to the release of a touch point.
#[derive(Debug)]
pub enum TouchRelease {
    /// Nothing needs to be done.
    Nothing,
    /// Show a search result on the map.
    Goto { point: GeoPoint, zoom: u8 },
    /// Show a different view.
    Show(UiView),
    /// Clear the route on the map.
    CancelRoute,
    /// Submit a routing query.
    Route(RouteRequest),
    /// Submit a search query, or just clear the POI on the map without one.
    Search(Option<SearchQuery>),
    /// Forward the release to the search field.
    SearchField,
}

/// Origin and target of a route.
#[derive(Copy, Clone, Debug, PartialEq, Eq, Structural)]
pub struct ActiveRoute {
    pub origin: RouteOrigin,
    pub target: GeoPoint,
}

/// Physical dimensions of the view.
#[derive(Copy, Clone, Debug, PartialEq, Eq, Structural)]
pub struct SearchLayout {
    pub layout: Layout,
    /// Height of the results.
    pub result_height: i32,
    /// Space between the results.
    pub result_padding: i32,
    /// Padding around the content of a result.
    pub inside_padding: i32,
    /// Size of the routing button inside of a result.
    pub routing_button_size: Size,
}

impl SearchLayout {
    /// All elements have a valid position.
    pub open spec fn has_positions(self) -> bool {
        let layout = self.layout;
        &&& layout.has_space(2)
        &&& 2 * layout.button_size.height <= layout.size.height
        &&& 3 * (layout.button_size.height + layout.padding) <= i32::MAX
    }

    /// All elements have a valid position, with space for the search field.
    pub open spec fn valid(self) -> bool {
        let layout = self.layout;
        &&& self.has_positions()
        &&& 2 * layout.button_size.width + 4 * layout.padding <= layout.size.width
    }

    /// The results and their buttons have a valid position.
    pub open spec fn has_results(self) -> bool {
        &&& self.layout.has_list(self.result_height as int, self.result_padding as int)
        &&& self.routing_button_size.height <= self.result_height
        &&& self.routing_button_size.width + 2 * self.layout.padding <= self.layout.size.width
        &&& 0 <= self.inside_padding
    }

    /// List of all results.
    pub open spec fn list(self) -> EntryList {
        self.layout.entry_list(self.result_height as int, self.result_padding as int)
    }

    /// Position of a button in the bottom right corner.
    pub open spec fn grid_button(self, column: int, row: int) -> Point {
        let layout = self.layout;
        Point {
            x: (layout.size.width - (column + 1) * (layout.button_size.width + layout.padding))
                as i32,
            y: (layout.size.height - (row + 1) * (layout.button_size.height + layout.padding))
                as i32,
        }
    }

    /// Position of the search button.
    pub open spec fn search_button(self) -> Point {
        Point { x: self.layout.padding, y: self.grid_button(0, 0).y }
    }

    /// Position of the search field.
    pub open spec fn search_field(self) -> Point {
        Point {
            x: (2 * self.layout.padding + self.layout.button_size.width) as i32,
            y: self.grid_button(0, 0).y,
        }
    }

    /// Size of the search field.
    pub open spec fn search_field_size(self) -> Size {
        Size {
            width: (self.layout.size.width - 2 * self.layout.button_size.width - 4
                * self.layout.padding) as u32,
            height: self.layout.button_size.height,
        }
    }

    /// Position of the routing button relative to a result.
    pub open spec fn routing_button(self) -> Point {
        Point {
            x: (self.list().width - self.routing_button_size.width - self.inside_padding) as i32,
            y: ((self.result_height - self.routing_button_size.height) / 2) as i32,
        }
    }

    proof fn lemma_rows(self)
        ensures
            ({
                let step = self.layout.button_size.height + self.layout.padding;
                &&& 1 * step == step
                &&& 2 * step == step + step
                &&& 3 * step == step + step + step
                &&& (0 + 1) * step == step
                &&& (1 + 1) * step == step + step
                &&& (2 + 1) * step == step + step + step
            }),
    {
        let step = self.layout.button_size.height + self.layout.padding;
        assert(1 * step == step && 2 * step == step + step && 3 * step == step + step + step)
            by (nonlinear_arith);
    }

    /// Get the position of the search button.
    pub fn search_button_point(&self) -> (point: Point)
        requires
            self.has_positions(),
        ensures
            point == self.search_button(),
    {
        proof {
            self.lemma_rows();
        }
        let layout = &self.layout;
        let y: i32 = (layout.size.height - layout.button_size.height) as i32 - layout.padding;
        Point::new(layout.padding, y)
    }

    /// Get the position of the back button.
    pub fn back_button_point(&self) -> (point: Point)
        requires
            self.has_positions(),
        ensures
            point == self.grid_button(0, 0),
    {
        proof {
            self.lemma_rows();
            self.layout.lemma_steps();
        }
        self.layout.first_button_point()
    }

    /// Get the position of the config button.
    pub fn config_button_point(&self) -> (point: Point)
        requires
            self.has_positions(),
        ensures
            point == self.grid_button(0, 1),
    {
        proof {
            self.lemma_rows();
            self.layout.lemma_steps();
        }
        let layout = &self.layout;
        let x: i32 = (layout.size.width - layout.button_size.width) as i32 - layout.padding;
        let y: i32 = (layout.size.height - layout.button_size.height * 2) as i32 - layout.padding
            * 2;
        Point::new(x, y)
    }

    /// Get the position of the GPS location button.
    pub fn gps_button_point(&self) -> (point: Point)
        requires
            self.has_positions(),
        ensures
            point == self.grid_button(1, 1),
    {
        proof {
            self.lemma_rows();
            self.layout.lemma_steps();
        }
        let config = self.config_button_point();
        let width: i32 = self.layout.button_size.width as i32;
        Point::new(config.x - width - self.layout.padding, config.y)
    }

    /// Get the position of the route cancellation button.
    pub fn cancel_route_button_point(&self) -> (point: Point)
        requires
            self.has_positions(),
        ensures
            point == self.grid_button(0, 2),
    {
        proof {
            self.lemma_rows();
            self.layout.lemma_steps();
        }
        let config = self.config_button_point();
        let height: i32 = self.layout.button_size.height as i32;
        Point::new(config.x, config.y - height - self.layout.padding)
    }

    /// Get the position of the route travel mode button.
    pub fn route_mode_button_point(&self) -> (point: Point)
        requires
            self.has_positions(),
        ensures
            point == self.grid_button(1, 2),
    {
        proof {
            self.lemma_rows();
            self.layout.lemma_steps();
        }
        Point::new(self.gps_button_point().x, self.cancel_route_button_point().y)
    }

    /// Get the position of the search text field.
    pub fn search_field_point(&self) -> (point: Point)
        requires
            self.has_positions(),
        ensures
            point == self.search_field(),
    {
        proof {
            self.lemma_rows();
        }
        let search_button = self.search_button_point();
        let width: i32 = self.layout.button_size.width as i32;
        Point::new(search_button.x + width + self.layout.padding, search_button.y)
    }

    /// Get the size of the search text field.
    pub fn field_size(&self) -> (size: Size)
        requires
            self.valid(),
        ensures
            size == self.search_field_size(),
    {
        let layout = &self.layout;
        let padding: u32 = layout.padding as u32;
        let width: u32 = layout.size.width - 2 * layout.button_size.width - 4 * padding;
        Size::new(width, layout.button_size.height)
    }

    /// Get the list of search results.
    pub fn result_list(&self) -> (list: EntryList)
        requires
            self.has_results(),
        ensures
            list == self.list(),
            list.valid(),
    {
        self.layout.place_list(self.result_height, self.result_padding)
    }

    /// Get the position of the routing button relative to a result.
    pub fn routing_button_point(&self) -> (point: Point)
        requires
            self.has_results(),
        ensures
            point == self.routing_button(),
    {
        let list = self.result_list();
        let size = self.routing_button_size;
        let x: i32 = (list.width - size.width as i32) - self.inside_padding;
        let y: i32 = (list.height - size.height as i32) / 2;
        Point::new(x, y)
    }
}

/// Buttons of the view.
#[derive(Copy, Clone, Debug, PartialEq, Eq, Structural)]
pub struct SearchButtons {
    pub cancel_route: Button,
    pub route_mode: Button,
    pub config: Button,
    pub search: Button,
    pub back: Button,
    pub gps: Button,
}

impl SearchButtons {
    /// All buttons have valid corners.
    pub open spec fn fit(self) -> bool {
        &&& self.cancel_route.fits()
        &&& self.route_mode.fits()
        &&& self.config.fits()
        &&& self.search.fits()
        &&& self.back.fits()
        &&& self.gps.fits()
    }

    /// All buttons have the same size.
    pub open spec fn have_size(self, size: Size) -> bool {
        &&& self.cancel_route.size == size
        &&& self.route_mode.size == size
        &&& self.config.size == size
        &&& self.search.size == size
        &&& self.back.size == size
        &&& self.gps.size == size
    }

    /// Buttons at the positions of a layout.
    pub open spec fn placed(self, layout: SearchLayout) -> Self {
        SearchButtons {
            cancel_route: Button { point: layout.grid_button(0, 2), ..self.cancel_route },
            route_mode: Button { point: layout.grid_button(1, 2), ..self.route_mode },
            config: Button { point: layout.grid_button(0, 1), ..self.config },
            search: Button { point: layout.search_button(), ..self.search },
            back: Button { point: layout.grid_button(0, 0), ..self.back },
            gps: Button { point: layout.grid_button(1, 1), ..self.gps },
        }
    }

    /// Buttons with a different size.
    pub open spec fn resized(self, size: Size) -> Self {
        SearchButtons {
            cancel_route: Button { size, ..self.cancel_route },
            route_mode: Button { size, ..self.route_mode },
            config: Button { size, ..self.config },
            search: Button { size, ..self.search },
            back: Button { size, ..self.back },
            gps: Button { size, ..self.gps },
        }
    }

    /// Buttons of a new view.
    pub open spec fn initial(layout: SearchLayout) -> Self {
        let point = Point { x: 0, y: 0 };
        let size = layout.layout.button_size;
        SearchButtons {
            cancel_route: Button { point, size, svg: Svg::CancelRoute },
            route_mode: Button { point, size, svg: Svg::Car },
            config: Button { point, size, svg: Svg::Config },
            search: Button { point, size, svg: Svg::Search },
            back: Button { point, size, svg: Svg::ArrowLeft },
            gps: Button { point, size, svg: Svg::Gps },
        }.placed(layout)
    }

    /// Update the position of all buttons.
    fn place(&mut self, layout: &SearchLayout)
        requires
            layout.has_positions(),
        ensures
            *final(self) == old(self).placed(*layout),
    {
        self.cancel_route.set_point(layout.cancel_route_button_point());
        self.route_mode.set_point(layout.route_mode_button_point());
        self.config.set_point(layout.config_button_point());
        self.search.set_point(layout.search_button_point());
        self.back.set_point(layout.back_button_point());
        self.gps.set_point(layout.gps_button_point());
    }

    /// Update the size of all buttons.
    fn resize(&mut self, size: Size)
        ensures
            *final(self) == old(self).resized(size),
    {
        self.cancel_route.set_size(size);
        self.route_mode.set_size(size);
        self.config.set_size(size);
        self.search.set_size(size);
        self.back.set_size(size);
        self.gps.set_size(size);
    }

    /// Buttons of the layout's size fit at the layout's positions.
    proof fn lemma_placed_fit(self, layout: SearchLayout)
        requires
            layout.has_positions(),
            self.have_size(layout.layout.button_size),
        ensures
            self.placed(layout).fit(),
    {
        layout.lemma_rows();
        layout.layout.lemma_steps();
    }
}

/// Search view state.
pub struct SearchViewState {
    pub geocoder: GeocoderView,
    pub router: RouterView,
    pub next_query_id: u64,
    pub last_query: Seq<char>,
    pub reference_point: GeoPoint,
    pub reference_zoom: u8,
    pub pending_reverse: bool,
    pub active_route: Option<ActiveRoute>,
    pub route_origin: Option<RouteOrigin>,
    pub route_mode: Mode,
    pub gps: Option<GeoPoint>,
    pub buttons: SearchButtons,
    pub search_field: TextFieldView,
    pub error: Seq<char>,
    pub layout: SearchLayout,
    pub slots: Map<i32, TouchSlot>,
    pub action: TouchAction,
    pub keyboard_focused: bool,
    pub search_focused: bool,
    pub ime_focused: bool,
    pub dirty: bool,
}

/// Geocoder without results, which tracks a new query.
pub open spec fn tracking(geocoder: GeocoderView, id: u64, searching: bool) -> GeocoderView {
    GeocoderView {
        last_query: QueryId(id),
        photon_searching: searching,
        nlp_searching: searching,
        results: Seq::empty(),
        ..geocoder
    }
}

impl SearchViewState {
    /// Current search results.
    pub open spec fn results(self) -> Seq<QueryResult> {
        if self.router.valhalla_api_routing {
            Seq::empty()
        } else {
            self.geocoder.results
        }
    }

    /// The config and GPS buttons are visible.
    pub open spec fn shows_extra_buttons(self) -> bool {
        &&& self.results().len() == 0
        &&& !self.geocoder.searching()
        &&& !self.router.valhalla_api_routing
    }

    /// The route cancellation and travel mode buttons are visible.
    pub open spec fn shows_route_buttons(self) -> bool {
        &&& self.shows_extra_buttons()
        &&& self.route_origin is Some || self.active_route is Some
    }

    /// All visible buttons.
    pub open spec fn visible_buttons(self) -> Seq<Button> {
        let route = if self.shows_route_buttons() {
            seq![self.buttons.cancel_route, self.buttons.route_mode]
        } else {
            Seq::empty()
        };
        let gps = if self.shows_extra_buttons() && self.gps is Some {
            seq![self.buttons.gps]
        } else {
            Seq::empty()
        };
        let config = if self.shows_extra_buttons() {
            seq![self.buttons.config]
        } else {
            Seq::empty()
        };
        route + gps + config + seq![self.buttons.search, self.buttons.back]
    }

    /// Search status displayed without results.
    pub open spec fn status_text(self) -> Seq<char> {
        if self.router.valhalla_api_routing {
            "Calculating Route …"@
        } else if self.geocoder.searching() {
            "Searching for \""@ + self.last_query + "\" …"@
        } else if self.route_origin is Some {
            "Enter Destination"@
        } else if self.error.len() == 0 {
            "Search for an Address or POI"@
        } else {
            self.error
        }
    }

    /// State after the search field's text was submitted.
    ///
    /// The search is reset without a query.
    pub open spec fn submitted(self, blank: bool) -> Self {
        SearchViewState {
            last_query: self.search_field.text,
            dirty: true,
            geocoder: tracking(self.geocoder, self.next_query_id, !blank),
            next_query_id: next_id(self.next_query_id),
            ..self
        }
    }

    /// State after a reverse geocoding search was started.
    pub open spec fn reversed(self, text: Seq<char>) -> Self {
        SearchViewState {
            last_query: text,
            pending_reverse: true,
            dirty: true,
            geocoder: tracking(self.geocoder, self.next_query_id, true),
            next_query_id: next_id(self.next_query_id),
            search_field: self.search_field.with_text(Seq::empty()),
            ..self
        }
    }

    /// Coordinates of a route's origin.
    pub open spec fn origin_point(self, origin: RouteOrigin) -> Option<GeoPoint> {
        match origin {
            RouteOrigin::GeoPoint(point) => Some(point),
            RouteOrigin::Gps => self.gps,
        }
    }

    /// State after a new route calculation was started.
    ///
    /// Routing is reset if the GPS signal of the origin was lost.
    pub open spec fn routed(self, origin: RouteOrigin) -> Self {
        if self.origin_point(origin) is None {
            SearchViewState { route_origin: None, dirty: true, ..self }
        } else {
            SearchViewState {
                search_field: self.search_field.with_text(Seq::empty()),
                route_origin: None,
                dirty: true,
                geocoder: tracking(self.geocoder, self.next_query_id, false),
                router: RouterView {
                    last_query: QueryId(next_id(self.next_query_id)),
                    valhalla_api_routing: true,
                    results: Seq::empty(),
                    ..self.router
                },
                next_query_id: next_id(next_id(self.next_query_id)),
                ..self
            }
        }
    }

    /// Request for a new route calculation.
    pub open spec fn route_request(self, origin: RouteOrigin, target: GeoPoint) -> Option<
        RouteRequest,
    > {
        match self.origin_point(origin) {
            Some(point) => Some(
                RouteRequest {
                    query: RoutingQuery {
                        id: QueryId(next_id(self.next_query_id)),
                        origin: point,
                        target,
                        mode: self.route_mode,
                    },
                    is_gps_route: origin is Gps,
                },
            ),
            None => None,
        }
    }

    /// State with an origin for routing, ready for its target.
    pub open spec fn with_route_origin(self, origin: RouteOrigin) -> Self {
        SearchViewState {
            route_origin: Some(origin),
            search_field: self.search_field.with_text(Seq::empty()),
            geocoder: tracking(self.geocoder, self.next_query_id, false),
            next_query_id: next_id(self.next_query_id),
            dirty: true,
            ..self
        }
    }

    /// Search field with the view's focus.
    pub open spec fn focused_field(self, focused: bool) -> TextFieldView {
        self.search_field.with_keyboard_focus(focused && self.keyboard_focused).with_ime_focus(
            focused && self.ime_focused,
        )
    }

    /// State of the newly activated view.
    ///
    /// The input is focused, unless the view was opened for reverse geocoding.
    pub open spec fn entered(self) -> Self {
        SearchViewState {
            error: Seq::empty(),
            pending_reverse: false,
            search_field: self.focused_field(!self.pending_reverse),
            search_focused: !self.pending_reverse,
            ..self
        }
    }

    /// A pixel is part of the search field.
    pub open spec fn on_field(self, point: Point) -> bool {
        let field = self.search_field;
        &&& field.point.x <= point.x < field.point.x + field.size.width
        &&& field.point.y <= point.y < field.point.y + field.size.height
    }

    /// Goal of a touch sequence starting at a point.
    pub open spec fn action_at(self, point: Point) -> TouchAction {
        if self.on_field(point) {
            TouchAction::SearchField
        } else if self.shows_route_buttons() && self.buttons.cancel_route.covers(point) {
            TouchAction::CancelRoute
        } else if self.shows_route_buttons() && self.buttons.route_mode.covers(point) {
            TouchAction::RouteMode
        } else if self.shows_extra_buttons() && self.gps is Some && self.buttons.gps.covers(point) {
            TouchAction::RouteGps
        } else if self.shows_extra_buttons() && self.buttons.config.covers(point) {
            TouchAction::Config
        } else if self.buttons.search.covers(point) {
            TouchAction::Search
        } else if self.buttons.back.covers(point) {
            TouchAction::Back
        } else {
            TouchAction::Tap
        }
    }

    /// Search field after a touch press.
    pub open spec fn pressed_field(
        self,
        time: u32,
        near: bool,
        max_multi_tap: u32,
        offset: usize,
    ) -> TextFieldView {
        let field = self.focused_field(true);
        TextFieldView {
            touch_state: TouchState {
                action: press_action(field.touch_state, max_multi_tap, time, near),
                last_time: time,
                start_offset: offset,
            },
            ..field
        }
    }

    /// State with a pressed touch point.
    pub open spec fn pressed(
        self,
        slot: i32,
        time: u32,
        point: TouchPoint,
        near: bool,
        max_multi_tap: u32,
        offset: usize,
    ) -> Self {
        if self.slots.dom().len() > 0 {
            self
        } else {
            SearchViewState {
                search_focused: self.on_field(point.pixel),
                search_field: if self.on_field(point.pixel) {
                    self.pressed_field(time, near, max_multi_tap, offset)
                } else {
                    self.focused_field(false)
                },
                action: self.action_at(point.pixel),
                slots: self.slots.insert(slot, TouchSlot { start: point, point }),
                ..self
            }
        }
    }

    /// State after a touch point was moved.
    pub open spec fn with_motion(self, slot: i32, point: TouchPoint) -> Self {
        if self.slots.contains_key(slot) {
            SearchViewState {
                slots: self.slots.insert(
                    slot,
                    TouchSlot { start: self.slots[slot].start, point },
                ),
                ..self
            }
        } else {
            self
        }
    }

    /// Index of the result at a point, and whether its button was pressed.
    pub open spec fn tapped(self, point: Point<i64>, scroll: int, space: int) -> Option<
        (int, bool),
    > {
        let list = self.layout.list();
        match list.hit(point, scroll, space) {
            Some((i, rest)) => if i < self.results().len() {
                let relative = Point {
                    x: (point.x - list.point.x * SUB_PIXELS) as i64,
                    y: (list.height * SUB_PIXELS + space - SUB_PIXELS - rest) as i64,
                };
                Some(
                    (
                        i,
                        in_sub_pixels(
                            self.layout.routing_button(),
                            self.layout.routing_button_size,
                            relative,
                        ),
                    ),
                )
            } else {
                None
            },
            None => None,
        }
    }

    /// State after a location was selected for routing.
    ///
    /// The first location is the route's origin, the second one its target.
    pub open spec fn with_location(self, origin: RouteOrigin) -> Self {
        match self.route_origin {
            Some(origin) => self.routed(origin),
            None => self.with_route_origin(origin),
        }
    }

    /// Reaction to a location selected for routing.
    pub open spec fn location_release(self, point: GeoPoint) -> TouchRelease {
        match self.route_origin {
            Some(origin) => match self.route_request(origin, point) {
                Some(request) => TouchRelease::Route(request),
                None => TouchRelease::Nothing,
            },
            None => TouchRelease::Nothing,
        }
    }

    /// State with the other transportation mode.
    pub open spec fn with_toggled_mode(self) -> Self {
        SearchViewState {
            route_mode: self.route_mode.spec_toggled(),
            buttons: SearchButtons {
                route_mode: Button {
                    svg: self.route_mode.spec_toggled().spec_svg(),
                    ..self.buttons.route_mode
                },
                ..self.buttons
            },
            dirty: true,
            ..self
        }
    }

    /// State after an action was executed at a released point.
    pub open spec fn executed(self, point: TouchPoint, scroll: int, space: int) -> Self {
        match self.action {
            TouchAction::Tap => match self.tapped(point.sub_pixel, scroll, space) {
                Some((index, true)) => self.with_location(
                    RouteOrigin::GeoPoint(self.results()[index].point),
                ),
                _ => self,
            },
            TouchAction::CancelRoute => if self.shows_route_buttons()
                && self.buttons.cancel_route.covers(point.pixel) {
                self.without_route()
            } else {
                self
            },
            TouchAction::RouteMode => if self.shows_route_buttons()
                && self.buttons.route_mode.covers(point.pixel) {
                self.with_changed_mode()
            } else {
                self
            },
            TouchAction::RouteGps => if self.shows_extra_buttons() && self.buttons.gps.covers(
                point.pixel,
            ) && self.gps is Some {
                self.with_location(RouteOrigin::Gps)
            } else {
                self
            },
            TouchAction::Search => if self.buttons.search.covers(point.pixel) {
                self.submitted(trimmed(self.search_field.text).len() == 0)
            } else {
                self
            },
            _ => self,
        }
    }

    /// Reaction to a released point.
    pub open spec fn reacts(
        self,
        point: TouchPoint,
        scroll: int,
        space: int,
        release: TouchRelease,
    ) -> bool {
        match self.action {
            TouchAction::Tap => match self.tapped(point.sub_pixel, scroll, space) {
                Some((index, true)) => release == self.location_release(
                    self.results()[index].point,
                ),
                Some((index, false)) => release == (TouchRelease::Goto {
                    point: self.results()[index].point,
                    zoom: address_zoom(self.results()[index].address@),
                }),
                None => release == TouchRelease::Nothing,
            },
            TouchAction::Config => release == (if self.shows_extra_buttons()
                && self.buttons.config.covers(point.pixel) {
                TouchRelease::Show(UiView::Download)
            } else {
                TouchRelease::Nothing
            }),
            TouchAction::CancelRoute => release == (if self.shows_route_buttons()
                && self.buttons.cancel_route.covers(point.pixel) {
                TouchRelease::CancelRoute
            } else {
                TouchRelease::Nothing
            }),
            TouchAction::RouteMode => release == (if self.shows_route_buttons()
                && self.buttons.route_mode.covers(point.pixel) {
                self.mode_release()
            } else {
                TouchRelease::Nothing
            }),
            TouchAction::RouteGps => release == (if self.shows_extra_buttons()
                && self.buttons.gps.covers(point.pixel) && self.gps is Some {
                self.location_release(self.gps->0)
            } else {
                TouchRelease::Nothing
            }),
            TouchAction::Search => if self.buttons.search.covers(point.pixel) {
                release matches TouchRelease::Search(query) && self.is_submission(query)
            } else {
                release == TouchRelease::Nothing
            },
            TouchAction::Back => release == (if self.buttons.back.covers(point.pixel) {
                TouchRelease::Show(UiView::MapView)
            } else {
                TouchRelease::Nothing
            }),
            TouchAction::SearchField => release == TouchRelease::SearchField,
            TouchAction::Drag => release == TouchRelease::Nothing,
        }
    }

    /// Query for the search field's text.
    pub open spec fn is_submission(self, query: Option<SearchQuery>) -> bool {
        let blank = trimmed(self.search_field.text).len() == 0;
        match query {
            Some(query) => {
                &&& !blank
                &&& query.id == QueryId(self.next_query_id)
                &&& query.text@ == self.search_field.text
                &&& query.reference_point == Some(self.reference_point)
                &&& query.reference_zoom == Some(self.reference_zoom)
            },
            None => blank,
        }
    }

    /// State with the other transportation mode, which also changes the active
    /// route.
    pub open spec fn with_changed_mode(self) -> Self {
        match self.active_route {
            Some(route) => self.with_toggled_mode().routed(route.origin),
            None => self.with_toggled_mode(),
        }
    }

    /// Reaction to a changed transportation mode.
    pub open spec fn mode_release(self) -> TouchRelease {
        match self.active_route {
            Some(route) => match self.with_toggled_mode().route_request(
                route.origin,
                route.target,
            ) {
                Some(request) => TouchRelease::Route(request),
                None => TouchRelease::Nothing,
            },
            None => TouchRelease::Nothing,
        }
    }

    /// State without a route.
    pub open spec fn without_route(self) -> Self {
        SearchViewState { active_route: None, route_origin: None, dirty: true, ..self }
    }
}

/// Search UI view.
pub struct SearchView {
    geocoder: Geocoder,
    router: Router,
    next_query_id: u64,
    last_query: String,
    reference_point: GeoPoint,
    reference_zoom: u8,
    pending_reverse: bool,
    active_route: Option<ActiveRoute>,
    route_origin: Option<RouteOrigin>,
    route_mode: Mode,
    gps: Option<GeoPoint>,
    buttons: SearchButtons,
    search_field: TextField,
    error: String,
    layout: SearchLayout,
    slots: TouchSlots,
    action: TouchAction,
    keyboard_focused: bool,
    search_focused: bool,
    ime_focused: bool,
    dirty: bool,
}

impl View for SearchView {
    type V = SearchViewState;

    closed spec fn view(&self) -> SearchViewState {
        SearchViewState {
            geocoder: self.geocoder@,
            router: self.router@,
            next_query_id: self.next_query_id,
            last_query: self.last_query@,
            reference_point: self.reference_point,
            reference_zoom: self.reference_zoom,
            pending_reverse: self.pending_reverse,
            active_route: self.active_route,
            route_origin: self.route_origin,
            route_mode: self.route_mode,
            gps: self.gps,
            buttons: self.buttons,
            search_field: self.search_field@,
            error: self.error@,
            layout: self.layout,
            slots: self.slots@,
            action: self.action,
            keyboard_focused: self.keyboard_focused,
            search_focused: self.search_focused,
            ime_focused: self.ime_focused,
            dirty: self.dirty,
        }
    }
}

/// A text field has valid corners.
pub open spec fn field_fits(field: TextFieldView) -> bool {
    &&& field.size.width <= i32::MAX
    &&& field.size.height <= i32::MAX
    &&& field.point.x + field.size.width <= i32::MAX
    &&& field.point.y + field.size.height <= i32::MAX
}

/// Compare two optional points.
fn same_point(a: Option<GeoPoint>, b: Option<GeoPoint>) -> (same: bool)
    ensures
        same == (a == b),
{
    match (a, b) {
        (Some(a), Some(b)) => a == b,
        (None, None) => true,
        _ => false,
    }
}

/// Compare two optional routes.
fn same_route(a: Option<ActiveRoute>, b: Option<ActiveRoute>) -> (same: bool)
    ensures
        same == (a == b),
{
    match (a, b) {
        (Some(a), Some(b)) => a == b,
        (None, None) => true,
        _ => false,
    }
}

impl SearchView {
    /// The search results, buttons, text field, and touch slots are valid.
    pub closed spec fn well_formed(&self) -> bool {
        &&& best_first(self.geocoder@.results)
        &&& self.buttons.fit()
        &&& self.search_field@.valid()
        &&& field_fits(self.search_field@)
        &&& self.slots.well_formed()
    }

    pub fn new(photon_url: String, valhalla_url: String, layout: SearchLayout) -> (view: Self)
        requires
            layout.valid(),
        ensures
            view.well_formed(),
            ({
                let field = view@.search_field;
                &&& field.text == Seq::<char>::empty()
                &&& field.placeholder == "Search…"@
                &&& field.selection is None
                &&& field.point == layout.search_field()
                &&& field.size == layout.search_field_size()
                &&& !field.keyboard_focused
                &&& !field.ime_focused
                &&& field.dirty
                &&& view@ == (SearchViewState {
                    geocoder: GeocoderView {
                        photon_url: photon_url@,
                        results: Seq::empty(),
                        last_query: QueryId(0),
                        photon_searching: false,
                        nlp_searching: false,
                    },
                    router: RouterView {
                        valhalla_url: valhalla_url@,
                        results: Seq::empty(),
                        last_query: QueryId(1),
                        valhalla_api_routing: false,
                    },
                    next_query_id: 2,
                    last_query: Seq::empty(),
                    reference_point: GeoPoint { lat: 0, lon: 0 },
                    reference_zoom: 0,
                    pending_reverse: false,
                    active_route: None,
                    route_origin: None,
                    route_mode: Mode::Auto,
                    gps: None,
                    buttons: SearchButtons::initial(layout),
                    search_field: field,
                    error: Seq::empty(),
                    layout,
                    slots: Map::empty(),
                    action: TouchAction::Tap,
                    keyboard_focused: false,
                    search_focused: true,
                    ime_focused: false,
                    dirty: true,
                })
            }),
    {
        let mut next_query_id: u64 = 0;
        let geocoder = Geocoder::new(photon_url, QueryId::new(&mut next_query_id));
        let router = Router::new(valhalla_url, QueryId::new(&mut next_query_id));

        // Initialize UI elements.
        let origin = Point::new(0, 0);
        let size = layout.layout.button_size;
        let mut buttons = SearchButtons {
            cancel_route: Button::new(origin, size, Svg::CancelRoute),
            route_mode: Button::new(origin, size, Mode::Auto.svg()),
            config: Button::new(origin, size, Svg::Config),
            search: Button::new(origin, size, Svg::Search),
            back: Button::new(origin, size, Svg::ArrowLeft),
            gps: Button::new(origin, size, Svg::Gps),
        };
        proof {
            buttons.lemma_placed_fit(layout);
            layout.lemma_rows();
        }
        buttons.place(&layout);
        let mut search_field = TextField::new(layout.search_field_point(), layout.field_size());
        search_field.set_placeholder("Search…");

        let last_query = String::new();
        let error = String::new();
        proof {
            assert(last_query@ =~= Seq::<char>::empty());
            assert(error@ =~= Seq::<char>::empty());
        }
        SearchView {
            geocoder,
            router,
            next_query_id,
            last_query,
            reference_point: GeoPoint::new(0, 0),
            reference_zoom: 0,
            pending_reverse: false,
            active_route: None,
            route_origin: None,
            route_mode: Mode::Auto,
            gps: None,
            buttons,
            search_field,
            error,
            layout,
            slots: TouchSlots::new(),
            action: TouchAction::Tap,
            keyboard_focused: false,
            search_focused: true,
            ime_focused: false,
            dirty: true,
        }
    }

    /// Get mutable access to the geocoder.
    pub fn geocoder_mut(&mut self) -> (geocoder: &mut Geocoder)
        requires
            old(self).well_formed(),
        ensures
            geocoder@ == old(self)@.geocoder,
            best_first(geocoder@.results),
            best_first(final(geocoder)@.results) ==> final(self).well_formed(),
            final(self)@ == (SearchViewState { geocoder: final(geocoder)@, ..old(self)@ }),
    {
        &mut self.geocoder
    }

    /// Get mutable access to the routing engine.
    pub fn router_mut(&mut self) -> (router: &mut Router)
        requires
            old(self).well_formed(),
        ensures
            router@ == old(self)@.router,
            final(self).well_formed(),
            final(self)@ == (SearchViewState { router: final(router)@, ..old(self)@ }),
    {
        &mut self.router
    }

    /// Get mutable access to the search field.
    pub fn search_field_mut(&mut self) -> (field: &mut TextField)
        requires
            old(self).well_formed(),
        ensures
            field@ == old(self)@.search_field,
            field@.valid(),
            final(field)@.valid() && final(field)@.point == field@.point && final(field)@.size
                == field@.size ==> final(self).well_formed(),
            final(self)@ == (SearchViewState { search_field: final(field)@, ..old(self)@ }),
    {
        &mut self.search_field
    }

    /// Mark view for a redraw.
    pub fn set_dirty(&mut self)
        requires
            old(self).well_formed(),
        ensures
            final(self).well_formed(),
            final(self)@ == (SearchViewState { dirty: true, ..old(self)@ }),
    {
        self.dirty = true;
    }

    /// Update the search reference point.
    pub fn set_reference(&mut self, point: GeoPoint, zoom: u8)
        requires
            old(self).well_formed(),
        ensures
            final(self).well_formed(),
            final(self)@ == (SearchViewState {
                reference_point: point,
                reference_zoom: zoom,
                ..old(self)@
            }),
    {
        self.reference_point = point;
        self.reference_zoom = zoom;
    }

    /// Update the current GPS location.
    pub fn set_gps(&mut self, point: Option<GeoPoint>)
        requires
            old(self).well_formed(),
        ensures
            final(self).well_formed(),
            final(self)@ == (SearchViewState {
                gps: point,
                dirty: old(self)@.dirty || old(self)@.gps != point,
                ..old(self)@
            }),
    {
        self.dirty = self.dirty || !same_point(self.gps, point);
        self.gps = point;
    }

    /// Set an error message indicating that an operation has failed.
    pub fn set_error(&mut self, error: &str)
        requires
            old(self).well_formed(),
        ensures
            final(self).well_formed(),
            final(self)@ == (SearchViewState {
                error: error@,
                dirty: old(self)@.dirty || old(self)@.error != error@,
                ..old(self)@
            }),
    {
        self.dirty = self.dirty || !str_eq(self.error.as_str(), error);
        self.error = error.to_owned();
    }

    /// Submit current search field text for geocoding.
    ///
    /// Without any text, the search is just reset.
    pub fn submit_search(&mut self) -> (query: Option<SearchQuery>)
        requires
            old(self).well_formed(),
        ensures
            final(self).well_formed(),
            final(self)@ == old(self)@.submitted(trimmed(old(self)@.search_field.text).len() == 0),
            old(self)@.is_submission(query),
    {
        self.last_query = self.search_field.text().to_owned();
        self.dirty = true;
        let id = QueryId::new(&mut self.next_query_id);
        if trim(self.last_query.as_str()).as_str().is_empty() {
            // Reset search without query.
            self.geocoder.reset(id);
            None
        } else {
            // Submit background query.
            let mut query = SearchQuery::new(id, self.last_query.as_str());
            query.set_reference(self.reference_point, self.reference_zoom);
            self.geocoder.search(&query);
            Some(query)
        }
    }

    /// Run reverse geocoding search.
    ///
    /// The text describes the point's coordinates.
    pub fn reverse(&mut self, point: GeoPoint, zoom: u8, text: &str) -> (query: ReverseQuery)
        requires
            old(self).well_formed(),
        ensures
            final(self).well_formed(),
            query == (ReverseQuery { id: QueryId(old(self)@.next_query_id), point, zoom }),
            final(self)@ == old(self)@.reversed(text@),
    {
        self.last_query = text.to_owned();
        self.pending_reverse = true;
        self.dirty = true;

        // Submit background query.
        let id = QueryId::new(&mut self.next_query_id);
        let query = ReverseQuery::new(id, point, zoom);
        self.geocoder.reverse(&query);

        self.clear_text();
        query
    }

    /// Remove the search field's text.
    fn clear_text(&mut self)
        requires
            old(self).well_formed(),
        ensures
            final(self).well_formed(),
            final(self)@ == (SearchViewState {
                search_field: old(self)@.search_field.with_text(Seq::empty()),
                ..old(self)@
            }),
    {
        let text = String::new();
        proof {
            assert(text@ =~= Seq::<char>::empty());
        }
        self.search_field.set_text(text);
    }

    /// Set the origin and target of the current route, if one is active.
    pub fn set_route(&mut self, route: Option<ActiveRoute>)
        requires
            old(self).well_formed(),
        ensures
            final(self).well_formed(),
            final(self)@ == (SearchViewState {
                active_route: route,
                dirty: old(self)@.dirty || old(self)@.active_route != route,
                ..old(self)@
            }),
    {
        self.dirty = self.dirty || !same_route(self.active_route, route);
        self.active_route = route;
    }

    /// Update the transportation mode.
    pub fn set_route_mode(&mut self, mode: Mode)
        requires
            old(self).well_formed(),
        ensures
            final(self).well_formed(),
            final(self)@ == (if old(self)@.route_mode == mode {
                old(self)@
            } else {
                old(self)@.with_toggled_mode()
            }),
    {
        if self.route_mode != mode {
            self.toggle_mode();
        }
    }

    /// Switch to the other transportation mode.
    fn toggle_mode(&mut self)
        requires
            old(self).well_formed(),
        ensures
            final(self).well_formed(),
            final(self)@ == old(self)@.with_toggled_mode(),
    {
        self.route_mode = self.route_mode.toggled();
        self.buttons.route_mode.set_svg(self.route_mode.svg());
        self.dirty = true;
    }

    /// Start a new route calculation.
    pub fn route(&mut self, origin: RouteOrigin, target: GeoPoint) -> (request: Option<RouteRequest>)
        requires
            old(self).well_formed(),
        ensures
            final(self).well_formed(),
            request == old(self)@.route_request(origin, target),
            final(self)@ == old(self)@.routed(origin),
    {
        // Determine route origin and whether the route should be updated from GPS.
        let (origin, is_gps_route) = match origin {
            RouteOrigin::GeoPoint(origin) => (origin, false),
            RouteOrigin::Gps => match self.gps {
                Some(origin) => (origin, true),
                // Reset routing if GPS routing was requested but we lost the GPS signal.
                None => {
                    self.route_origin = None;
                    self.dirty = true;
                    return None;
                },
            },
        };

        self.clear_text();
        self.route_origin = None;
        self.dirty = true;

        let id = QueryId::new(&mut self.next_query_id);
        self.geocoder.reset(id);

        // Submit background query.
        let id = QueryId::new(&mut self.next_query_id);
        let query = RoutingQuery::new(id, origin, target, self.route_mode);
        self.router.route(query);
        Some(RouteRequest { query, is_gps_route })
    }

    /// Set origin for routing and start route target selection.
    pub fn set_route_origin(&mut self, origin: RouteOrigin)
        requires
            old(self).well_formed(),
        ensures
            final(self).well_formed(),
            final(self)@ == old(self)@.with_route_origin(origin),
    {
        self.route_origin = Some(origin);
        self.clear_text();
        let id = QueryId::new(&mut self.next_query_id);
        self.geocoder.reset(id);
        self.dirty = true;
    }

    /// Get current search results.
    pub fn results(&self) -> (results: &[QueryResult])
        ensures
            results@ == self@.results(),
    {
        let results = self.geocoder.results().as_slice();
        if self.router.routing() {
            let results = vstd::slice::slice_subrange(results, 0, 0);
            proof {
                assert(results@ =~= Seq::<QueryResult>::empty());
            }
            results
        } else {
            results
        }
    }

    /// Check whether the config/gps buttons should be rendered.
    pub fn show_extra_buttons(&self) -> (show: bool)
        ensures
            show == self@.shows_extra_buttons(),
    {
        self.results().len() == 0 && !self.geocoder.searching() && !self.router.routing()
    }

    /// Check whether the route cancellation/travel mode buttons should be
    /// rendered.
    pub fn show_route_buttons(&self) -> (show: bool)
        ensures
            show == self@.shows_route_buttons(),
    {
        self.show_extra_buttons() && (self.route_origin.is_some() || self.active_route.is_some())
    }

    /// Get all visible buttons.
    pub fn visible_buttons(&self) -> (buttons: Vec<Button>)
        ensures
            buttons@ == self@.visible_buttons(),
    {
        let mut buttons: Vec<Button> = Vec::new();
        if self.show_extra_buttons() {
            if self.show_route_buttons() {
                buttons.push(self.buttons.cancel_route);
                buttons.push(self.buttons.route_mode);
            }
            if self.gps.is_some() {
                buttons.push(self.buttons.gps);
            }
            buttons.push(self.buttons.config);
        }
        buttons.push(self.buttons.search);
        buttons.push(self.buttons.back);
        proof {
            assert(buttons@ =~= self@.visible_buttons());
        }
        buttons
    }

    /// Get the search status, unless there are any results.
    pub fn status(&self) -> (status: Option<String>)
        ensures
            match status {
                Some(status) => self@.results().len() == 0 && status@ == self@.status_text(),
                None => self@.results().len() > 0,
            },
    {
        if self.results().len() > 0 {
            return None;
        }
        let status = if self.router.routing() {
            "Calculating Route …".to_owned()
        } else if self.geocoder.searching() {
            let mut status = "Searching for \"".to_owned();
            status.append(self.last_query.as_str());
            status.append("\" …");
            status
        } else if self.route_origin.is_some() {
            "Enter Destination".to_owned()
        } else if self.error.as_str().is_empty() {
            "Search for an Address or POI".to_owned()
        } else {
            self.error.clone()
        };
        Some(status)
    }

    /// Get the view's physical dimensions.
    pub fn layout(&self) -> (layout: SearchLayout)
        ensures
            layout == self@.layout,
    {
        self.layout
    }

    /// Get the index of the result at the specified location.
    ///
    /// This also returns whether the point is within the result's button. The
    /// point, scroll offset, and space between results are in sub-pixels.
    pub fn result_at(&self, point: Point<i64>, scroll: i64, space: i64) -> (result: Option<
        (usize, bool),
    >)
        requires
            self@.layout.has_results(),
            -0x1000_0000_0000_0000 <= point.x <= 0x1000_0000_0000_0000,
            -0x1000_0000_0000_0000 <= point.y <= 0x1000_0000_0000_0000,
            0 <= scroll <= 0x1000_0000_0000_0000,
            0 <= space <= 0x1000_0000_0000_0000,
        ensures
            match result {
                Some((index, pressed)) => {
                    &&& self@.tapped(point, scroll as int, space as int) == Some(
                        (index as int, pressed),
                    )
                    &&& index < self@.results().len()
                },
                None => self@.tapped(point, scroll as int, space as int) is None,
            },
    {
        let list = self.layout.result_list();
        let (index, relative) = match list.entry_at(point, scroll, space) {
            Some(entry) => entry,
            None => return None,
        };
        if index >= self.results().len() {
            return None;
        }

        // Check whether the tap is within the result's button.
        let button = self.layout.routing_button_point();
        let size = self.layout.routing_button_size;
        let button_pressed = button.x as i64 * SUB_PIXELS <= relative.x && relative.x < (
        button.x as i64 + size.width as i64) * SUB_PIXELS && button.y as i64 * SUB_PIXELS
            <= relative.y && relative.y < (button.y as i64 + size.height as i64) * SUB_PIXELS;

        Some((index, button_pressed))
    }

    /// Get maximum viewport offset.
    pub fn max_scroll_offset(&self) -> (offset: usize)
        requires
            self@.layout.has_results(),
            0 <= self@.layout.list().point.y,
            self@.results().len() * (self@.layout.result_height + self@.layout.result_padding)
                + self@.layout.layout.padding <= usize::MAX,
        ensures
            offset == self@.layout.list().scroll_limit(
                self@.results().len() as int,
                self@.layout.layout.padding as int,
            ),
    {
        let list = self.layout.result_list();
        list.max_scroll_offset(self.results().len(), self.layout.layout.padding)
    }

    /// Start a new frame.
    pub fn begin_frame(&mut self)
        requires
            old(self).well_formed(),
        ensures
            final(self).well_formed(),
            final(self)@ == (SearchViewState { dirty: false, ..old(self)@ }),
    {
        self.dirty = false;
    }

    /// Check whether the view requires a redraw.
    ///
    /// This does not include pending velocities.
    pub fn dirty(&self) -> (dirty: bool)
        ensures
            dirty == (self@.dirty || self@.search_field.dirty),
    {
        self.dirty || self.search_field.dirty()
    }

    /// Indicate this view was newly activated.
    pub fn enter(&mut self)
        requires
            old(self).well_formed(),
        ensures
            final(self).well_formed(),
            final(self)@ == old(self)@.entered(),
    {
        self.error = String::new();
        proof {
            assert(self.error@ =~= Seq::<char>::empty());
        }

        // Focus input on enter, unless view was opened for reverse geocoding.
        let focused = !self.pending_reverse;
        self.pending_reverse = false;
        self.focus_field(focused);
    }

    /// Update the focus of the search field.
    fn focus_field(&mut self, focused: bool)
        requires
            old(self).well_formed(),
        ensures
            final(self).well_formed(),
            final(self)@ == (SearchViewState {
                search_field: old(self)@.focused_field(focused),
                search_focused: focused,
                ..old(self)@
            }),
    {
        self.search_field.set_keyboard_focus(focused && self.keyboard_focused);
        self.search_field.set_ime_focus(focused && self.ime_focused);
        self.search_focused = focused;
    }

    /// Update the view's physical size.
    pub fn set_size(&mut self, size: Size)
        requires
            old(self).well_formed(),
            (SearchLayout {
                layout: Layout { size, ..old(self)@.layout.layout },
                ..old(self)@.layout
            }).valid(),
            old(self)@.buttons.have_size(old(self)@.layout.layout.button_size),
        ensures
            final(self).well_formed(),
            ({
                let layout = SearchLayout {
                    layout: Layout { size, ..old(self)@.layout.layout },
                    ..old(self)@.layout
                };
                final(self)@ == (SearchViewState {
                    layout,
                    dirty: true,
                    buttons: old(self)@.buttons.placed(layout),
                    search_field: old(self)@.search_field.with_point(
                        layout.search_field(),
                    ).with_size(layout.search_field_size()),
                    ..old(self)@
                })
            }),
    {
        self.layout.layout.size = size;
        self.dirty = true;
        proof {
            self.buttons.lemma_placed_fit(self.layout);
            self.layout.lemma_rows();
        }

        // Update UI elements.
        self.buttons.place(&self.layout);
        self.search_field.set_point(self.layout.search_field_point());
        self.search_field.set_size(self.layout.field_size());
    }

    /// Update the view's physical dimensions.
    ///
    /// The search field is as big as a button until the view is resized.
    pub fn set_scale_factor(&mut self, layout: SearchLayout, scale_changed: bool)
        requires
            old(self).well_formed(),
            layout.has_positions(),
        ensures
            final(self).well_formed(),
            final(self)@ == (SearchViewState {
                layout,
                dirty: true,
                buttons: old(self)@.buttons.resized(layout.layout.button_size).placed(layout),
                search_field: ({
                    let field = old(self)@.search_field.with_point(layout.search_field());
                    (TextFieldView {
                        dirty: field.dirty || scale_changed,
                        ..field
                    }).with_size(layout.layout.button_size)
                }),
                ..old(self)@
            }),
    {
        self.layout = layout;
        self.dirty = true;

        // Update UI elements.
        let size = layout.layout.button_size;
        self.buttons.resize(size);
        proof {
            self.buttons.lemma_placed_fit(layout);
            layout.lemma_rows();
        }
        self.buttons.place(&layout);
        self.search_field.set_point(layout.search_field_point());
        self.search_field.set_scale_factor(scale_changed);
        self.search_field.set_size(size);
    }

    /// Handle touch press.
    ///
    /// The text offset and distance to the last press are used for the search
    /// field.
    pub fn touch_down(
        &mut self,
        slot: i32,
        time: u32,
        point: TouchPoint,
        near: bool,
        max_multi_tap: u32,
        offset: usize,
    )
        requires
            old(self).well_formed(),
            old(self)@.slots.dom().len() == 0 && old(self)@.on_field(point.pixel)
                ==> old(self)@.search_field.touch_state.last_time + max_multi_tap <= u32::MAX,
        ensures
            final(self).well_formed(),
            final(self)@ == old(self)@.pressed(slot, time, point, near, max_multi_tap, offset),
    {
        // Only allow a single active touch slot.
        if self.slots.len() > 0 {
            return ;
        }

        // Determine goal of this touch sequence.
        let pixel = point.pixel;
        let extra_buttons = self.show_extra_buttons();
        let route_buttons = self.show_route_buttons();
        let on_field = self.search_field.contains(pixel);
        self.action = if on_field {
            TouchAction::SearchField
        } else if route_buttons && self.buttons.cancel_route.contains(pixel) {
            TouchAction::CancelRoute
        } else if route_buttons && self.buttons.route_mode.contains(pixel) {
            TouchAction::RouteMode
        } else if extra_buttons && self.gps.is_some() && self.buttons.gps.contains(pixel) {
            TouchAction::RouteGps
        } else if extra_buttons && self.buttons.config.contains(pixel) {
            TouchAction::Config
        } else if self.buttons.search.contains(pixel) {
            TouchAction::Search
        } else if self.buttons.back.contains(pixel) {
            TouchAction::Back
        } else {
            TouchAction::Tap
        };

        // Handle focus changes for search field input.
        self.focus_field(on_field);
        if on_field {
            self.search_field.touch_down(max_multi_tap, time, near, offset);
        }

        self.slots.press(slot, point);
    }

    /// Handle touch motion.
    pub fn touch_motion(&mut self, slot: i32, point: TouchPoint) -> (motion: TouchMotion)
        requires
            old(self).well_formed(),
        ensures
            final(self).well_formed(),
            final(self)@ == old(self)@.with_motion(slot, point),
            motion == (if !old(self)@.slots.contains_key(slot) {
                TouchMotion::Ignored
            } else if old(self)@.action == TouchAction::SearchField {
                TouchMotion::SearchField
            } else if old(self)@.action == TouchAction::Tap || old(self)@.action
                == TouchAction::Drag {
                TouchMotion::Drag {
                    slot: final(self)@.slots[slot],
                    old_point: old(self)@.slots[slot].point,
                }
            } else {
                TouchMotion::Ignored
            }),
    {
        // Ignore unknown touch slots.
        let (moved, old_point) = match self.slots.motion(slot, point) {
            Some(moved) => moved,
            None => return TouchMotion::Ignored,
        };

        match self.action {
            TouchAction::Tap | TouchAction::Drag => TouchMotion::Drag { slot: moved, old_point },
            TouchAction::SearchField => TouchMotion::SearchField,
            _ => TouchMotion::Ignored,
        }
    }

    /// Drag the results with a touch point.
    ///
    /// The tap distance limit must have been exceeded.
    pub fn drag(&mut self, scrolled: bool)
        requires
            old(self).well_formed(),
        ensures
            final(self).well_formed(),
            final(self)@ == (SearchViewState {
                action: TouchAction::Drag,
                dirty: old(self)@.dirty || scrolled,
                ..old(self)@
            }),
    {
        self.action = TouchAction::Drag;
        self.dirty = self.dirty || scrolled;
    }

    /// Select a location as origin or target of a route.
    pub fn select_location(&mut self, origin: RouteOrigin, target: GeoPoint) -> (release: TouchRelease)
        requires
            old(self).well_formed(),
        ensures
            final(self).well_formed(),
            final(self)@ == old(self)@.with_location(origin),
            release == old(self)@.location_release(target),
    {
        match self.route_origin {
            Some(origin) => match self.route(origin, target) {
                Some(request) => TouchRelease::Route(request),
                None => TouchRelease::Nothing,
            },
            None => {
                self.set_route_origin(origin);
                TouchRelease::Nothing
            },
        }
    }

    /// Handle a tap on a search result.
    pub fn tap_result(&mut self, index: usize, button_pressed: bool) -> (release: TouchRelease)
        requires
            old(self).well_formed(),
            index < old(self)@.results().len(),
        ensures
            final(self).well_formed(),
            ({
                let result = old(self)@.results()[index as int];
                if button_pressed {
                    &&& release == old(self)@.location_release(result.point)
                    &&& final(self)@ == old(self)@.with_location(
                        RouteOrigin::GeoPoint(result.point),
                    )
                } else {
                    &&& release == (TouchRelease::Goto {
                        point: result.point,
                        zoom: address_zoom(result.address@),
                    })
                    &&& final(self)@ == old(self)@
                }
            }),
    {
        let result = &self.results()[index];
        let point = result.point;
        if button_pressed {
            self.select_location(RouteOrigin::GeoPoint(point), point)
        } else {
            let zoom: u8 = zoom_from_address(result.address.as_str());
            TouchRelease::Goto { point, zoom }
        }
    }

    /// Handle touch release.
    ///
    /// The scroll offset and space between results are in sub-pixels.
    pub fn touch_up(&mut self, slot: i32, scroll: i64, space: i64) -> (release: TouchRelease)
        requires
            old(self).well_formed(),
            old(self)@.layout.has_results(),
            0 <= scroll <= 0x1000_0000_0000_0000,
            0 <= space <= 0x1000_0000_0000_0000,
            old(self)@.slots.contains_key(slot) ==> {
                let point = old(self)@.slots[slot].point.sub_pixel;
                &&& -0x1000_0000_0000_0000 <= point.x <= 0x1000_0000_0000_0000
                &&& -0x1000_0000_0000_0000 <= point.y <= 0x1000_0000_0000_0000
            },
        ensures
            final(self).well_formed(),
            ({
                let view = SearchViewState { slots: old(self)@.slots.remove(slot), ..old(self)@ };
                let point = old(self)@.slots[slot].point;
                if old(self)@.slots.contains_key(slot) {
                    &&& view.reacts(point, scroll as int, space as int, release)
                    &&& final(self)@ == view.executed(point, scroll as int, space as int)
                } else {
                    &&& release == TouchRelease::Nothing
                    &&& final(self)@ == view
                }
            }),
    {
        // Reset touch slot, ignoring unknown slots.
        match self.slots.release(slot) {
            Some(removed) => self.execute(removed.point, scroll, space),
            None => {
                proof {
                    assert(self.slots@.remove(slot) =~= self.slots@);
                }
                TouchRelease::Nothing
            },
        }
    }

    /// Dispatch tap actions on release.
    fn execute(&mut self, point: TouchPoint, scroll: i64, space: i64) -> (release: TouchRelease)
        requires
            old(self).well_formed(),
            old(self)@.layout.has_results(),
            0 <= scroll <= 0x1000_0000_0000_0000,
            0 <= space <= 0x1000_0000_0000_0000,
            -0x1000_0000_0000_0000 <= point.sub_pixel.x <= 0x1000_0000_0000_0000,
            -0x1000_0000_0000_0000 <= point.sub_pixel.y <= 0x1000_0000_0000_0000,
        ensures
            final(self).well_formed(),
            old(self)@.reacts(point, scroll as int, space as int, release),
            final(self)@ == old(self)@.executed(point, scroll as int, space as int),
    {
        match self.action {
            TouchAction::Tap => match self.result_at(point.sub_pixel, scroll, space) {
                Some((index, button_pressed)) => self.tap_result(index, button_pressed),
                None => TouchRelease::Nothing,
            },
            TouchAction::Config => {
                if self.show_extra_buttons() && self.buttons.config.contains(point.pixel) {
                    TouchRelease::Show(UiView::Download)
                } else {
                    TouchRelease::Nothing
                }
            },
            TouchAction::CancelRoute => {
                if self.show_route_buttons() && self.buttons.cancel_route.contains(point.pixel) {
                    self.active_route = None;
                    self.route_origin = None;
                    self.dirty = true;
                    TouchRelease::CancelRoute
                } else {
                    TouchRelease::Nothing
                }
            },
            TouchAction::RouteMode => {
                if self.show_route_buttons() && self.buttons.route_mode.contains(point.pixel) {
                    self.change_mode()
                } else {
                    TouchRelease::Nothing
                }
            },
            TouchAction::RouteGps => {
                if self.show_extra_buttons() && self.buttons.gps.contains(point.pixel) {
                    match self.gps {
                        Some(gps) => self.select_location(RouteOrigin::Gps, gps),
                        None => TouchRelease::Nothing,
                    }
                } else {
                    TouchRelease::Nothing
                }
            },
            TouchAction::Search => {
                if self.buttons.search.contains(point.pixel) {
                    TouchRelease::Search(self.submit_search())
                } else {
                    TouchRelease::Nothing
                }
            },
            TouchAction::Back => {
                if self.buttons.back.contains(point.pixel) {
                    TouchRelease::Show(UiView::MapView)
                } else {
                    TouchRelease::Nothing
                }
            },
            TouchAction::SearchField => TouchRelease::SearchField,
            TouchAction::Drag => TouchRelease::Nothing,
        }
    }

    /// Change the transportation mode.
    fn change_mode(&mut self) -> (release: TouchRelease)
        requires
            old(self).well_formed(),
        ensures
            final(self).well_formed(),
            release == old(self)@.mode_release(),
            final(self)@ == old(self)@.with_changed_mode(),
    {
        self.toggle_mode();

        // Resubmit route if one is already active.
        match self.active_route {
            Some(route) => match self.route(route.origin, route.target) {
                Some(request) => TouchRelease::Route(request),
                None => TouchRelease::Nothing,
            },
            None => TouchRelease::Nothing,
        }
    }

    /// Handle keyboard focus.
    pub fn keyboard_enter(&mut self)
        requires
            old(self).well_formed(),
        ensures
            final(self).well_formed(),
            final(self)@ == (SearchViewState {
                keyboard_focused: true,
                search_field: if old(self)@.search_focused {
                    old(self)@.search_field.with_keyboard_focus(true)
                } else {
                    old(self)@.search_field
                },
                ..old(self)@
            }),
    {
        self.keyboard_focused = true;

        if self.search_focused {
            self.search_field.set_keyboard_focus(true);
        }
    }

    /// Handle keyboard focus loss.
    pub fn keyboard_leave(&mut self)
        requires
            old(self).well_formed(),
        ensures
            final(self).well_formed(),
            final(self)@ == (SearchViewState {
                keyboard_focused: false,
                search_field: old(self)@.search_field.with_keyboard_focus(false),
                ..old(self)@
            }),
    {
        self.keyboard_focused = false;

        // Always remove focus, since it's idempotent anyway.
        self.search_field.set_keyboard_focus(false);
    }

    /// Handle IME focus.
    pub fn text_input_enter(&mut self)
        requires
            old(self).well_formed(),
        ensures
            final(self).well_formed(),
            final(self)@ == (SearchViewState {
                ime_focused: true,
                search_field: if old(self)@.search_focused {
                    old(self)@.search_field.with_ime_focus(true)
                } else {
                    old(self)@.search_field
                },
                ..old(self)@
            }),
    {
        self.ime_focused = true;

        if self.search_focused {
            self.search_field.set_ime_focus(true);
        }
    }

    /// Handle IME focus loss.
    pub fn text_input_leave(&mut self)
        requires
            old(self).well_formed(),
        ensures
            final(self).well_formed(),
            final(self)@ == (SearchViewState {
                ime_focused: false,
                search_field: old(self)@.search_field.with_ime_focus(false),
                ..old(self)@
            }),
    {
        self.ime_focused = false;

        // Always remove focus, since it's idempotent anyway.
        self.search_field.set_ime_focus(false);
    }

    /// Get current IME state.
    pub fn text_input_enabled(&self) -> (enabled: bool)
        ensures
            enabled == self@.search_focused,
    {
        self.search_focused
    }

    /// Handle config updates.
    pub fn update_config(&mut self, input_changed: bool)
        requires
            old(self).well_formed(),
        ensures
            final(self).well_formed(),
            final(self)@ == (SearchViewState {
                dirty: old(self)@.dirty || input_changed,
                ..old(self)@
            }),
    {
        self.dirty = self.dirty || input_changed;
    }
}

/// Selecting two locations starts a route from the first to the second one.
pub proof fn law_two_locations_start_route(view: SearchViewState, origin: GeoPoint, target: GeoPoint)
    requires
        view.route_origin is None,
    ensures
        view.location_release(origin) == TouchRelease::Nothing,
        ({
            let selected = view.with_location(RouteOrigin::GeoPoint(origin));
            let routing = selected.with_location(RouteOrigin::GeoPoint(target));
            &&& selected.location_release(target) matches TouchRelease::Route(request)
                && request.query.origin == origin && request.query.target == target
                && request.query.mode == view.route_mode && !request.is_gps_route
                && routing.router.last_query == request.query.id
            &&& routing.router.valhalla_api_routing
            &&& routing.route_origin is None
        }),
{
}

/// There are no search results and no additional buttons while a route is
/// calculated.
pub proof fn law_routing_hides_results(view: SearchViewState, origin: RouteOrigin)
    requires
        view.origin_point(origin) is Some,
    ensures
        view.routed(origin).results().len() == 0,
        !view.routed(origin).shows_extra_buttons(),
        !view.routed(origin).shows_route_buttons(),
{
}

/// Every query has a different ID than the ones before it, so results of old
/// queries are never mistaken for new ones.
pub proof fn law_new_query_has_new_id(view: SearchViewState, blank: bool, text: Seq<char>)
    requires
        view.next_query_id > view.geocoder.last_query.0,
        view.next_query_id < u64::MAX,
    ensures
        view.submitted(blank).geocoder.last_query.0 > view.geocoder.last_query.0,
        view.submitted(blank).next_query_id > view.submitted(blank).geocoder.last_query.0,
        view.reversed(text).geocoder.last_query.0 > view.geocoder.last_query.0,
        view.reversed(text).next_query_id > view.reversed(text).geocoder.last_query.0,
{
}

/// The text of the search field is searched as it is, unless it is blank. The
/// search starts with a fresh ID and without any results, in all geocoders.
pub proof fn law_submitted_text_is_searched(view: SearchViewState, query: Option<SearchQuery>)
    requires
        view.is_submission(query),
    ensures
        query is None <==> forall|i: int|
            0 <= i < view.search_field.text.len() ==> is_space(#[trigger] view.search_field.text[i]),
        ({
            let after = view.submitted(query is None);
            &&& after.geocoder.results.len() == 0
            &&& after.geocoder.searching() <==> query is Some
            &&& after.geocoder.photon_searching == after.geocoder.nlp_searching
            &&& after.last_query == view.search_field.text
            &&& after.search_field == view.search_field
            &&& query matches Some(query) ==> {
                &&& query.text@ == view.search_field.text
                &&& query.id == after.geocoder.last_query
                &&& query.reference_point == Some(view.reference_point)
                &&& query.reference_zoom == Some(view.reference_zoom)
            }
        }),
{
    let text = view.search_field.text;
    law_trimming_only_removes_whitespace(text);
    law_trimmed_text_has_no_outer_whitespace(text);
    let (start, end) = choose|start: int, end: int|
        {
            &&& 0 <= start <= end <= text.len()
            &&& trimmed(text) == #[trigger] text.subrange(start, end)
            &&& forall|i: int| 0 <= i < start ==> is_space(#[trigger] text[i])
            &&& forall|i: int| end <= i < text.len() ==> is_space(#[trigger] text[i])
        };
    if trimmed(text).len() > 0 {
        assert(trimmed(text).first() == text[start]);
        assert(!is_space(text[start]));
    }
}

/// Reverse searches show their text as the query, clear the search field, and
/// start with a fresh ID.
pub proof fn law_reverse_search_starts_empty(view: SearchViewState, text: Seq<char>)
    ensures
        ({
            let after = view.reversed(text);
            &&& after.geocoder.results.len() == 0
            &&& after.geocoder.photon_searching && after.geocoder.nlp_searching
            &&& after.geocoder.last_query == QueryId(view.next_query_id)
            &&& after.last_query == text
            &&& after.search_field.text.len() == 0
            &&& after.pending_reverse
        }),
{
}

/// Routes are requested exactly if the position of their origin is known, and the
/// router waits for the results of that request.
pub proof fn law_routes_need_origin(view: SearchViewState, origin: RouteOrigin, target: GeoPoint)
    ensures
        ({
            let request = view.route_request(origin, target);
            let after = view.routed(origin);
            &&& origin matches RouteOrigin::GeoPoint(point) ==> request is Some
                && request->0.query.origin == point
            &&& origin is Gps ==> (request is Some <==> view.gps is Some)
            &&& after.route_origin is None
            &&& request matches Some(request) ==> {
                &&& origin is Gps ==> Some(request.query.origin) == view.gps
                &&& request.is_gps_route <==> origin is Gps
                &&& request.query.target == target
                &&& request.query.mode == view.route_mode
                &&& after.router.last_query == request.query.id
                &&& after.router.valhalla_api_routing
                &&& after.router.results.len() == 0
                &&& after.geocoder.results.len() == 0 && !after.geocoder.searching()
                &&& after.geocoder.last_query != after.router.last_query
                &&& after.search_field.text.len() == 0
            }
            &&& request is None ==> after.router == view.router && after.geocoder == view.geocoder
        }),
{
}

/// Changing the mode recalculates the active route to the same target, and always
/// shows the icon of the new mode.
pub proof fn law_changed_mode_recalculates_route(view: SearchViewState)
    ensures
        ({
            let after = view.with_changed_mode();
            &&& after.route_mode != view.route_mode
            &&& after.route_mode == Mode::Auto <==> after.buttons.route_mode.svg == Svg::Car
            &&& after.route_mode == Mode::Pedestrian <==> after.buttons.route_mode.svg
                == Svg::Pedestrian
            &&& after.buttons.route_mode.point == view.buttons.route_mode.point
            &&& view.active_route is None ==> view.mode_release() == TouchRelease::Nothing
                && after.router == view.router
            &&& view.active_route matches Some(route) ==> match view.mode_release() {
                TouchRelease::Route(request) => {
                    &&& request.query.target == route.target
                    &&& request.query.mode == after.route_mode
                    &&& request.is_gps_route == (route.origin is Gps)
                    &&& after.router.last_query == request.query.id
                },
                _ => route.origin is Gps && view.gps is None,
            }
        }),
{
}

/// Search and back buttons are always there. All others are only shown without
/// results and searches, the GPS button only with a GPS signal, and the route
/// buttons only with a route or its origin.
pub proof fn law_visible_buttons(view: SearchViewState)
    ensures
        ({
            let buttons = view.visible_buttons();
            let idle = view.geocoder.results.len() == 0 && !view.geocoder.photon_searching
                && !view.geocoder.nlp_searching && !view.router.valhalla_api_routing;
            let route = idle && (view.route_origin is Some || view.active_route is Some);
            let gps = idle && view.gps is Some;
            &&& buttons.contains(view.buttons.search) && buttons.contains(view.buttons.back)
            &&& route ==> buttons.contains(view.buttons.cancel_route) && buttons.contains(
                view.buttons.route_mode,
            )
            &&& gps ==> buttons.contains(view.buttons.gps)
            &&& idle ==> buttons.contains(view.buttons.config)
            &&& buttons.len() == 2 + (if route {
                2int
            } else {
                0
            }) + (if gps {
                1int
            } else {
                0
            }) + (if idle {
                1int
            } else {
                0
            })
        }),
{
    let buttons = view.visible_buttons();
    let count = buttons.len() as int;
    assert(buttons[count - 1] == view.buttons.back);
    assert(buttons[count - 2] == view.buttons.search);
    if view.shows_extra_buttons() {
        assert(buttons[count - 3] == view.buttons.config);
        if view.gps is Some {
            assert(buttons[count - 4] == view.buttons.gps);
        }
    }
    if view.shows_route_buttons() {
        assert(buttons[0] == view.buttons.cancel_route);
        assert(buttons[1] == view.buttons.route_mode);
    }
}

/// Only visible buttons can be pressed, and only inside of their area.
pub proof fn law_only_visible_buttons_are_pressed(view: SearchViewState, point: Point)
    ensures
        ({
            let action = view.action_at(point);
            let buttons = view.visible_buttons();
            &&& action is CancelRoute ==> buttons.contains(view.buttons.cancel_route)
                && view.buttons.cancel_route.covers(point)
            &&& action is RouteMode ==> buttons.contains(view.buttons.route_mode)
                && view.buttons.route_mode.covers(point)
            &&& action is RouteGps ==> buttons.contains(view.buttons.gps) && view.buttons.gps.covers(
                point,
            )
            &&& action is Config ==> buttons.contains(view.buttons.config)
                && view.buttons.config.covers(point)
            &&& action is Search ==> view.buttons.search.covers(point)
            &&& action is Back ==> view.buttons.back.covers(point)
            &&& action is SearchField <==> view.on_field(point)
            &&& !(action is Drag)
        }),
{
    law_visible_buttons(view);
}

/// A pressed point which belongs to a single visible element starts the action of
/// this element.
pub proof fn law_pressed_buttons_have_an_effect(view: SearchViewState, point: Point)
    requires
        !view.on_field(point),
    ensures
        ({
            let action = view.action_at(point);
            let cancel = view.shows_route_buttons() && view.buttons.cancel_route.covers(point);
            let mode = view.shows_route_buttons() && view.buttons.route_mode.covers(point);
            let gps = view.shows_extra_buttons() && view.gps is Some && view.buttons.gps.covers(point);
            let config = view.shows_extra_buttons() && view.buttons.config.covers(point);
            let search = view.buttons.search.covers(point);
            let back = view.buttons.back.covers(point);
            &&& cancel && !mode && !gps && !config && !search && !back ==> action is CancelRoute
            &&& mode && !cancel && !gps && !config && !search && !back ==> action is RouteMode
            &&& gps && !cancel && !mode && !config && !search && !back ==> action is RouteGps
            &&& config && !cancel && !mode && !gps && !search && !back ==> action is Config
            &&& search && !cancel && !mode && !gps && !config && !back ==> action is Search
            &&& back && !cancel && !mode && !gps && !config && !search ==> action is Back
            &&& !cancel && !mode && !gps && !config && !search && !back ==> action is Tap
        }),
{
}

/// Buttons only react if they are released where they were pressed. Results show
/// their location, unless their button is pressed.
pub proof fn law_releases_show_results(
    view: SearchViewState,
    point: TouchPoint,
    scroll: int,
    space: int,
    release: TouchRelease,
)
    requires
        view.reacts(point, scroll, space, release),
    ensures
        view.action is Back ==> (release is Show <==> view.buttons.back.covers(point.pixel)),
        view.action is Back && release is Show ==> release == TouchRelease::Show(UiView::MapView),
        view.action is Config && release is Show ==> release == TouchRelease::Show(
            UiView::Download,
        ),
        view.action is Config && view.shows_extra_buttons() ==> (release is Show
            <==> view.buttons.config.covers(point.pixel)),
        view.action is CancelRoute && view.shows_route_buttons() ==> (release is CancelRoute
            <==> view.buttons.cancel_route.covers(point.pixel)),
        view.action is CancelRoute && release is CancelRoute ==> view.executed(
            point,
            scroll,
            space,
        ).active_route is None && view.executed(point, scroll, space).route_origin is None,
        view.action is Search ==> (release is Search <==> view.buttons.search.covers(point.pixel)),
        view.action is SearchField ==> release is SearchField,
        view.action is Drag ==> release is Nothing && view.executed(point, scroll, space) == view,
        release is Goto ==> view.action is Tap,
        view.action is Tap ==> match view.tapped(point.sub_pixel, scroll, space) {
            Some((index, false)) => release == TouchRelease::Goto {
                point: view.results()[index].point,
                zoom: address_zoom(view.results()[index].address@),
            } && view.executed(point, scroll, space) == view,
            Some((index, true)) => !(release is Goto),
            None => release is Nothing && view.executed(point, scroll, space) == view,
        },
        view.action is RouteGps && view.shows_extra_buttons() && view.gps is Some
            && view.buttons.gps.covers(point.pixel) && view.route_origin is None ==> view.executed(
            point,
            scroll,
            space,
        ).route_origin == Some(RouteOrigin::Gps),
{
}

/// The status shows what the view is busy with, and errors only if it is idle.
pub proof fn law_status_shows_progress(view: SearchViewState)
    ensures
        ({
            let text = view.status_text();
            let searching = view.geocoder.photon_searching || view.geocoder.nlp_searching;
            let routing = view.router.valhalla_api_routing;
            &&& routing ==> text == "Calculating Route …"@
            &&& !routing && searching ==> text == "Searching for \""@ + view.last_query + "\" …"@
            &&& !routing && !searching && view.route_origin is Some ==> text
                == "Enter Destination"@
            &&& !routing && !searching && view.route_origin is None ==> (view.error.len() > 0
                ==> text == view.error) && (view.error.len() == 0 ==> text
                == "Search for an Address or POI"@)
        }),
{
}

/// More detailed addresses are shown at a higher zoom level.
pub proof fn law_detailed_addresses_are_zoomed_in(a: Seq<char>, b: Seq<char>)
    ensures
        occurrences(a, ',') <= occurrences(b, ',') ==> address_zoom(a) <= address_zoom(b),
        occurrences(a, ',') == 0 ==> address_zoom(a) == 6,
        occurrences(a, ',') == 1 ==> address_zoom(a) == 7,
        2 <= occurrences(a, ',') <= 3 ==> address_zoom(a) == 11,
        occurrences(a, ',') >= 4 ==> address_zoom(a) == 18,
{
    lemma_occurrences(a, ',');
    lemma_occurrences(b, ',');
}

proof fn lemma_occurrences(s: Seq<char>, c: char)
    ensures
        0 <= occurrences(s, c),
    decreases s.len(),
{
    if s.len() > 0 {
        lemma_occurrences(s.drop_last(), c);
    }
}

/// Every occurrence of a character counts once.
pub proof fn law_occurrences_add_up(a: Seq<char>, b: Seq<char>, c: char, other: char)
    ensures
        occurrences(a + b, c) == occurrences(a, c) + occurrences(b, c),
        occurrences(seq![other], c) == (if other == c {
            1int
        } else {
            0
        }),
    decreases b.len(),
{
    assert(seq![other].drop_last() =~= Seq::<char>::empty());
    assert(occurrences(Seq::<char>::empty(), c) == 0);
    if b.len() == 0 {
        assert(a + b =~= a);
    } else {
        law_occurrences_add_up(a, b.drop_last(), c, other);
        assert((a + b).drop_last() =~= a + b.drop_last());
    }
}

/// Opening the view focuses the search field if there is any focus, unless it was
/// opened for a reverse search, and clears the last error.
pub proof fn law_opened_view_is_focused(view: SearchViewState)
    ensures
        ({
            let after = view.entered();
            &&& after.error.len() == 0
            &&& !after.pending_reverse
            &&& after.search_focused <==> !view.pending_reverse
            &&& after.search_field.keyboard_focused <==> view.keyboard_focused
                && !view.pending_reverse
            &&& after.search_field.ime_focused <==> view.ime_focused && !view.pending_reverse
            &&& after.search_field.text == view.search_field.text
            &&& after.geocoder == view.geocoder && after.router == view.router
        }),
{
}

/// Pressing the search field focuses it, and pressing anywhere else removes its
/// focus. Further fingers are ignored.
pub proof fn law_press_changes_focus(
    view: SearchViewState,
    slot: i32,
    time: u32,
    point: TouchPoint,
    near: bool,
    max_multi_tap: u32,
    offset: usize,
)
    requires
        view.slots == Map::<i32, TouchSlot>::empty(),
    ensures
        ({
            let after = view.pressed(slot, time, point, near, max_multi_tap, offset);
            &&& after.search_focused <==> after.action is SearchField
            &&& after.search_focused <==> view.on_field(point.pixel)
            &&& after.search_field.keyboard_focused <==> view.keyboard_focused
                && after.search_focused
            &&& after.search_field.ime_focused <==> view.ime_focused && after.search_focused
            &&& after.search_field.text == view.search_field.text
            &&& after.slots.dom() == set![slot]
            &&& after.slots[slot] == TouchSlot { start: point, point }
            &&& after.pressed(slot, time, point, near, max_multi_tap, offset) == after
        }),
{
    let after = view.pressed(slot, time, point, near, max_multi_tap, offset);
    assert(view.slots.dom() =~= Set::<i32>::empty());
    assert(after.slots.dom() =~= set![slot]);
    assert(after.slots.dom().len() == 1) by {
        assert(set![slot] =~= Set::<i32>::empty().insert(slot));
    }
}

/// Moving fingers keep their starting point, and unknown ones are ignored.
pub proof fn law_motion_keeps_start(view: SearchViewState, slot: i32, other: i32, point: TouchPoint)
    requires
        slot != other,
    ensures
        ({
            let after = view.with_motion(slot, point);
            &&& view.slots.contains_key(slot) ==> after.slots[slot] == TouchSlot {
                start: view.slots[slot].start,
                point,
            }
            &&& !view.slots.contains_key(slot) ==> after == view
            &&& view.slots.contains_key(other) ==> after.slots[other] == view.slots[other]
            &&& after.slots.contains_key(other) == view.slots.contains_key(other)
        }),
{
}

/// Rectangles do not share any pixel.
pub open spec fn are_disjoint(a: Point, a_size: Size, b: Point, b_size: Size) -> bool {
    ||| a.x + a_size.width <= b.x
    ||| b.x + b_size.width <= a.x
    ||| a.y + a_size.height <= b.y
    ||| b.y + b_size.height <= a.y
}

/// The buttons and the search field do not overlap each other, and stay inside of
/// the view's width and above its bottom.
pub proof fn law_elements_are_disjoint(layout: SearchLayout, buttons: SearchButtons)
    requires
        layout.valid(),
        buttons.have_size(layout.layout.button_size),
    ensures
        ({
            let placed = buttons.placed(layout);
            let size = layout.layout.button_size;
            let field = layout.search_field();
            let field_size = layout.search_field_size();
            let list = seq![
                placed.back.point,
                placed.config.point,
                placed.gps.point,
                placed.cancel_route.point,
                placed.route_mode.point,
                placed.search.point,
            ];
            &&& forall|i: int, j: int|
                0 <= i < j < 5 ==> are_disjoint(#[trigger] list[i], size, #[trigger] list[j], size)
            &&& are_disjoint(placed.search.point, size, placed.back.point, size)
            &&& are_disjoint(placed.search.point, size, field, field_size)
            &&& are_disjoint(placed.back.point, size, field, field_size)
            &&& placed.search.point.x == layout.layout.padding
            &&& field.x == placed.search.point.x + size.width + layout.layout.padding
            &&& field.x + field_size.width + layout.layout.padding == placed.back.point.x
            &&& placed.back.point.x + size.width + layout.layout.padding
                == layout.layout.size.width
            &&& placed.back.point.y + size.height + layout.layout.padding
                == layout.layout.size.height
            &&& field.y == placed.back.point.y && placed.search.point.y == placed.back.point.y
            &&& field_size.height == size.height
        }),
{
    layout.lemma_rows();
    layout.layout.lemma_steps();
}

/// The distance follows behind the type of a result, if it is known.
pub proof fn law_entity_text_has_distance(entity_type: Seq<char>, distance: Seq<char>)
    ensures
        entity_text_of(entity_type, None) == entity_type,
        ({
            let text = entity_text_of(entity_type, Some(distance));
            &&& text.take(entity_type.len() as int) == entity_type
            &&& text.skip(text.len() - distance.len()) == distance
            &&& text.len() > entity_type.len() + distance.len()
        }),
{
    reveal_strlit(" · ");
    let text = entity_text_of(entity_type, Some(distance));
    assert(text.take(entity_type.len() as int) =~= entity_type);
    assert(text.skip(text.len() - distance.len()) =~= distance);
}

/// The routing button is inside of its result, at the right side and vertically
/// centered.
pub proof fn law_routing_button_is_inside_result(layout: SearchLayout)
    requires
        layout.has_results(),
        layout.inside_padding <= layout.layout.size.width - layout.routing_button_size.width - 2
            * layout.layout.padding,
    ensures
        ({
            let button = layout.routing_button();
            let size = layout.routing_button_size;
            let list = layout.list();
            &&& 0 <= button.x && button.x + size.width + layout.inside_padding == list.width
            &&& 0 <= button.y && button.y + size.height <= list.height
            &&& 0 <= (list.height - size.height - button.y) - button.y <= 1
        }),
{
}

/// Choosing a new origin starts with an empty search for it, without touching the
/// results of any route.
pub proof fn law_new_origin_clears_search(view: SearchViewState, origin: RouteOrigin)
    ensures
        ({
            let after = view.with_route_origin(origin);
            &&& after.route_origin == Some(origin)
            &&& after.search_field.text.len() == 0
            &&& after.dirty
            &&& after.next_query_id != view.next_query_id
            &&& after.active_route == view.active_route
            &&& after.route_mode == view.route_mode
            &&& after.reference_point == view.reference_point
        }),
{
}

/// Toggling the mode twice leads back to it, and its button always shows the icon of
/// the mode.
pub proof fn law_mode_is_toggled(view: SearchViewState)
    ensures
        ({
            let after = view.with_toggled_mode();
            &&& after.route_mode != view.route_mode
            &&& after.with_toggled_mode().route_mode == view.route_mode
            &&& after.buttons.route_mode.svg == (match after.route_mode {
                Mode::Pedestrian => Svg::Pedestrian,
                Mode::Auto => Svg::Car,
            })
            &&& after.buttons.route_mode.point == view.buttons.route_mode.point
            &&& after.buttons.search == view.buttons.search
            &&& after.dirty
            &&& after.search_field == view.search_field
            &&& after.route_origin == view.route_origin
        }),
{
}

/// A cancelled route and its origin are gone, with everything else staying as it is.
pub proof fn law_cancelled_route_is_gone(view: SearchViewState)
    ensures
        ({
            let after = view.without_route();
            &&& after.active_route is None && after.route_origin is None
            &&& after.dirty
            &&& after.search_field == view.search_field
            &&& after.route_mode == view.route_mode
            &&& after.geocoder == view.geocoder
        }),
{
}

/// All buttons have the new size, and keep their icon.
pub proof fn law_buttons_are_resized(buttons: SearchButtons, size: Size)
    ensures
        ({
            let after = buttons.resized(size);
            &&& after.cancel_route.size == size && after.route_mode.size == size
            &&& after.config.size == size && after.search.size == size
            &&& after.back.size == size && after.gps.size == size
            &&& after.cancel_route.svg == buttons.cancel_route.svg
            &&& after.route_mode.svg == buttons.route_mode.svg
            &&& after.config.svg == buttons.config.svg
            &&& after.search.svg == buttons.search.svg
            &&& after.back.svg == buttons.back.svg
            &&& after.gps.svg == buttons.gps.svg
        }),
{
}

/// Submitting a search redraws the view, and its results have a new ID.
pub proof fn law_submission_is_redrawn(view: SearchViewState, blank: bool)
    ensures
        ({
            let after = view.submitted(blank);
            &&& after.dirty
            &&& after.next_query_id != view.next_query_id
            &&& after.route_origin == view.route_origin
            &&& after.active_route == view.active_route
        }),
{
}

/// A result's routing button is pressed if the point is inside of it, relative to the
/// left edge of the list.
pub proof fn law_routing_button_is_pressed(
    view: SearchViewState,
    point: Point<i64>,
    scroll: int,
    space: int,
)
    requires
        i64::MIN <= point.x - view.layout.list().point.x * SUB_PIXELS <= i64::MAX,
    ensures
        view.tapped(point, scroll, space) matches Some((i, pressed)) ==> {
            let left = (view.layout.list().point.x + view.layout.routing_button().x) * SUB_PIXELS;
            let width = view.layout.routing_button_size.width * SUB_PIXELS;
            &&& i < view.results().len()
            &&& pressed ==> left <= point.x < left + width
        },
{
}

} // verus!
