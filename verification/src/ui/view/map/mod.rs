//! Map rendering UI view.

pub mod cursor;
pub mod fallback;
pub mod nearest;
pub mod path;
pub mod route;

use vstd::prelude::*;

use crate::geometry::{GeoPoint, Point, Size};
use crate::router::{Mode, Route};
use crate::tiles::iter::tile_count;
use crate::tiles::{TileIndex, MAX_ZOOM};
use crate::ui::skia::Svg;
use crate::ui::touch::{TouchPoint, TouchSlot, TouchSlots};
use crate::ui::view::map::cursor::{
    law_moved_pixels, limited_zoom, moved, on_map_pixel, pixel, scaled, snapped, Cursor, ZoomSnap,
};
use crate::ui::view::map::fallback::PendingTiles;
use crate::ui::view::map::route::{
    advanced, geo_points, segment_instructions, segment_points, MapRoute, MapRouteView,
    RenderGeoPoint,
};
use crate::ui::view::View as UiView;
use crate::ui::{Button, Layout};

verus! {

/// Maximum GPS distance to be considered ON the route.
pub const MAX_GPS_ROUTE_DISTANCE: u32 = 15;

/// Minimum distance before rerouting a GPS route.
pub const MIN_GPS_REROUTE_DISTANCE: u32 = 30;

/// Minimum seconds between rerouting attempts.
pub const MIN_REROUTE_INTERVAL: u64 = 5;

/// Seconds after losing GPS signal before GPS indicator is removed.
pub const GPS_TIMEOUT: u64 = 10;

/// Default zoom level for displaying GPS location.
pub const GPS_ZOOM: u8 = 18;

/// Intention of a touch sequence.
#[derive(Copy, Clone, Debug, PartialEq, Eq, Structural)]
pub enum TouchAction {
    Nothing,
    DoubleTap,
    Search,
    Drag,
    Zoom,
    Gps,
    Tap,
}

/// Reaction to the motion of a touch point.
#[derive(Copy, Clone, Debug, PartialEq, Eq, Structural)]
pub enum TouchMotion {
    /// Nothing needs to be done.
    Ignored,
    /// Move the map, if the slot is far enough from its starting point.
    Drag { slot: TouchSlot, old_point: TouchPoint },
    /// Zoom the map.
    Zoom { slot: TouchSlot, opposing: TouchSlot, old_point: TouchPoint },
}

/// Reaction to the release of a touch point.
#[derive(Copy, Clone, Debug, PartialEq, Eq, Structural)]
pub enum TouchRelease {
    /// Nothing needs to be done.
    Nothing,
    /// Reset the sub-tile zoom.
    ResetZoom,
    /// Zoom in by one level, with a point as focus.
    ZoomIn(TouchPoint),
    /// Show a different view.
    Show(UiView),
}

/// New GPS location.
#[derive(Copy, Clone, Debug, PartialEq, Eq, Structural)]
pub struct GpsFix {
    pub point: GeoPoint,
    /// Map position at the current zoom level.
    pub cursor: Cursor,
    /// Distance to the end of the active route in meters.
    pub end_distance: u32,
    /// Closest segment of the active route.
    pub nearest_segment: usize,
    /// Distance to the closest segment of the active route in meters.
    pub segment_distance: u32,
    /// Enough time has passed since the last rerouting attempt.
    pub reroute_due: bool,
}

/// Effects of a new GPS location on the active route.
#[derive(Copy, Clone, Debug, PartialEq, Eq, Structural)]
pub struct GpsUpdate {
    /// New progress for the route view.
    pub progress: Option<usize>,
    /// Target and mode of a new route from the GPS location.
    pub reroute: Option<Reroute>,
}

/// Target and mode of a new route.
#[derive(Copy, Clone, Debug, PartialEq, Eq, Structural)]
pub struct Reroute {
    pub target: GeoPoint,
    pub mode: Mode,
}

/// Map area which is shown for a new route.
#[derive(Copy, Clone, Debug, PartialEq, Eq, Structural)]
pub enum RouteFocus {
    /// Keep the current map area.
    Unchanged,
    /// Center and lock the GPS location.
    Gps(GeoPoint),
    /// Show the entire route.
    Overview { start: GeoPoint, end: GeoPoint },
}

/// Map view state.
pub struct MapViewState {
    pub rendered_parent_tiles: Seq<TileIndex>,
    pub pending_tiles: Seq<TileIndex>,
    pub gps: Option<RenderGeoPoint>,
    pub poi: Option<RenderGeoPoint>,
    pub route: Option<MapRouteView>,
    pub rerouting: bool,
    pub cursor: Cursor,
    pub gps_locked: bool,
    pub search_button: Button,
    pub gps_button: Button,
    pub layout: Layout,
    pub slots: Map<i32, TouchSlot>,
    pub action: TouchAction,
    pub last_point: TouchPoint,
    pub last_time: u32,
    pub dirty: bool,
}

impl MapViewState {
    /// State after going to a map position.
    pub open spec fn at(self, cursor: Cursor) -> Self {
        if self.cursor == cursor {
            self
        } else {
            MapViewState { cursor, gps_locked: false, dirty: true, ..self }
        }
    }

    /// State without a route.
    pub open spec fn without_route(self) -> Self {
        MapViewState {
            search_button: Button { svg: Svg::Search, ..self.search_button },
            dirty: self.dirty || self.route is Some,
            route: None,
            ..self
        }
    }

    /// State with a different POI.
    pub open spec fn with_poi(self, poi: Option<GeoPoint>) -> Self {
        let point = match poi {
            Some(poi) => Some(RenderGeoPoint::uncached(poi)),
            None => None,
        };
        if self.poi == point {
            self
        } else if point is Some {
            MapViewState { dirty: true, poi: point, ..self.without_route() }
        } else {
            MapViewState { dirty: true, poi: None, ..self }
        }
    }

    /// State without GPS location.
    pub open spec fn without_gps(self) -> Self {
        if self.gps is None {
            self
        } else {
            MapViewState { dirty: true, gps_locked: false, gps: None, ..self }
        }
    }

    /// The GPS location is tracked by the active route.
    pub open spec fn has_gps_route(self) -> bool {
        self.route matches Some(route) && route.has_gps_origin
    }

    /// The GPS location is at the end of the active route.
    pub open spec fn is_route_done(self, fix: GpsFix) -> bool {
        &&& self.has_gps_route()
        &&& self.route->0.remaining().len() > 0
        &&& fix.end_distance <= MAX_GPS_ROUTE_DISTANCE
    }

    /// The GPS location is ahead of the first segment of the active route.
    pub open spec fn has_progress(self, fix: GpsFix) -> bool {
        &&& self.has_gps_route()
        &&& !self.is_route_done(fix)
        &&& fix.segment_distance <= MAX_GPS_ROUTE_DISTANCE
        &&& fix.nearest_segment > 0
    }

    /// The GPS location is too far away from the active route.
    pub open spec fn is_off_course(self, fix: GpsFix) -> bool {
        &&& self.has_gps_route()
        &&& !self.is_route_done(fix)
        &&& !self.rerouting
        &&& fix.segment_distance >= MIN_GPS_REROUTE_DISTANCE
        &&& self.route->0.remaining().len() > 0
        &&& fix.reroute_due
    }

    /// The GPS location matches a point which has not been rendered yet.
    pub open spec fn is_gps(self, point: GeoPoint) -> bool {
        self.gps == Some(RenderGeoPoint::uncached(point))
    }

    /// State with a new GPS location.
    pub open spec fn with_gps(self, fix: GpsFix) -> Self {
        let point = RenderGeoPoint::uncached(fix.point);
        if self.is_gps(fix.point) {
            self
        } else {
            // Jump to new GPS position if the view is locked to the GPS.
            let jumped = if self.gps_locked {
                MapViewState { gps_locked: true, ..self.at(fix.cursor) }
            } else {
                self
            };
            // Update current route.
            let routed = if self.is_route_done(fix) {
                jumped.without_route()
            } else if self.has_progress(fix) {
                let route = self.route->0;
                MapViewState {
                    route: Some(
                        MapRouteView {
                            offset: advanced(
                                route.points.len() as int,
                                route.offset,
                                fix.nearest_segment as int,
                            ),
                            ..route
                        },
                    ),
                    ..jumped
                }
            } else if self.is_off_course(fix) {
                MapViewState { rerouting: true, ..jumped }
            } else {
                jumped
            };
            MapViewState { gps: Some(point), dirty: true, ..routed }
        }
    }

    /// State with the map moved by some pixels.
    pub open spec fn moved_by(self, delta: Option<Point>) -> Self {
        match delta {
            Some(delta) => MapViewState {
                cursor: moved(self.cursor, -delta.x, -delta.y),
                gps_locked: false,
                dirty: true,
                ..self
            },
            None => self,
        }
    }

    /// A touch point starts a tap.
    pub open spec fn is_tap(self, point: TouchPoint) -> bool {
        &&& self.slots.dom().len() == 0
        &&& !self.search_button.covers(point.pixel)
        &&& !self.gps_button.covers(point.pixel)
    }

    /// State with a pressed touch point.
    pub open spec fn pressed(
        self,
        slot: i32,
        time: u32,
        point: TouchPoint,
        near: bool,
        max_multi_tap: u32,
    ) -> Self {
        if self.slots.dom().len() >= 2 {
            self
        } else {
            MapViewState {
                slots: self.slots.insert(slot, TouchSlot { start: point, point }),
                action: if self.slots.dom().len() == 1 {
                    TouchAction::Zoom
                } else if self.search_button.covers(point.pixel) {
                    TouchAction::Search
                } else if self.gps_button.covers(point.pixel) {
                    TouchAction::Gps
                } else if near && time <= self.last_time + max_multi_tap {
                    TouchAction::DoubleTap
                } else {
                    TouchAction::Tap
                },
                last_time: if self.is_tap(point) {
                    time
                } else {
                    self.last_time
                },
                last_point: if self.is_tap(point) {
                    point
                } else {
                    self.last_point
                },
                ..self
            }
        }
    }

    /// State after a touch point was moved.
    pub open spec fn with_motion(self, slot: i32, point: TouchPoint) -> Self {
        if self.slots.contains_key(slot) {
            MapViewState {
                slots: self.slots.insert(
                    slot,
                    TouchSlot { start: self.slots[slot].start, point },
                ),
                ..self
            }
        } else {
            self
        }
    }

    /// State after the GPS button was pressed.
    ///
    /// The map goes to the GPS location. If it is there already, it zooms in. If
    /// it is zoomed in, the GPS lock is toggled.
    pub open spec fn with_gps_button(self, current: Cursor, zoomed: Cursor) -> Self {
        if self.gps is None {
            self
        } else if self.cursor != current {
            MapViewState { cursor: current, dirty: true, ..self }
        } else if self.cursor.tile.z != GPS_ZOOM {
            MapViewState { cursor: zoomed, dirty: true, ..self }
        } else {
            MapViewState { gps_locked: !self.gps_locked, dirty: true, ..self }
        }
    }

    /// State after the touch action of a released point was executed.
    pub open spec fn with_action(
        self,
        point: TouchPoint,
        snap: ZoomSnap,
        current: Cursor,
        zoomed: Cursor,
    ) -> Self {
        match self.action {
            TouchAction::Tap => if snap == ZoomSnap::Exact {
                self
            } else {
                MapViewState { cursor: snapped(self.cursor, snap), dirty: true, ..self }
            },
            TouchAction::Gps => if self.gps_button.covers(point.pixel) {
                self.with_gps_button(current, zoomed)
            } else {
                self
            },
            _ => self,
        }
    }

    /// Reaction to a released touch point.
    pub open spec fn release_of(self, point: TouchPoint, snap: ZoomSnap) -> TouchRelease {
        match self.action {
            TouchAction::Tap => if snap == ZoomSnap::Exact {
                TouchRelease::Nothing
            } else {
                TouchRelease::ResetZoom
            },
            TouchAction::DoubleTap => if self.cursor.tile.z < MAX_ZOOM {
                TouchRelease::ZoomIn(point)
            } else {
                TouchRelease::Nothing
            },
            TouchAction::Search => if self.search_button.covers(point.pixel) {
                TouchRelease::Show(
                    if self.route is Some {
                        UiView::Route
                    } else {
                        UiView::Search
                    },
                )
            } else {
                TouchRelease::Nothing
            },
            _ => TouchRelease::Nothing,
        }
    }

    /// State after a touch point was released.
    pub open spec fn released(
        self,
        slot: i32,
        snap: ZoomSnap,
        current: Cursor,
        zoomed: Cursor,
    ) -> Self {
        let slots = self.slots.remove(slot);
        let executed = self.with_action(self.slots[slot].point, snap, current, zoomed);
        MapViewState {
            slots,
            last_time: if self.action == TouchAction::Tap {
                self.last_time
            } else {
                0
            },
            action: if slots.dom().len() == 0 {
                TouchAction::Nothing
            } else {
                self.action
            },
            ..executed
        }
    }
}

/// Map rendering UI view.
pub struct MapView {
    tiles: PendingTiles,
    gps: Option<RenderGeoPoint>,
    poi: Option<RenderGeoPoint>,
    route: Option<MapRoute>,
    rerouting: bool,
    cursor: Cursor,
    gps_locked: bool,
    search_button: Button,
    gps_button: Button,
    layout: Layout,
    slots: TouchSlots,
    action: TouchAction,
    last_point: TouchPoint,
    last_time: u32,
    dirty: bool,
}

impl View for MapView {
    type V = MapViewState;

    closed spec fn view(&self) -> MapViewState {
        MapViewState {
            rendered_parent_tiles: self.tiles.rendered(),
            pending_tiles: self.tiles.pending(),
            gps: self.gps,
            poi: self.poi,
            route: match self.route {
                Some(route) => Some(route@),
                None => None,
            },
            rerouting: self.rerouting,
            cursor: self.cursor,
            gps_locked: self.gps_locked,
            search_button: self.search_button,
            gps_button: self.gps_button,
            layout: self.layout,
            slots: self.slots@,
            action: self.action,
            last_point: self.last_point,
            last_time: self.last_time,
            dirty: self.dirty,
        }
    }
}

/// Point with a new tile location.
pub open spec fn with_tile(point: Option<RenderGeoPoint>, tile: Cursor) -> Option<RenderGeoPoint> {
    match point {
        Some(point) => Some(RenderGeoPoint { cached: Some(tile), ..point }),
        None => None,
    }
}

/// Compare a cached point with a new one.
fn is_same(cached: &Option<RenderGeoPoint>, point: &Option<RenderGeoPoint>) -> (same: bool)
    ensures
        same == (*cached == *point),
{
    match (cached, point) {
        (Some(cached), Some(point)) => cached.same(point),
        (None, None) => true,
        _ => false,
    }
}

impl MapView {
    /// The map position, route, buttons, and touch slots are valid.
    pub closed spec fn well_formed(&self) -> bool {
        &&& self.cursor.tile.z <= MAX_ZOOM
        &&& self.route matches Some(route) ==> route.well_formed()
        &&& self.search_button.fits()
        &&& self.gps_button.fits()
        &&& self.slots.well_formed()
        &&& self.slots@.dom().finite()
        &&& self.slots@.dom().len() <= 2
    }

    /// Create the map at the (0, 0) location, at a zoom level without empty
    /// space.
    ///
    /// Until it is resized, the view is as big as one of its buttons.
    pub fn new(layout: Layout) -> (view: Self)
        requires
            layout.has_space(2),
        ensures
            view.well_formed(),
            view@ == (MapViewState {
                rendered_parent_tiles: Seq::empty(),
                pending_tiles: Seq::empty(),
                gps: None,
                poi: None,
                route: None,
                rerouting: false,
                cursor: Cursor {
                    tile: TileIndex { x: 4, y: 4, z: 3 },
                    offset: Point { x: 0, y: 0 },
                },
                gps_locked: false,
                search_button: Button {
                    point: layout.corner_button(0),
                    size: layout.button_size,
                    svg: Svg::Search,
                },
                gps_button: Button {
                    point: (Layout { size: layout.button_size, ..layout }).corner_button(1),
                    size: layout.button_size,
                    svg: Svg::Gps,
                },
                layout: Layout { size: layout.button_size, ..layout },
                slots: Map::empty(),
                action: TouchAction::Nothing,
                last_point: TouchPoint::origin(),
                last_time: 0,
                dirty: true,
            }),
    {
        let size = layout.button_size;
        let search_button = Button::new(layout.first_button_point(), size, Svg::Search);
        let layout = Layout { size, button_size: size, padding: layout.padding };
        let gps_button = Button::new(layout.second_button_point(), size, Svg::Gps);
        MapView {
            tiles: PendingTiles::new(),
            gps: None,
            poi: None,
            route: None,
            rerouting: false,
            cursor: Cursor::new(TileIndex::new(4, 4, 3), Point::new(0, 0)),
            gps_locked: false,
            search_button,
            gps_button,
            layout,
            slots: TouchSlots::new(),
            action: TouchAction::Nothing,
            last_point: TouchPoint::default(),
            last_time: 0,
            dirty: true,
        }
    }

    /// Get the current center of the map.
    pub fn center_point(&self) -> (cursor: Cursor)
        ensures
            cursor == self@.cursor,
    {
        self.cursor
    }

    /// Get the current tile zoom level.
    pub fn zoom(&self) -> (zoom: u8)
        ensures
            zoom == self@.cursor.tile.z,
    {
        self.cursor.tile.z
    }

    /// Go to a specific map position.
    ///
    /// This returns whether the position has changed.
    pub fn goto(&mut self, cursor: Cursor) -> (changed: bool)
        requires
            old(self).well_formed(),
            cursor.tile.z <= MAX_ZOOM,
        ensures
            final(self).well_formed(),
            changed == (old(self)@.cursor != cursor),
            final(self)@ == old(self)@.at(cursor),
    {
        if self.cursor != cursor {
            self.cursor = cursor;
            self.gps_locked = false;
            self.dirty = true;
            true
        } else {
            false
        }
    }

    /// Highlight a specific point on the map.
    pub fn set_poi(&mut self, poi: Option<GeoPoint>)
        requires
            old(self).well_formed(),
        ensures
            final(self).well_formed(),
            final(self)@ == old(self)@.with_poi(poi),
    {
        let point = match poi {
            Some(poi) => Some(RenderGeoPoint::new(poi)),
            None => None,
        };
        if is_same(&self.poi, &point) {
            return ;
        }

        // Clear route when a new POI is set.
        if point.is_some() {
            self.cancel_route();
        }

        self.dirty = true;
        self.poi = point;
    }

    /// Update the GPS indicator location.
    pub fn set_gps(&mut self, fix: Option<GpsFix>) -> (update: GpsUpdate)
        requires
            old(self).well_formed(),
            fix matches Some(fix) ==> fix.cursor.tile.z <= MAX_ZOOM,
            fix matches Some(fix) ==> (old(self)@.route matches Some(route) ==> route.offset
                + fix.nearest_segment <= usize::MAX),
        ensures
            final(self).well_formed(),
            final(self)@ == (match fix {
                Some(fix) => old(self)@.with_gps(fix),
                None => old(self)@.without_gps(),
            }),
            fix is None || old(self)@.is_gps(fix->0.point)
                ==> update == (GpsUpdate { progress: None, reroute: None }),
            fix matches Some(fix) ==> (!old(self)@.is_gps(fix.point) ==> {
                &&& match update.progress {
                    Some(progress) => old(self)@.has_progress(fix) && progress
                        == final(self)@.route->0.offset,
                    None => !old(self)@.has_progress(fix),
                }
                &&& update.reroute == (if old(self)@.is_off_course(fix) {
                    Some(
                        Reroute {
                            target: old(self)@.route->0.remaining().last().point,
                            mode: old(self)@.route->0.mode,
                        },
                    )
                } else {
                    None
                })
            }),
    {
        let mut update = GpsUpdate { progress: None, reroute: None };
        let fix = match fix {
            Some(fix) => fix,
            None => {
                if self.gps.is_some() {
                    self.dirty = true;
                    self.gps_locked = false;
                    self.gps = None;
                }
                return update;
            },
        };

        // Ignore GPS positions matching the current state.
        let point = Some(RenderGeoPoint::new(fix.point));
        if is_same(&self.gps, &point) {
            return update;
        }

        // Jump to new GPS position if the view is locked to the GPS.
        if self.gps_locked {
            self.goto(fix.cursor);
            self.gps_locked = true;
        }

        // Update current route.
        let mut done = false;
        if let Some(route) = &mut self.route {
            if route.has_gps_origin() {
                if route.len() > 0 && fix.end_distance <= MAX_GPS_ROUTE_DISTANCE {
                    done = true;
                } else {
                    // Reroute if GPS is way off course.
                    if !self.rerouting && fix.segment_distance >= MIN_GPS_REROUTE_DISTANCE
                        && fix.reroute_due {
                        if let Some(target) = route.end() {
                            self.rerouting = true;
                            update.reroute = Some(Reroute { target, mode: route.mode() });
                        }
                    }

                    // Update the route to remove segments already traveled.
                    if fix.segment_distance <= MAX_GPS_ROUTE_DISTANCE && fix.nearest_segment > 0 {
                        route.truncate_start(fix.nearest_segment);

                        // Update progress in the route view.
                        update.progress = Some(route.progress());
                    }
                }
            }
        }

        // Delete route once it has been completed.
        if done {
            self.cancel_route();
        }

        self.gps = point;
        self.dirty = true;
        update
    }

    /// Update the active route.
    ///
    /// Returns the area which should be shown for this route.
    pub fn set_route(&mut self, route: &Route, is_gps_route: bool) -> (focus: RouteFocus)
        requires
            old(self).well_formed(),
        ensures
            final(self).well_formed(),
            final(self)@ == (MapViewState {
                route: final(self)@.route,
                rerouting: false,
                poi: None,
                search_button: Button { svg: Svg::Route, ..old(self)@.search_button },
                dirty: true,
                ..old(self)@
            }),
            final(self)@.route matches Some(map_route) && {
                let points = segment_points(route.segments@, route.segments@.len() as int);
                &&& geo_points(map_route.points) == points
                &&& forall|i: int|
                    0 <= i < map_route.points.len() ==> (
                    #[trigger] map_route.points[i]).cached is None
                &&& map_route.instructions == segment_instructions(
                    route.segments@,
                    route.segments@.len() as int,
                )
                &&& map_route.has_gps_origin == is_gps_route
                &&& map_route.mode == route.mode
                &&& map_route.offset == 0
                &&& focus == (if is_gps_route {
                    if !old(self)@.has_gps_route() && old(self)@.gps is Some {
                        RouteFocus::Gps(old(self)@.gps->0.point)
                    } else {
                        RouteFocus::Unchanged
                    }
                } else if points.len() > 0 {
                    RouteFocus::Overview { start: points.first(), end: points.last() }
                } else {
                    RouteFocus::Unchanged
                })
            },
    {
        // Update the current route.
        let was_gps_route = match &self.route {
            Some(route) => route.has_gps_origin(),
            None => false,
        };
        let mut map_route = MapRoute::new();
        map_route.set_route(route, is_gps_route);

        // Lock and center new GPS route, or show entire non-GPS route.
        let mut focus = RouteFocus::Unchanged;
        if is_gps_route {
            if !was_gps_route {
                if let Some(gps) = &self.gps {
                    focus = RouteFocus::Gps(gps.point);
                }
            }
        } else {
            if let (Some(start), Some(end)) = (map_route.start(), map_route.end()) {
                proof {
                    let points = geo_points(map_route@.points);
                    assert(map_route@.remaining() =~= map_route@.points);
                    assert(points.first() == map_route@.points.first().point);
                    assert(points.last() == map_route@.points.last().point);
                }
                focus = RouteFocus::Overview { start, end };
            }
        }
        self.route = Some(map_route);

        self.reset_reroute_timeout();

        // Clear POIs, since they're either part of the route or a distraction.
        self.poi = None;

        // Use search button for route overview while a route is active.
        self.search_button.set_svg(Svg::Route);

        self.dirty = true;
        focus
    }

    /// Center the map on the GPS location, and keep it there.
    ///
    /// This returns whether the map position has changed.
    pub fn lock_gps(&mut self, cursor: Cursor) -> (changed: bool)
        requires
            old(self).well_formed(),
            cursor.tile.z <= MAX_ZOOM,
        ensures
            final(self).well_formed(),
            changed == (old(self)@.cursor != cursor),
            final(self)@ == (MapViewState { gps_locked: true, ..old(self)@.at(cursor) }),
    {
        let changed = self.goto(cursor);
        self.gps_locked = true;
        changed
    }

    /// Clear rerouting timeout.
    pub fn reset_reroute_timeout(&mut self)
        requires
            old(self).well_formed(),
        ensures
            final(self).well_formed(),
            final(self)@ == (MapViewState { rerouting: false, ..old(self)@ }),
    {
        self.rerouting = false;
    }

    /// Clear the active route.
    pub fn cancel_route(&mut self)
        requires
            old(self).well_formed(),
        ensures
            final(self).well_formed(),
            final(self)@ == old(self)@.without_route(),
    {
        self.search_button.set_svg(Svg::Search);
        self.dirty = self.dirty || self.route.is_some();
        self.route = None;
    }

    /// Touch long-press callback.
    ///
    /// The point is relative to the screen's center. This returns the map
    /// position of the point.
    pub fn trigger_long_press(&mut self, x: i32, y: i32) -> (cursor: Cursor)
        requires
            old(self).well_formed(),
        ensures
            final(self).well_formed(),
            cursor == moved(old(self)@.cursor, x as int, y as int),
            final(self)@ == (MapViewState {
                slots: Map::empty(),
                last_time: 0,
                ..old(self)@.with_poi(None)
            }),
    {
        // Manually reset touch state, since touch release might be sent to search view.
        self.slots.clear();
        self.last_time = 0;

        let cursor = self.cursor.center_point_tile(x, y);

        // Clear POI marker.
        self.set_poi(None);

        cursor
    }

    /// Move the map by a pixel delta.
    ///
    /// The delta is missing if the map does not move.
    pub fn move_by(&mut self, delta: Option<Point>)
        requires
            old(self).well_formed(),
            delta matches Some(delta) ==> delta.x > i32::MIN && delta.y > i32::MIN,
        ensures
            final(self).well_formed(),
            final(self)@ == old(self)@.moved_by(delta),
    {
        if let Some(delta) = delta {
            self.cursor = self.cursor.center_point_tile(-delta.x, -delta.y);
            self.gps_locked = false;
            self.dirty = true;
        }
    }

    /// Check whether the map is always zoomed around its center.
    ///
    /// This keeps the GPS location in place while the map is locked to it.
    pub fn zooms_center(&self) -> (center: bool)
        ensures
            center == (self@.gps_locked && self@.gps is Some),
    {
        self.gps_locked && self.gps.is_some()
    }

    /// Zoom the map out by a number of tile levels.
    ///
    /// The focus is the offset required to keep the zoom's focus stationary.
    ///
    /// This returns whether there were enough levels.
    pub fn zoom_by(&mut self, focus: Point, levels: i32) -> (complete: bool)
        requires
            old(self).well_formed(),
        ensures
            final(self).well_formed(),
            complete == (0 <= old(self)@.cursor.tile.z - levels <= MAX_ZOOM),
            final(self)@ == (MapViewState {
                cursor: scaled(
                    old(self)@.cursor,
                    focus,
                    limited_zoom(old(self)@.cursor.tile.z as int, levels as int),
                ),
                dirty: true,
                ..old(self)@
            }),
    {
        let (cursor, complete) = self.cursor.zoom_by(focus, levels);
        self.cursor = cursor;
        self.dirty = true;
        complete
    }

    /// Handle a loaded tile.
    ///
    /// Returns whether the tile is visible, and thus requires a redraw.
    pub fn tile_loaded(&mut self, tile: TileIndex) -> (visible: bool)
        requires
            old(self).well_formed(),
        ensures
            final(self).well_formed(),
            visible == old(self)@.pending_tiles.contains(tile),
            final(self)@ == (MapViewState { dirty: old(self)@.dirty || visible, ..old(self)@ }),
    {
        let visible = self.tiles.is_pending(tile);
        if visible {
            self.dirty = true;
        }
        visible
    }

    /// Start a new frame.
    pub fn begin_frame(&mut self)
        requires
            old(self).well_formed(),
        ensures
            final(self).well_formed(),
            final(self)@ == (MapViewState {
                dirty: false,
                pending_tiles: Seq::empty(),
                rendered_parent_tiles: Seq::empty(),
                ..old(self)@
            }),
    {
        self.dirty = false;
        self.tiles.clear();
    }

    /// Find a placeholder for a tile which is not loaded yet.
    ///
    /// The list says for each bigger tile whether it is loaded.
    pub fn fallback(&mut self, tile: TileIndex, loaded: &Vec<bool>) -> (fallback: Option<TileIndex>)
        requires
            old(self).well_formed(),
            loaded.len() == tile.z,
        ensures
            final(self).well_formed(),
            fallback == fallback::fallback_from(
                tile,
                old(self)@.rendered_parent_tiles,
                loaded@,
                0,
            ),
            final(self)@ == (MapViewState {
                pending_tiles: old(self)@.pending_tiles.push(tile),
                rendered_parent_tiles: match fallback {
                    Some(fallback) => old(self)@.rendered_parent_tiles.push(fallback),
                    None => old(self)@.rendered_parent_tiles,
                },
                ..old(self)@
            }),
    {
        self.tiles.fallback(tile, loaded)
    }

    /// Get the GPS location.
    pub fn gps(&self) -> (gps: Option<RenderGeoPoint>)
        ensures
            gps == self@.gps,
    {
        self.gps
    }

    /// Remember the map position of the GPS location.
    pub fn set_gps_tile(&mut self, tile: Cursor)
        requires
            old(self).well_formed(),
        ensures
            final(self).well_formed(),
            final(self)@ == (MapViewState {
                gps: with_tile(old(self)@.gps, tile),
                ..old(self)@
            }),
    {
        if let Some(gps) = &mut self.gps {
            gps.set_tile(tile);
        }
    }

    /// Get the active POI.
    pub fn poi(&self) -> (poi: Option<RenderGeoPoint>)
        ensures
            poi == self@.poi,
    {
        self.poi
    }

    /// Remember the map position of the active POI.
    pub fn set_poi_tile(&mut self, tile: Cursor)
        requires
            old(self).well_formed(),
        ensures
            final(self).well_formed(),
            final(self)@ == (MapViewState {
                poi: with_tile(old(self)@.poi, tile),
                ..old(self)@
            }),
    {
        if let Some(poi) = &mut self.poi {
            poi.set_tile(tile);
        }
    }

    /// Get the active route.
    pub fn route(&self) -> (route: Option<&MapRoute>)
        requires
            self.well_formed(),
        ensures
            match route {
                Some(route) => self@.route == Some(route@) && route.well_formed(),
                None => self@.route is None,
            },
    {
        match &self.route {
            Some(route) => Some(route),
            None => None,
        }
    }

    /// Remember the map position of a point in the active route.
    pub fn set_route_tile(&mut self, index: usize, tile: Cursor)
        requires
            old(self).well_formed(),
            old(self)@.route matches Some(route) && index < route.remaining().len(),
        ensures
            final(self).well_formed(),
            final(self)@ == (MapViewState {
                route: ({
                    let route = old(self)@.route->0;
                    let point = route.remaining()[index as int];
                    Some(
                        MapRouteView {
                            points: route.points.update(
                                route.offset + index,
                                RenderGeoPoint { cached: Some(tile), ..point },
                            ),
                            ..route
                        },
                    )
                }),
                ..old(self)@
            }),
    {
        if let Some(route) = &mut self.route {
            let point = route.point_mut(index);
            point.set_tile(tile);
        }
    }

    /// Get all visible buttons, and whether these are locked.
    pub fn buttons(&self) -> (buttons: Vec<(Button, bool)>)
        ensures
            buttons@ == (if self@.gps is Some {
                seq![(self@.search_button, false), (self@.gps_button, self@.gps_locked)]
            } else {
                seq![(self@.search_button, false)]
            }),
    {
        let mut buttons: Vec<(Button, bool)> = Vec::new();
        buttons.push((self.search_button, false));
        if self.gps.is_some() {
            buttons.push((self.gps_button, self.gps_locked));
        }
        proof {
            if self@.gps is Some {
                assert(buttons@ =~= seq![
                    (self@.search_button, false),
                    (self@.gps_button, self@.gps_locked),
                ]);
            } else {
                assert(buttons@ =~= seq![(self@.search_button, false)]);
            }
        }
        buttons
    }

    /// Check whether the tiles just outside the viewport should be downloaded.
    pub fn preloads_border(&self) -> (preload: bool)
        ensures
            preload == (self@.pending_tiles.len() == 0),
    {
        self.tiles.is_complete()
    }

    /// Check whether the view requires a redraw.
    ///
    /// This does not include pending velocities.
    pub fn dirty(&self) -> (dirty: bool)
        ensures
            dirty == self@.dirty,
    {
        self.dirty
    }

    /// Update the view's physical size.
    pub fn set_size(&mut self, size: Size)
        requires
            old(self).well_formed(),
            (Layout { size, ..old(self)@.layout }).has_space(2),
            old(self)@.search_button.size == old(self)@.layout.button_size,
            old(self)@.gps_button.size == old(self)@.layout.button_size,
        ensures
            final(self).well_formed(),
            ({
                let layout = Layout { size, ..old(self)@.layout };
                final(self)@ == (MapViewState {
                    layout,
                    dirty: true,
                    search_button: Button {
                        point: layout.corner_button(0),
                        ..old(self)@.search_button
                    },
                    gps_button: Button { point: layout.corner_button(1), ..old(self)@.gps_button },
                    ..old(self)@
                })
            }),
    {
        self.layout.size = size;
        self.dirty = true;

        // Update UI elements.
        self.search_button.set_point(self.layout.first_button_point());
        self.gps_button.set_point(self.layout.second_button_point());
    }

    /// Update the view's physical dimensions.
    pub fn set_scale_factor(&mut self, layout: Layout)
        requires
            old(self).well_formed(),
            layout.has_space(2),
        ensures
            final(self).well_formed(),
            final(self)@ == (MapViewState {
                layout,
                dirty: true,
                search_button: Button {
                    point: layout.corner_button(0),
                    size: layout.button_size,
                    ..old(self)@.search_button
                },
                gps_button: Button {
                    point: layout.corner_button(1),
                    size: layout.button_size,
                    ..old(self)@.gps_button
                },
                ..old(self)@
            }),
    {
        self.layout = layout;
        self.dirty = true;

        // Update UI elements.
        self.search_button.set_point(layout.first_button_point());
        self.search_button.set_size(layout.button_size);
        self.gps_button.set_point(layout.second_button_point());
        self.gps_button.set_size(layout.button_size);
    }

    /// Get the last point used for multi-tap detection.
    pub fn last_point(&self) -> (point: TouchPoint)
        ensures
            point == self@.last_point,
    {
        self.last_point
    }

    /// Handle touch press.
    ///
    /// Returns whether this is the start of a long-press.
    pub fn touch_down(
        &mut self,
        slot: i32,
        time: u32,
        point: TouchPoint,
        near: bool,
        max_multi_tap: u32,
    ) -> (stage_long_press: bool)
        requires
            old(self).well_formed(),
            old(self)@.last_time + max_multi_tap <= u32::MAX,
        ensures
            final(self).well_formed(),
            final(self)@ == old(self)@.pressed(slot, time, point, near, max_multi_tap),
            stage_long_press == (old(self)@.is_tap(point) && final(self)@.action
                == TouchAction::Tap),
    {
        let mut stage_long_press = false;

        // Only allow at most 2 touch slots at a time.
        let slots: usize = self.slots.len();
        if slots >= 2 {
            return false;
        }
        if slots == 1 {
            self.action = TouchAction::Zoom;
        } else if self.search_button.contains(point.pixel) {
            self.action = TouchAction::Search;
        } else if self.gps_button.contains(point.pixel) {
            self.action = TouchAction::Gps;
        } else {
            // Check time and distance to last tap.
            if self.last_time + max_multi_tap >= time && near {
                self.action = TouchAction::DoubleTap;
            } else {
                // Stage long-press only for initial tap action.
                stage_long_press = true;

                self.action = TouchAction::Tap;
            }

            // Update state for multi-tap detection.
            self.last_time = time;
            self.last_point = point;
        }

        // Update active touch slot.
        self.slots.press(slot, point);
        stage_long_press
    }

    /// Handle touch motion.
    pub fn touch_motion(&mut self, slot: i32, point: TouchPoint) -> (motion: TouchMotion)
        requires
            old(self).well_formed(),
        ensures
            final(self).well_formed(),
            final(self)@ == old(self)@.with_motion(slot, point),
            match motion {
                TouchMotion::Ignored => {
                    ||| !old(self)@.slots.contains_key(slot)
                    ||| old(self)@.action == TouchAction::Gps
                    ||| old(self)@.action == TouchAction::Search
                    ||| old(self)@.action == TouchAction::Nothing
                    ||| {
                        &&& old(self)@.action == TouchAction::Zoom
                        &&& forall|other: i32|
                            other != slot ==> !#[trigger] old(self)@.slots.contains_key(other)
                    }
                },
                TouchMotion::Drag { slot: moved, old_point } => {
                    &&& old(self)@.slots.contains_key(slot)
                    &&& {
                        ||| old(self)@.action == TouchAction::Tap
                        ||| old(self)@.action == TouchAction::DoubleTap
                        ||| old(self)@.action == TouchAction::Drag
                    }
                    &&& moved == final(self)@.slots[slot]
                    &&& old_point == old(self)@.slots[slot].point
                },
                TouchMotion::Zoom { slot: moved, opposing, old_point } => {
                    &&& old(self)@.slots.contains_key(slot)
                    &&& old(self)@.action == TouchAction::Zoom
                    &&& moved == final(self)@.slots[slot]
                    &&& old_point == old(self)@.slots[slot].point
                    &&& exists|other: i32|
                        other != slot && #[trigger] old(self)@.slots.contains_key(other)
                            && old(self)@.slots[other] == opposing
                },
            },
    {
        // Ignore unknown touch slots.
        let ghost slots = self.slots@;
        let (moved, old_point) = match self.slots.motion(slot, point) {
            Some(moved) => moved,
            None => return TouchMotion::Ignored,
        };
        proof {
            assert(self.slots@.dom() =~= slots.dom());
        }

        match self.action {
            TouchAction::Tap | TouchAction::DoubleTap | TouchAction::Drag => {
                TouchMotion::Drag { slot: moved, old_point }
            },
            TouchAction::Zoom => {
                // Get opposing touch slot.
                match self.slots.opposing(slot) {
                    Some(opposing) => {
                        proof {
                            let other = choose|other: i32|
                                other != slot && #[trigger] self.slots@.contains_key(other)
                                    && self.slots@[other] == opposing;
                            assert(slots.contains_key(other));
                        }
                        TouchMotion::Zoom { slot: moved, opposing, old_point }
                    },
                    None => {
                        assert forall|other: i32| other != slot implies !#[trigger] slots.contains_key(
                            other,
                        ) by {
                            assert(!self.slots@.contains_key(other));
                        }
                        TouchMotion::Ignored
                    },
                }
            },
            _ => TouchMotion::Ignored,
        }
    }

    /// Drag the map with a touch point.
    ///
    /// The tap distance limit must have been exceeded.
    pub fn drag(&mut self, delta: Option<Point>)
        requires
            old(self).well_formed(),
            delta matches Some(delta) ==> delta.x > i32::MIN && delta.y > i32::MIN,
        ensures
            final(self).well_formed(),
            final(self)@ == (MapViewState {
                action: TouchAction::Drag,
                ..old(self)@.moved_by(delta)
            }),
    {
        self.action = TouchAction::Drag;
        self.move_by(delta);
    }

    /// Handle touch release.
    ///
    /// The cursors are the map positions of the GPS location, at the current and
    /// at the default zoom level.
    pub fn touch_up(&mut self, slot: i32, snap: ZoomSnap, current: Cursor, zoomed: Cursor) -> (release:
        Option<TouchRelease>)
        requires
            old(self).well_formed(),
            current.tile.z <= MAX_ZOOM,
            zoomed.tile.z <= MAX_ZOOM,
        ensures
            final(self).well_formed(),
            match release {
                Some(release) => {
                    &&& old(self)@.slots.contains_key(slot)
                    &&& release == old(self)@.release_of(old(self)@.slots[slot].point, snap)
                    &&& final(self)@ == old(self)@.released(slot, snap, current, zoomed)
                },
                None => !old(self)@.slots.contains_key(slot) && final(self)@ == old(self)@,
            },
    {
        // Reset touch slot, ignoring unknown slots.
        let removed = match self.slots.release(slot) {
            Some(removed) => removed,
            None => return None,
        };
        let mut release = TouchRelease::Nothing;
        match self.action {
            // On tap, snap zoom to nearest integer scale.
            TouchAction::Tap => {
                if snap != ZoomSnap::Exact {
                    self.cursor = self.cursor.snap_zoom(snap);
                    self.dirty = true;
                    release = TouchRelease::ResetZoom;
                }
            },
            // Zoom in to next tile level on double-tap.
            TouchAction::DoubleTap => {
                if self.cursor.tile.z < MAX_ZOOM {
                    release = TouchRelease::ZoomIn(removed.point);
                }
            },
            // Handle route/search button press.
            TouchAction::Search => {
                if self.search_button.contains(removed.point.pixel) {
                    let view = if self.route.is_some() {
                        UiView::Route
                    } else {
                        UiView::Search
                    };
                    release = TouchRelease::Show(view);
                }
            },
            // Handle GPS centering button press.
            TouchAction::Gps => {
                if self.gps_button.contains(removed.point.pixel) {
                    self.center_gps(current, zoomed);
                }
            },
            _ => {},
        }

        // Block multi-tap if last action didn't result in a tap.
        if self.action != TouchAction::Tap {
            self.last_time = 0;
        }

        // Require all slots to be cleared to allow moving the map again.
        if self.slots.len() == 0 {
            self.action = TouchAction::Nothing;
        }

        Some(release)
    }

    /// Show the GPS location.
    fn center_gps(&mut self, current: Cursor, zoomed: Cursor)
        requires
            old(self).well_formed(),
            current.tile.z <= MAX_ZOOM,
            zoomed.tile.z <= MAX_ZOOM,
        ensures
            final(self).well_formed(),
            final(self)@ == old(self)@.with_gps_button(current, zoomed),
    {
        if self.gps.is_some() {
            // Zoom in, if the GPS location is already centered.
            // Toggle GPS lock if the map is already zoomed in.
            if self.cursor != current {
                self.cursor = current;
            } else if self.cursor.tile.z != GPS_ZOOM {
                self.cursor = zoomed;
            } else {
                self.gps_locked = !self.gps_locked;
            }
            self.dirty = true;
        }
    }

    /// Handle config updates.
    pub fn update_config(&mut self, tiles_changed: bool, input_changed: bool)
        requires
            old(self).well_formed(),
        ensures
            final(self).well_formed(),
            final(self)@ == (MapViewState {
                dirty: old(self)@.dirty || tiles_changed || input_changed,
                ..old(self)@
            }),
    {
        self.dirty = self.dirty || tiles_changed || input_changed;
    }
}

/// Pressing the GPS button three times shows the GPS location, zooms in on it,
/// and locks the map to it.
pub proof fn law_triple_click_locks_gps(view: MapViewState, current: Cursor, zoomed: Cursor)
    requires
        view.gps is Some,
        !view.gps_locked,
        view.cursor != current,
        current.tile.z != GPS_ZOOM,
        zoomed.tile.z == GPS_ZOOM,
    ensures
        ({
            let first = view.with_gps_button(current, zoomed);
            let second = first.with_gps_button(current, zoomed);
            let third = second.with_gps_button(zoomed, zoomed);
            &&& first.cursor == current && !first.gps_locked
            &&& second.cursor == zoomed && !second.gps_locked
            &&& third.cursor == zoomed && third.gps_locked
        }),
{
}

/// The map follows the GPS location while it is locked, until it is moved by the
/// user.
pub proof fn law_locked_map_follows_gps(view: MapViewState, fix: GpsFix, delta: Point)
    requires
        view.gps_locked,
        !view.is_gps(fix.point),
    ensures
        view.with_gps(fix).cursor == fix.cursor,
        view.with_gps(fix).gps_locked,
        !view.moved_by(Some(delta)).gps_locked,
{
}

/// Receiving the same GPS location again changes nothing, unless its tile was
/// determined for rendering in the meantime.
pub proof fn law_repeated_gps_is_ignored(view: MapViewState, fix: GpsFix, next: GpsFix)
    requires
        next.point == fix.point,
    ensures
        view.with_gps(fix).with_gps(next) == view.with_gps(fix),
{
}

/// Once the GPS location reaches the end of a route, the route is deleted.
pub proof fn law_completed_route_is_deleted(view: MapViewState, fix: GpsFix)
    requires
        view.has_gps_route(),
        view.route->0.remaining().len() > 0,
        !view.is_gps(fix.point),
        fix.end_distance <= MAX_GPS_ROUTE_DISTANCE,
    ensures
        view.with_gps(fix).route is None,
        view.with_gps(fix).search_button.svg == Svg::Search,
{
}

/// There is no new rerouting attempt while another one is active.
pub proof fn law_single_reroute(view: MapViewState, fix: GpsFix, next: GpsFix)
    requires
        !view.is_gps(fix.point),
        view.is_off_course(fix),
    ensures
        !view.with_gps(fix).is_off_course(next),
{
}

/// Releasing all touch points ends a touch sequence.
pub proof fn law_touch_sequence_ends(
    view: MapViewState,
    slot: i32,
    time: u32,
    point: TouchPoint,
    near: bool,
    max_multi_tap: u32,
    snap: ZoomSnap,
    current: Cursor,
    zoomed: Cursor,
)
    requires
        view.slots == Map::<i32, TouchSlot>::empty(),
    ensures
        ({
            let pressed = view.pressed(slot, time, point, near, max_multi_tap);
            let released = pressed.released(slot, snap, current, zoomed);
            &&& released.slots == Map::<i32, TouchSlot>::empty()
            &&& released.action == TouchAction::Nothing
        }),
{
    let pressed = view.pressed(slot, time, point, near, max_multi_tap);
    assert(pressed.slots.remove(slot) =~= Map::<i32, TouchSlot>::empty());
}

/// A new GPS location is shown, and only moves the map if it is locked. Losing the
/// signal removes the indicator and the lock.
pub proof fn law_gps_indicator(view: MapViewState, fix: GpsFix)
    ensures
        ({
            let after = view.with_gps(fix);
            &&& after.gps matches Some(gps) && gps.point == fix.point
            &&& !view.gps_locked ==> after.cursor == view.cursor && !after.gps_locked
            &&& view.gps_locked ==> after.gps_locked
            &&& after.poi == view.poi
            &&& !view.is_gps(fix.point) ==> after.dirty
            &&& view.without_gps().gps is None
            &&& view.gps is Some ==> !view.without_gps().gps_locked && view.without_gps().dirty
            &&& view.without_gps().route == view.route && view.without_gps().cursor == view.cursor
        }),
{
}

/// Routes follow the GPS location as long as it is close to them: traveled nodes
/// are removed, and nothing else changes unless the end of the route is reached.
pub proof fn law_route_follows_gps(view: MapViewState, fix: GpsFix)
    requires
        view.route is Some,
        0 <= view.route->0.offset <= view.route->0.points.len(),
        !view.is_gps(fix.point),
    ensures
        ({
            let route = view.route->0;
            let after = view.with_gps(fix);
            let nodes = route.points.skip(route.offset);
            let arrived = route.has_gps_origin && nodes.len() > 0 && fix.end_distance <= 15;
            &&& arrived <==> after.route is None
            &&& after.route matches Some(updated) ==> {
                &&& updated.points == route.points && updated.instructions == route.instructions
                &&& updated.mode == route.mode && updated.has_gps_origin == route.has_gps_origin
                &&& route.has_gps_origin && fix.segment_distance <= 15 && fix.nearest_segment
                    <= nodes.len() ==> updated.offset == route.offset + fix.nearest_segment
                &&& !route.has_gps_origin || fix.segment_distance > 15 ==> updated.offset
                    == route.offset
            }
        }),
{
}

/// Routes are recalculated exactly if the GPS location is far away from a GPS
/// route which is not completed, with no other recalculation being in progress or
/// too recent.
pub proof fn law_lost_gps_is_rerouted(view: MapViewState, fix: GpsFix)
    requires
        view.route is Some,
    ensures
        ({
            let route = view.route->0;
            let nodes = route.points.skip(route.offset);
            view.is_off_course(fix) <==> {
                &&& route.has_gps_origin
                &&& nodes.len() > 0
                &&& fix.end_distance > 15
                &&& fix.segment_distance >= 30
                &&& fix.reroute_due
                &&& !view.rerouting
            }
        }),
        view.is_off_course(fix) && !view.is_gps(fix.point) ==> view.with_gps(fix).rerouting,
        !view.is_off_course(fix) ==> view.with_gps(fix).rerouting == view.rerouting,
{
}

/// A new POI replaces the route, and removing it keeps the route.
pub proof fn law_poi_replaces_route(view: MapViewState, point: GeoPoint)
    ensures
        ({
            let shown = view.with_poi(Some(point));
            let hidden = view.with_poi(None);
            &&& shown.poi matches Some(poi) && poi.point == point
            &&& view.poi != Some(RenderGeoPoint::uncached(point)) ==> shown.route is None
                && shown.search_button.svg == Svg::Search && shown.dirty
            &&& hidden.poi is None
            &&& hidden.route == view.route
            &&& shown.cursor == view.cursor && hidden.cursor == view.cursor
            &&& shown.gps == view.gps && hidden.gps == view.gps
        }),
{
}

/// Dragging moves the map along with the finger, so its center moves the other
/// way, and releases the GPS lock.
pub proof fn law_map_follows_finger(view: MapViewState, delta: Point)
    requires
        view.cursor.valid(),
    ensures
        ({
            let after = view.moved_by(Some(delta));
            let count = tile_count(view.cursor.tile.z);
            &&& pixel(after.cursor.tile.x, after.cursor.offset.x) == on_map_pixel(
                pixel(view.cursor.tile.x, view.cursor.offset.x) - delta.x,
                count,
            )
            &&& pixel(after.cursor.tile.y, after.cursor.offset.y) == on_map_pixel(
                pixel(view.cursor.tile.y, view.cursor.offset.y) - delta.y,
                count,
            )
            &&& !after.gps_locked
            &&& after.dirty
        }),
        view.moved_by(None) == view,
{
    law_moved_pixels(view.cursor, -delta.x, -delta.y);
}

/// Going somewhere else shows this position and releases the GPS lock, and going
/// to the current position changes nothing.
pub proof fn law_goto_shows_position(view: MapViewState, cursor: Cursor)
    ensures
        view.at(cursor).cursor == cursor,
        view.cursor != cursor ==> !view.at(cursor).gps_locked && view.at(cursor).dirty,
        view.cursor == cursor ==> view.at(cursor) == view,
        view.at(cursor).route == view.route,
{
}

/// The first finger presses a button or taps the map, twice if it is quick and
/// close enough. A second one zooms, and all others are ignored.
pub proof fn law_press_starts_action(
    view: MapViewState,
    slot: i32,
    time: u32,
    point: TouchPoint,
    near: bool,
    max_multi_tap: u32,
)
    ensures
        ({
            let after = view.pressed(slot, time, point, near, max_multi_tap);
            let fingers = view.slots.dom().len();
            let search = view.search_button.covers(point.pixel);
            let gps = view.gps_button.covers(point.pixel);
            let quick = near && time - view.last_time <= max_multi_tap;
            &&& fingers >= 2 ==> after == view
            &&& fingers == 1 ==> after.action is Zoom
            &&& fingers == 0 && search ==> after.action is Search
            &&& fingers == 0 && !search && gps ==> after.action is Gps
            &&& fingers == 0 && !search && !gps ==> (after.action is DoubleTap <==> quick)
                && (after.action is Tap <==> !quick)
            &&& fingers < 2 ==> after.slots[slot] == TouchSlot { start: point, point }
            &&& fingers == 0 && !search && !gps ==> after.last_time == time && after.last_point
                == point
            &&& search || gps || fingers > 0 ==> after.last_time == view.last_time
                && after.last_point == view.last_point
        }),
{
}

/// Double taps zoom in as long as there is a higher level, and the search button
/// opens the route if there is one. Buttons only react to releases on them.
pub proof fn law_release_reactions(view: MapViewState, point: TouchPoint, snap: ZoomSnap)
    ensures
        ({
            let release = view.release_of(point, snap);
            let on_search = view.action is Search && view.search_button.covers(point.pixel);
            &&& release is ZoomIn <==> view.action is DoubleTap && view.cursor.tile.z < 19
            &&& release matches TouchRelease::ZoomIn(focus) ==> focus == point
            &&& release is Show <==> on_search
            &&& on_search && view.route is Some ==> release == TouchRelease::Show(UiView::Route)
            &&& on_search && view.route is None ==> release == TouchRelease::Show(UiView::Search)
            &&& release is ResetZoom <==> view.action is Tap && !(snap is Exact)
        }),
{
}

/// The GPS button has no effect without GPS signal, or if it is released somewhere
/// else. While the map is locked to the current location, it releases the lock.
pub proof fn law_gps_button(
    view: MapViewState,
    point: TouchPoint,
    snap: ZoomSnap,
    current: Cursor,
    zoomed: Cursor,
)
    requires
        view.action is Gps,
    ensures
        ({
            let after = view.with_action(point, snap, current, zoomed);
            let pressed = view.gps_button.covers(point.pixel) && view.gps is Some;
            &&& !pressed ==> after == view
            &&& pressed && view.cursor != current ==> after.cursor == current && after.gps_locked
                == view.gps_locked
            &&& pressed && view.cursor == current && view.cursor.tile.z != 18 ==> after.cursor
                == zoomed
            &&& pressed && view.cursor == current && view.cursor.tile.z == 18 ==> after.cursor
                == current && after.gps_locked != view.gps_locked
        }),
{
}

/// Moving fingers keep their starting point, and unknown ones are ignored.
pub proof fn law_motion_keeps_start(view: MapViewState, slot: i32, other: i32, point: TouchPoint)
    requires
        slot != other,
    ensures
        ({
            let after = view.with_motion(slot, point);
            &&& view.slots.contains_key(slot) ==> after.slots[slot] == TouchSlot {
                start: view.slots[slot].start,
                point,
            }
            &&& !view.slots.contains_key(slot) ==> after == view
            &&& view.slots.contains_key(other) ==> after.slots[other] == view.slots[other]
            &&& after.cursor == view.cursor
        }),
{
}

/// Only a single tap may be continued to a double tap.
pub proof fn law_only_taps_are_continued(
    view: MapViewState,
    slot: i32,
    snap: ZoomSnap,
    current: Cursor,
    zoomed: Cursor,
)
    ensures
        ({
            let after = view.released(slot, snap, current, zoomed);
            &&& !after.slots.contains_key(slot)
            &&& view.action is Tap ==> after.last_time == view.last_time
            &&& !(view.action is Tap) ==> after.last_time == 0
            &&& after.slots.dom().len() > 0 ==> after.action == view.action
            &&& after.slots.dom().len() == 0 ==> after.action is Nothing
        }),
{
}

/// Without its route, the map shows the search button again and stays at its
/// position.
pub proof fn law_cancelled_route_is_hidden(view: MapViewState)
    ensures
        ({
            let after = view.without_route();
            &&& after.route is None
            &&& after.search_button.svg == Svg::Search
            &&& after.search_button.point == view.search_button.point
            &&& view.route is Some ==> after.dirty
            &&& after.cursor == view.cursor && after.gps == view.gps
            &&& after.gps_button == view.gps_button
        }),
{
}

/// Using the GPS button is redrawn.
pub proof fn law_gps_button_is_redrawn(view: MapViewState, current: Cursor, zoomed: Cursor)
    ensures
        ({
            let after = view.with_gps_button(current, zoomed);
            &&& view.gps is Some ==> after.dirty
            &&& after.route == view.route && after.gps == view.gps
        }),
{
}

} // verus!
