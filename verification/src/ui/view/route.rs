//! Route overview UI view.

use vstd::prelude::*;

use crate::geometry::{GeoPoint, Point, Size};
use crate::router::{Mode, Route};
use crate::ui::skia::Svg;
use crate::ui::touch::{TouchPoint, TouchSlot, TouchSlots};
use crate::ui::view::search::RouteOrigin;
use crate::ui::{Button, Layout};

verus! {

/// Intention of a touch sequence.
#[derive(Copy, Clone, Debug, PartialEq, Eq, Structural)]
pub enum TouchAction {
    Tap,
    Drag,
    Cancel,
    Back,
    Mode,
}

/// Reaction to the release of a touch point.
#[derive(Copy, Clone, Debug, PartialEq, Eq, Structural)]
pub enum TouchRelease {
    /// Nothing needs to be done.
    Nothing,
    /// Cancel the active route and show the map.
    Cancel,
    /// Show the map.
    Back,
    /// Start a new route calculation.
    Route { origin: RouteOrigin, target: GeoPoint, mode: Mode },
}

/// Route view state.
pub struct RouteViewState {
    pub route: Option<Route>,
    /// Heights of all segments, if these are known.
    pub segment_heights: Option<Seq<i32>>,
    pub max_scroll_offset: int,
    pub is_gps_route: bool,
    pub cancel_button: Button,
    pub back_button: Button,
    pub mode_button: Button,
    pub layout: Layout,
    pub slots: Map<i32, TouchSlot>,
    pub action: TouchAction,
    pub dirty: bool,
}

/// Height of the first `n` segments, including the space above each of them.
pub open spec fn segments_height(heights: Seq<i32>, padding: int, n: int) -> int
    decreases n,
{
    if n <= 0 {
        0
    } else {
        segments_height(heights, padding, n - 1) + heights[n - 1] + padding
    }
}

/// Visible ones of the first `n` segments, with the position of their bottom.
pub open spec fn visible_segments_of(
    heights: Seq<i32>,
    padding: int,
    start: int,
    scroll: int,
    n: int,
) -> Seq<(int, int)>
    decreases n,
{
    if n <= 0 {
        Seq::empty()
    } else {
        let y = start + scroll - segments_height(heights, padding, n - 1);
        let previous = visible_segments_of(heights, padding, start, scroll, n - 1);
        if y >= 0 && y - heights[n - 1] < start {
            previous.push((n - 1, y))
        } else {
            previous
        }
    }
}

/// All segments have a valid height.
pub open spec fn valid_heights(heights: Seq<i32>, padding: int) -> bool {
    &&& forall|i: int| 0 <= i < heights.len() ==> 0 <= #[trigger] heights[i]
    &&& segments_height(heights, padding, heights.len() as int) <= i32::MAX
}

proof fn lemma_segments_height(heights: Seq<i32>, padding: int, m: int, n: int)
    requires
        0 <= padding,
        forall|i: int| 0 <= i < heights.len() ==> 0 <= #[trigger] heights[i],
        0 <= m <= n <= heights.len(),
    ensures
        0 <= segments_height(heights, padding, m) <= segments_height(heights, padding, n),
    decreases n,
{
    if m < n {
        lemma_segments_height(heights, padding, m, n - 1);
    } else if n > 0 {
        lemma_segments_height(heights, padding, m - 1, n - 1);
    }
}

/// There are no visible segments above a segment beyond the top of the screen.
proof fn lemma_no_more_segments(
    heights: Seq<i32>,
    padding: int,
    start: int,
    scroll: int,
    m: int,
    n: int,
)
    requires
        0 <= padding,
        forall|i: int| 0 <= i < heights.len() ==> 0 <= #[trigger] heights[i],
        0 <= m <= n <= heights.len(),
        start + scroll - segments_height(heights, padding, m) < 0,
    ensures
        visible_segments_of(heights, padding, start, scroll, n) == visible_segments_of(
            heights,
            padding,
            start,
            scroll,
            m,
        ),
    decreases n,
{
    if m < n {
        lemma_segments_height(heights, padding, m, n - 1);
        lemma_no_more_segments(heights, padding, start, scroll, m, n - 1);
    }
}

/// Find all visible segments, with the position of their bottom.
///
/// The segments are listed from the bottom to the top.
pub fn visible_segments(heights: &Vec<i32>, padding: i32, start: i32, scroll: i32) -> (segments: Vec<
    (usize, i32),
>)
    requires
        0 <= padding,
        0 <= scroll,
        start + scroll <= i32::MAX,
        valid_heights(heights@, padding as int),
    ensures
        segments@.map_values(|segment: (usize, i32)| (segment.0 as int, segment.1 as int))
            == visible_segments_of(
            heights@,
            padding as int,
            start as int,
            scroll as int,
            heights@.len() as int,
        ),
{
    let mut segments: Vec<(usize, i32)> = Vec::new();
    let ghost pair = |segment: (usize, i32)| (segment.0 as int, segment.1 as int);
    let mut y: i64 = start as i64 + scroll as i64;
    let mut i: usize = 0;
    proof {
        assert(segments@.map_values(pair) =~= Seq::empty());
    }
    while i < heights.len()
        invariant
            i <= heights.len(),
            0 <= padding,
            0 <= scroll,
            start + scroll <= i32::MAX,
            valid_heights(heights@, padding as int),
            pair == |segment: (usize, i32)| (segment.0 as int, segment.1 as int),
            y == start + scroll - segments_height(heights@, padding as int, i as int),
            segments@.map_values(pair) == visible_segments_of(
                heights@,
                padding as int,
                start as int,
                scroll as int,
                i as int,
            ),
        decreases heights.len() - i,
    {
        proof {
            lemma_segments_height(heights@, padding as int, i as int, i + 1);
            lemma_segments_height(heights@, padding as int, i + 1, heights@.len() as int);
        }
        if y < 0 {
            proof {
                lemma_no_more_segments(
                    heights@,
                    padding as int,
                    start as int,
                    scroll as int,
                    i as int,
                    heights@.len() as int,
                );
            }
            return segments;
        }
        let height: i32 = heights[i];
        let ghost before = segments@;
        if y - (height as i64) < start as i64 {
            segments.push((i, y as i32));
            proof {
                assert(segments@.map_values(pair) =~= before.map_values(pair).push(
                    (i as int, y as int),
                ));
            }
        }
        y = y - (height as i64 + padding as i64);
        i += 1;
    }
    segments
}

impl RouteViewState {
    /// State with a pressed touch point.
    pub open spec fn pressed(self, slot: i32, point: TouchPoint) -> Self {
        if self.slots.dom().len() > 0 {
            self
        } else {
            RouteViewState {
                action: if self.cancel_button.covers(point.pixel) {
                    TouchAction::Cancel
                } else if self.back_button.covers(point.pixel) {
                    TouchAction::Back
                } else if self.mode_button.covers(point.pixel) {
                    TouchAction::Mode
                } else {
                    TouchAction::Tap
                },
                slots: self.slots.insert(slot, TouchSlot { start: point, point }),
                ..self
            }
        }
    }

    /// State after a touch point was moved.
    pub open spec fn with_motion(self, slot: i32, point: TouchPoint) -> Self {
        if self.slots.contains_key(slot) {
            RouteViewState {
                slots: self.slots.insert(
                    slot,
                    TouchSlot { start: self.slots[slot].start, point },
                ),
                ..self
            }
        } else {
            self
        }
    }

    /// First and last point of the route.
    pub open spec fn ends(self) -> Option<(GeoPoint, GeoPoint)> {
        match self.route {
            Some(route) => if route.segments@.len() > 0 && route.segments@.first().points@.len() > 0
                && route.segments@.last().points@.len() > 0 {
                Some((route.segments@.first().points@.first(), route.segments@.last().points@.last()))
            } else {
                None
            },
            None => None,
        }
    }

    /// Reaction to a released touch point.
    pub open spec fn release_of(self, point: TouchPoint) -> TouchRelease {
        match self.action {
            TouchAction::Cancel => if self.cancel_button.covers(point.pixel) {
                TouchRelease::Cancel
            } else {
                TouchRelease::Nothing
            },
            TouchAction::Back => if self.back_button.covers(point.pixel) {
                TouchRelease::Back
            } else {
                TouchRelease::Nothing
            },
            TouchAction::Mode => match self.ends() {
                Some((origin, target)) => if self.mode_button.covers(point.pixel) {
                    TouchRelease::Route {
                        origin: if self.is_gps_route {
                            RouteOrigin::Gps
                        } else {
                            RouteOrigin::GeoPoint(origin)
                        },
                        target,
                        mode: self.route->0.mode.spec_toggled(),
                    }
                } else {
                    TouchRelease::Nothing
                },
                // Ignore request for invalid routes.
                None => TouchRelease::Nothing,
            },
            _ => TouchRelease::Nothing,
        }
    }
}

/// Route UI view.
pub struct RouteView {
    route: Option<Route>,
    segment_heights: Option<Vec<i32>>,
    max_scroll_offset: i64,
    is_gps_route: bool,
    cancel_button: Button,
    back_button: Button,
    mode_button: Button,
    layout: Layout,
    slots: TouchSlots,
    action: TouchAction,
    dirty: bool,
}

impl View for RouteView {
    type V = RouteViewState;

    closed spec fn view(&self) -> RouteViewState {
        RouteViewState {
            route: self.route,
            segment_heights: match self.segment_heights {
                Some(heights) => Some(heights@),
                None => None,
            },
            max_scroll_offset: self.max_scroll_offset as int,
            is_gps_route: self.is_gps_route,
            cancel_button: self.cancel_button,
            back_button: self.back_button,
            mode_button: self.mode_button,
            layout: self.layout,
            slots: self.slots@,
            action: self.action,
            dirty: self.dirty,
        }
    }
}

impl RouteView {
    /// The buttons and touch slots are valid.
    pub closed spec fn well_formed(&self) -> bool {
        &&& self.cancel_button.fits()
        &&& self.back_button.fits()
        &&& self.mode_button.fits()
        &&& self.slots.well_formed()
    }

    /// Create a view without a route.
    ///
    /// Until it is resized, the view is as big as one of its buttons.
    pub fn new(layout: Layout) -> (view: Self)
        requires
            layout.has_space(3),
        ensures
            view.well_formed(),
            ({
                let button_size = layout.button_size;
                let small = Layout { size: button_size, ..layout };
                view@ == (RouteViewState {
                    route: None,
                    segment_heights: None,
                    max_scroll_offset: 0,
                    is_gps_route: false,
                    mode_button: Button {
                        point: layout.corner_button(1),
                        size: button_size,
                        svg: Svg::Car,
                    },
                    back_button: Button {
                        point: small.corner_button(0),
                        size: button_size,
                        svg: Svg::ArrowLeft,
                    },
                    cancel_button: Button {
                        point: small.corner_button(2),
                        size: button_size,
                        svg: Svg::CancelRoute,
                    },
                    layout: small,
                    slots: Map::empty(),
                    action: TouchAction::Tap,
                    dirty: true,
                })
            }),
    {
        proof {
            layout.lemma_steps();
        }
        let size = layout.button_size;
        let mode_button = Button::new(layout.second_button_point(), size, Svg::Car);
        let layout = Layout { size, button_size: size, padding: layout.padding };
        let back_button = Button::new(layout.first_button_point(), size, Svg::ArrowLeft);
        let cancel_button = Button::new(layout.third_button_point(), size, Svg::CancelRoute);
        RouteView {
            route: None,
            segment_heights: None,
            max_scroll_offset: 0,
            is_gps_route: false,
            cancel_button,
            back_button,
            mode_button,
            layout,
            slots: TouchSlots::new(),
            action: TouchAction::Tap,
            dirty: true,
        }
    }

    /// Update the active route.
    ///
    /// The new route is shown from its start.
    pub fn set_route(&mut self, route: Route, is_gps_route: bool)
        requires
            old(self).well_formed(),
        ensures
            final(self).well_formed(),
            final(self)@ == (RouteViewState {
                route: Some(route),
                segment_heights: None,
                max_scroll_offset: 0,
                is_gps_route,
                mode_button: Button { svg: route.mode.spec_svg(), ..old(self)@.mode_button },
                dirty: true,
                ..old(self)@
            }),
    {
        self.mode_button.set_svg(route.mode.svg());
        self.is_gps_route = is_gps_route;
        self.route = Some(route);
        self.max_scroll_offset = 0;
        self.segment_heights = None;
        self.dirty = true;
    }

    /// Get the active route.
    pub fn route(&self) -> (route: Option<&Route>)
        ensures
            match route {
                Some(route) => self@.route == Some(*route),
                None => self@.route is None,
            },
    {
        match &self.route {
            Some(route) => Some(route),
            None => None,
        }
    }

    /// Check whether the segment heights are unknown.
    ///
    /// Since segments are variable in height based on content, every segment's
    /// layout is determined the first time a route is rendered.
    pub fn needs_layout(&self) -> (needs_layout: bool)
        ensures
            needs_layout == (self@.segment_heights is None),
    {
        self.segment_heights.is_none()
    }

    /// Update the heights of all segments.
    ///
    /// The first segment starts at the specified bottom, and the padding is the
    /// space above every segment. The maximum scroll offset is limited to the
    /// part of the route above the top of the screen.
    pub fn set_segment_heights(
        &mut self,
        heights: Vec<i32>,
        padding: i32,
        start: i32,
        outside_padding: i32,
    )
        requires
            old(self).well_formed(),
            0 <= padding,
            valid_heights(heights@, padding as int),
        ensures
            final(self).well_formed(),
            ({
                let height = segments_height(heights@, padding as int, heights@.len() as int);
                let max_offset = height - start + outside_padding;
                final(self)@ == (RouteViewState {
                    segment_heights: Some(heights@),
                    max_scroll_offset: if max_offset > 0 {
                        max_offset
                    } else {
                        0
                    },
                    ..old(self)@
                })
            }),
    {
        let mut y: i64 = start as i64;
        let mut i: usize = 0;
        while i < heights.len()
            invariant
                i <= heights.len(),
                0 <= padding,
                valid_heights(heights@, padding as int),
                y == start - segments_height(heights@, padding as int, i as int),
            decreases heights.len() - i,
        {
            proof {
                lemma_segments_height(heights@, padding as int, i as int, i + 1);
                lemma_segments_height(heights@, padding as int, i + 1, heights@.len() as int);
            }
            y = y - (heights[i] as i64 + padding as i64);
            i += 1;
        }
        proof {
            lemma_segments_height(
                heights@,
                padding as int,
                heights@.len() as int,
                heights@.len() as int,
            );
        }

        let max_offset: i64 = -y + outside_padding as i64;
        self.max_scroll_offset = if max_offset > 0 {
            max_offset
        } else {
            0
        };
        self.segment_heights = Some(heights);
    }

    /// Get the heights of all segments.
    pub fn segment_heights(&self) -> (heights: Option<&Vec<i32>>)
        ensures
            match heights {
                Some(heights) => self@.segment_heights == Some(heights@),
                None => self@.segment_heights is None,
            },
    {
        match &self.segment_heights {
            Some(heights) => Some(heights),
            None => None,
        }
    }

    /// Get the maximum viewport offset.
    pub fn max_scroll_offset(&self) -> (offset: i64)
        ensures
            offset == self@.max_scroll_offset,
    {
        self.max_scroll_offset
    }

    /// Get the position of the route summary text.
    pub fn summary_label_point(&self) -> (point: Point)
        requires
            self@.layout.has_space(1),
        ensures
            point == (Point {
                x: self@.layout.padding,
                y: self@.layout.corner_button(2).y,
            }),
    {
        Point::new(self.layout.padding, self.layout.first_button_point().y)
    }

    /// Get the size of the route summary text.
    pub fn summary_label_size(&self) -> (size: Size)
        requires
            self@.layout.has_space(3),
            2 * self@.layout.padding <= self@.layout.size.width - 3 * (
            self@.layout.button_size.width + self@.layout.padding),
        ensures
            size.width == self@.layout.size.width - 3 * (self@.layout.button_size.width
                + self@.layout.padding) - 2 * self@.layout.padding,
            size.height == self@.layout.button_size.height,
    {
        proof {
            self.layout.lemma_steps();
        }
        let button_point = self.layout.third_button_point();
        let padding: u32 = self.layout.padding as u32;
        Size::new(button_point.x as u32 - 2 * padding, self.layout.button_size.height)
    }

    /// Start a new frame.
    pub fn begin_frame(&mut self)
        requires
            old(self).well_formed(),
        ensures
            final(self).well_formed(),
            final(self)@ == (RouteViewState { dirty: false, ..old(self)@ }),
    {
        self.dirty = false;
    }

    /// Get all buttons.
    pub fn buttons(&self) -> (buttons: (Button, Button, Button))
        ensures
            buttons == (self@.cancel_button, self@.mode_button, self@.back_button),
    {
        (self.cancel_button, self.mode_button, self.back_button)
    }

    /// Check whether the view requires a redraw.
    ///
    /// This does not include pending velocities.
    pub fn dirty(&self) -> (dirty: bool)
        ensures
            dirty == self@.dirty,
    {
        self.dirty
    }

    /// Update the view's physical size.
    pub fn set_size(&mut self, size: Size)
        requires
            old(self).well_formed(),
            (Layout { size, ..old(self)@.layout }).has_space(3),
            old(self)@.cancel_button.size == old(self)@.layout.button_size,
            old(self)@.mode_button.size == old(self)@.layout.button_size,
            old(self)@.back_button.size == old(self)@.layout.button_size,
        ensures
            final(self).well_formed(),
            ({
                let layout = Layout { size, ..old(self)@.layout };
                final(self)@ == (RouteViewState {
                    layout,
                    dirty: true,
                    cancel_button: Button {
                        point: layout.corner_button(2),
                        ..old(self)@.cancel_button
                    },
                    mode_button: Button {
                        point: layout.corner_button(1),
                        ..old(self)@.mode_button
                    },
                    back_button: Button {
                        point: layout.corner_button(0),
                        ..old(self)@.back_button
                    },
                    ..old(self)@
                })
            }),
    {
        self.layout.size = size;
        self.dirty = true;
        proof {
            self.layout.lemma_steps();
        }

        // Update UI elements.
        self.cancel_button.set_point(self.layout.third_button_point());
        self.mode_button.set_point(self.layout.second_button_point());
        self.back_button.set_point(self.layout.first_button_point());
    }

    /// Update the view's physical dimensions.
    pub fn set_scale_factor(&mut self, layout: Layout)
        requires
            old(self).well_formed(),
            layout.has_space(3),
        ensures
            final(self).well_formed(),
            final(self)@ == (RouteViewState {
                layout,
                dirty: true,
                cancel_button: Button {
                    point: layout.corner_button(2),
                    size: layout.button_size,
                    ..old(self)@.cancel_button
                },
                mode_button: Button {
                    point: layout.corner_button(1),
                    size: layout.button_size,
                    ..old(self)@.mode_button
                },
                back_button: Button {
                    point: layout.corner_button(0),
                    size: layout.button_size,
                    ..old(self)@.back_button
                },
                ..old(self)@
            }),
    {
        self.layout = layout;
        self.dirty = true;
        proof {
            layout.lemma_steps();
        }

        // Update UI elements.
        self.cancel_button.set_point(layout.third_button_point());
        self.cancel_button.set_size(layout.button_size);
        self.back_button.set_point(layout.first_button_point());
        self.back_button.set_size(layout.button_size);
        self.mode_button.set_point(layout.second_button_point());
        self.mode_button.set_size(layout.button_size);
    }

    /// Handle touch press.
    pub fn touch_down(&mut self, slot: i32, point: TouchPoint)
        requires
            old(self).well_formed(),
        ensures
            final(self).well_formed(),
            final(self)@ == old(self)@.pressed(slot, point),
    {
        // Only allow a single active touch slot.
        if self.slots.len() > 0 {
            return ;
        }

        // Determine goal of this touch sequence.
        self.action = if self.cancel_button.contains(point.pixel) {
            TouchAction::Cancel
        } else if self.back_button.contains(point.pixel) {
            TouchAction::Back
        } else if self.mode_button.contains(point.pixel) {
            TouchAction::Mode
        } else {
            TouchAction::Tap
        };

        self.slots.press(slot, point);
    }

    /// Handle touch motion.
    ///
    /// This returns the slot and its last position, if the route can be dragged
    /// with it.
    pub fn touch_motion(&mut self, slot: i32, point: TouchPoint) -> (motion: Option<
        (TouchSlot, TouchPoint),
    >)
        requires
            old(self).well_formed(),
        ensures
            final(self).well_formed(),
            final(self)@ == old(self)@.with_motion(slot, point),
            motion == (if old(self)@.slots.contains_key(slot) && (old(self)@.action
                == TouchAction::Tap || old(self)@.action == TouchAction::Drag) {
                Some((final(self)@.slots[slot], old(self)@.slots[slot].point))
            } else {
                None
            }),
    {
        // Ignore unknown touch slots.
        let moved = match self.slots.motion(slot, point) {
            Some(moved) => moved,
            None => return None,
        };

        // Handle action transitions.
        match self.action {
            TouchAction::Tap | TouchAction::Drag => Some(moved),
            _ => None,
        }
    }

    /// Drag the route with a touch point.
    ///
    /// The tap distance limit must have been exceeded.
    pub fn drag(&mut self, scrolled: bool)
        requires
            old(self).well_formed(),
        ensures
            final(self).well_formed(),
            final(self)@ == (RouteViewState {
                action: TouchAction::Drag,
                dirty: old(self)@.dirty || scrolled,
                ..old(self)@
            }),
    {
        self.action = TouchAction::Drag;
        self.dirty = self.dirty || scrolled;
    }

    /// Handle touch release.
    pub fn touch_up(&mut self, slot: i32) -> (release: TouchRelease)
        requires
            old(self).well_formed(),
        ensures
            final(self).well_formed(),
            release == (if old(self)@.slots.contains_key(slot) {
                old(self)@.release_of(old(self)@.slots[slot].point)
            } else {
                TouchRelease::Nothing
            }),
            final(self)@ == (RouteViewState {
                slots: old(self)@.slots.remove(slot),
                ..old(self)@
            }),
    {
        // Reset touch slot, ignoring unknown slots.
        let removed = match self.slots.release(slot) {
            Some(removed) => removed,
            None => {
                proof {
                    assert(self.slots@.remove(slot) =~= self.slots@);
                }
                return TouchRelease::Nothing;
            },
        };

        // Dispatch tap actions on release.
        match self.action {
            // Handle route cancel button.
            TouchAction::Cancel => {
                if self.cancel_button.contains(removed.point.pixel) {
                    return TouchRelease::Cancel;
                }
            },
            // Handle "back" button navigation.
            TouchAction::Back => {
                if self.back_button.contains(removed.point.pixel) {
                    return TouchRelease::Back;
                }
            },
            // Handle route transportation mode toggle.
            TouchAction::Mode => {
                if self.mode_button.contains(removed.point.pixel) {
                    return self.toggle_mode();
                }
            },
            _ => {},
        }
        TouchRelease::Nothing
    }

    /// Change the route's transportation mode.
    fn toggle_mode(&self) -> (release: TouchRelease)
        ensures
            release == (match self@.ends() {
                Some((origin, target)) => TouchRelease::Route {
                    origin: if self@.is_gps_route {
                        RouteOrigin::Gps
                    } else {
                        RouteOrigin::GeoPoint(origin)
                    },
                    target,
                    mode: self@.route->0.mode.spec_toggled(),
                },
                None => TouchRelease::Nothing,
            }),
    {
        let route = match &self.route {
            Some(route) => route,
            None => return TouchRelease::Nothing,
        };

        // Determine the current route's origin and target.
        let len: usize = route.segments.len();
        if len == 0 {
            return TouchRelease::Nothing;
        }
        let first = &route.segments[0].points;
        let last = &route.segments[len - 1].points;
        if first.len() == 0 || last.len() == 0 {
            return TouchRelease::Nothing;
        }
        let origin = if self.is_gps_route {
            RouteOrigin::Gps
        } else {
            RouteOrigin::GeoPoint(first[0])
        };
        TouchRelease::Route { origin, target: last[last.len() - 1], mode: route.mode.toggled() }
    }

    /// Handle config updates.
    pub fn update_config(&mut self, input_changed: bool)
        requires
            old(self).well_formed(),
        ensures
            final(self).well_formed(),
            final(self)@ == (RouteViewState {
                dirty: old(self)@.dirty || input_changed,
                ..old(self)@
            }),
    {
        self.dirty = self.dirty || input_changed;
    }
}

/// At the highest scroll offset, the top of the last segment is visible below
/// the padding at the top of the screen.
pub proof fn law_last_segment_can_be_reached(
    heights: Seq<i32>,
    padding: int,
    start: int,
    outside_padding: int,
)
    requires
        0 <= padding,
        valid_heights(heights, padding),
    ensures
        ({
            let height = segments_height(heights, padding, heights.len() as int);
            let max_offset = height - start + outside_padding;
            let scroll = if max_offset > 0 {
                max_offset
            } else {
                0
            };
            start + scroll - height >= outside_padding
        }),
{
}

/// Switching the transportation mode twice restores it.
pub proof fn law_toggled_mode_is_restored(mode: Mode)
    ensures
        mode.spec_toggled() != mode,
        mode.spec_toggled().spec_toggled() == mode,
{
}

/// Buttons only react to releases on them. Changing the mode requests the same
/// route with the other mode, from the GPS location if it is a GPS route.
pub proof fn law_release_reactions(view: RouteViewState, point: TouchPoint)
    ensures
        ({
            let release = view.release_of(point);
            &&& release is Cancel <==> view.action is Cancel && view.cancel_button.covers(
                point.pixel,
            )
            &&& release is Back <==> view.action is Back && view.back_button.covers(point.pixel)
            &&& release is Route ==> view.action is Mode && view.mode_button.covers(point.pixel)
            &&& view.action is Mode && view.mode_button.covers(point.pixel) && view.ends() is Some
                ==> release is Route
            &&& release matches TouchRelease::Route { origin, target, mode } ==> {
                let segments = view.route->0.segments@;
                &&& target == segments.last().points@.last()
                &&& mode != view.route->0.mode
                &&& view.is_gps_route ==> origin is Gps
                &&& !view.is_gps_route ==> origin == RouteOrigin::GeoPoint(
                    segments.first().points@.first(),
                )
            }
        }),
{
}

/// Only the first finger counts, and it keeps its starting point while it moves.
pub proof fn law_single_touch_point(
    view: RouteViewState,
    slot: i32,
    other: i32,
    point: TouchPoint,
    next: TouchPoint,
)
    requires
        view.slots == Map::<i32, TouchSlot>::empty(),
        slot != other,
    ensures
        ({
            let pressed = view.pressed(slot, point);
            let cancel = view.cancel_button.covers(point.pixel);
            let back = view.back_button.covers(point.pixel);
            let mode = view.mode_button.covers(point.pixel);
            &&& pressed.slots.dom() == set![slot]
            &&& pressed.slots[slot] == TouchSlot { start: point, point }
            &&& cancel && !back && !mode ==> pressed.action is Cancel
            &&& back && !cancel && !mode ==> pressed.action is Back
            &&& mode && !cancel && !back ==> pressed.action is Mode
            &&& !cancel && !back && !mode <==> pressed.action is Tap
            &&& pressed.pressed(other, next) == pressed
            &&& pressed.with_motion(other, next) == pressed
            &&& pressed.with_motion(slot, next).slots[slot] == TouchSlot {
                start: point,
                point: next,
            }
        }),
{
    let pressed = view.pressed(slot, point);
    assert(view.slots.dom() =~= Set::<i32>::empty());
    assert(pressed.slots.dom() =~= set![slot]);
    assert(pressed.slots.dom().len() == 1) by {
        assert(set![slot] =~= Set::<i32>::empty().insert(slot));
    }
}

/// Every segment which is at least partially on the screen is drawn above all
/// previous ones, with the padding between them.
pub proof fn law_segments_on_screen_are_drawn(
    heights: Seq<i32>,
    padding: int,
    start: int,
    scroll: int,
    n: int,
    i: int,
)
    requires
        0 <= i < n <= heights.len(),
        ({
            let bottom = start + scroll - segments_height(heights, padding, i);
            0 <= bottom && bottom - heights[i] < start
        }),
    ensures
        visible_segments_of(heights, padding, start, scroll, n).contains(
            (i, start + scroll - segments_height(heights, padding, i)),
        ),
    decreases n,
{
    let segments = visible_segments_of(heights, padding, start, scroll, n);
    let segment = (i, start + scroll - segments_height(heights, padding, i));
    if i == n - 1 {
        assert(segments[segments.len() - 1] == segment);
    } else {
        law_segments_on_screen_are_drawn(heights, padding, start, scroll, n - 1, i);
        let before = visible_segments_of(heights, padding, start, scroll, n - 1);
        let j = choose|j: int| 0 <= j < before.len() && before[j] == segment;
        assert(segments[j] == segment);
    }
}

/// Segments are stacked with their padding between them.
pub proof fn law_segments_are_stacked(heights: Seq<i32>, padding: int, i: int)
    requires
        0 <= i < heights.len(),
    ensures
        segments_height(heights, padding, i + 1) - segments_height(heights, padding, i)
            == heights[i] + padding,
        segments_height(heights, padding, 0) == 0,
{
}

} // verus!
