//! Download UI view.

use vstd::prelude::*;

use crate::geometry::{Point, Size};
use crate::region::tree::{has_path, path_end, well_formed, DownloadState, RegionTree, RegionView};
use crate::text::{decimal, to_decimal};
use crate::ui::list::{EntryList, SUB_PIXELS};
use crate::ui::skia::Svg;
use crate::ui::touch::{TouchPoint, TouchSlot, TouchSlots};
use crate::ui::view::format::{format_size, size_text};
use crate::ui::{Button, Layout};

verus! {

/// Intention of a touch sequence.
#[derive(Copy, Clone, Debug, PartialEq, Eq, Structural)]
pub enum TouchAction {
    Tap,
    Drag,
    Back,
}

/// Reaction to the release of a touch point.
#[derive(Copy, Clone, Debug, PartialEq, Eq, Structural)]
pub enum TouchRelease {
    /// Nothing needs to be done.
    Nothing,
    /// Show the search view.
    Close,
    /// Download a region's data.
    Download(usize),
    /// Delete a region's local data.
    Delete(usize),
    /// Show a different region from its start.
    Enter,
    /// Show the parent region.
    Leave,
    /// There are too many regions inside of each other.
    TooDeep,
}

/// Dimensions of the region entries.
#[derive(Copy, Clone, Debug, PartialEq, Eq, Structural)]
pub struct RegionLayout {
    /// Height of the entries.
    pub height: i32,
    /// Space between the entries.
    pub padding: i32,
    /// Size of the download and delete buttons.
    pub button_size: Size,
}

/// Tap on a region entry.
#[derive(Copy, Clone, Debug, PartialEq, Eq, Structural)]
pub struct RegionTap {
    /// Position of the region inside of its parent.
    pub position: usize,
    /// The region's button was pressed.
    pub button_pressed: bool,
}

/// Element displayed next to a region's name.
#[derive(Copy, Clone, Debug, PartialEq, Eq, Structural)]
pub enum RegionElement {
    /// Nothing.
    Empty,
    /// Download progress bar.
    Progress,
    /// Download or delete button.
    Button(Svg),
}

/// Element displayed for a download state.
pub open spec fn element_of(state: DownloadState) -> RegionElement {
    match state {
        DownloadState::NoData => RegionElement::Empty,
        DownloadState::Downloading => RegionElement::Progress,
        DownloadState::Available => RegionElement::Button(Svg::Download),
        DownloadState::Downloaded => RegionElement::Button(Svg::Bin),
    }
}

/// Get the element displayed for a download state.
pub fn region_element(state: DownloadState) -> (element: RegionElement)
    ensures
        element == element_of(state),
{
    match state {
        DownloadState::NoData => RegionElement::Empty,
        DownloadState::Downloading => RegionElement::Progress,
        DownloadState::Available => RegionElement::Button(Svg::Download),
        DownloadState::Downloaded => RegionElement::Button(Svg::Bin),
    }
}

/// Required storage size and region count text.
pub open spec fn region_text_of(size: int, regions: int) -> Seq<char> {
    if regions <= 0 {
        size_text(size)
    } else if regions == 1 {
        size_text(size) + " · 1 Region"@
    } else {
        size_text(size) + " · "@ + decimal(regions) + " Regions"@
    }
}

/// Write the required storage size and region count.
pub fn region_text(size: u64, regions: usize) -> (text: String)
    ensures
        text@ == region_text_of(size as int, regions as int),
{
    let mut text = format_size(size);
    if regions == 1 {
        text.append(" · 1 Region");
    } else if regions > 1 {
        text.append(" · ");
        text.append(to_decimal(regions as u64).as_str());
        text.append(" Regions");
    }
    text
}

/// Position of the first unused index, starting behind the first `n`.
pub open spec fn first_unused(path: Seq<usize>, n: int) -> int
    decreases path.len() - n,
{
    if 0 <= n < path.len() && path[n] != usize::MAX {
        first_unused(path, n + 1)
    } else {
        n
    }
}

/// Position of the last used one of the first `n` indices.
pub open spec fn last_used(path: Seq<usize>, n: int) -> int
    decreases n,
{
    if n <= 0 {
        -1
    } else if path[n - 1] != usize::MAX {
        n - 1
    } else {
        last_used(path, n - 1)
    }
}

/// All used indices come before the unused ones.
pub open spec fn is_path(path: Seq<usize>) -> bool {
    forall|i: int, j: int|
        0 <= i < j < path.len() && path[i] == usize::MAX ==> path[j] == usize::MAX
}

/// Download view state.
pub struct DownloadViewState {
    /// Positions of the current region and its parents.
    pub current_region: Seq<usize>,
    pub tiles_size: u64,
    pub back_button: Button,
    pub layout: Layout,
    pub region_layout: RegionLayout,
    pub slots: Map<i32, TouchSlot>,
    pub action: TouchAction,
    pub dirty: bool,
}

/// Position of the button relative to a region entry.
pub open spec fn entry_button(list: EntryList, button_size: Size) -> Point {
    let padding = (list.height - button_size.height) / 2;
    Point { x: (list.width - button_size.width - padding) as i32, y: padding as i32 }
}

/// A sub-pixel is part of a rectangle.
pub open spec fn in_sub_pixels(origin: Point, size: Size, point: Point<i64>) -> bool {
    &&& origin.x * SUB_PIXELS <= point.x < (origin.x + size.width) * SUB_PIXELS
    &&& origin.y * SUB_PIXELS <= point.y < (origin.y + size.height) * SUB_PIXELS
}

impl DownloadViewState {
    /// There is space for the region entries.
    pub open spec fn has_list(self) -> bool {
        self.layout.has_list(
            self.region_layout.height as int,
            self.region_layout.padding as int,
        )
    }

    /// There is space for the region entries and their buttons.
    pub open spec fn fits(self) -> bool {
        &&& self.has_list()
        &&& self.region_layout.button_size.height <= self.region_layout.height
        &&& self.region_layout.button_size.width <= 0x3fff_ffff
    }

    /// List of all region entries.
    pub open spec fn list(self) -> EntryList {
        self.layout.entry_list(
            self.region_layout.height as int,
            self.region_layout.padding as int,
        )
    }

    /// Tree index of the displayed region.
    pub open spec fn region(self, nodes: Seq<RegionView>) -> int {
        path_end(nodes, self.current_region, 0, 0)
    }

    /// Position of the touched region, and whether its button was pressed.
    ///
    /// The last region is at the bottom of the list.
    pub open spec fn tapped(
        self,
        nodes: Seq<RegionView>,
        point: Point<i64>,
        scroll: int,
        space: int,
    ) -> Option<(int, bool)> {
        let list = self.list();
        let count = nodes[self.region(nodes)].regions.len();
        match list.hit(point, scroll, space) {
            Some((i, rest)) => if i < count {
                let relative = Point {
                    x: (point.x - list.point.x * SUB_PIXELS) as i64,
                    y: (list.height * SUB_PIXELS + space - SUB_PIXELS - rest) as i64,
                };
                let button_size = self.region_layout.button_size;
                Some(
                    (
                        count - 1 - i,
                        in_sub_pixels(entry_button(list, button_size), button_size, relative),
                    ),
                )
            } else {
                None
            },
            None => None,
        }
    }

    /// Tree index of a region inside of the current one.
    pub open spec fn child(self, nodes: Seq<RegionView>, position: int) -> int {
        nodes[self.region(nodes)].regions[position].1 as int
    }

    /// Reaction to a tapped region.
    pub open spec fn tap_release(
        self,
        nodes: Seq<RegionView>,
        position: int,
        button_pressed: bool,
    ) -> TouchRelease {
        let child = self.child(nodes, position);
        let state = if button_pressed {
            nodes[child].download_state
        } else {
            DownloadState::NoData
        };
        match state {
            // Ignore button interactions during download.
            DownloadState::Downloading => TouchRelease::Nothing,
            DownloadState::Available => TouchRelease::Download(child as usize),
            DownloadState::Downloaded => TouchRelease::Delete(child as usize),
            DownloadState::NoData => if nodes[child].regions.len() == 0 {
                TouchRelease::Nothing
            } else if first_unused(self.current_region, 0) < self.current_region.len() {
                TouchRelease::Enter
            } else {
                TouchRelease::TooDeep
            },
        }
    }

    /// Regions after the reaction to a tapped region.
    ///
    /// The download state is changed before the work is done.
    pub open spec fn tapped_regions(
        self,
        nodes: Seq<RegionView>,
        release: TouchRelease,
    ) -> Seq<RegionView> {
        match release {
            TouchRelease::Download(child) => nodes.update(
                child as int,
                nodes[child as int].with_state(DownloadState::Downloading),
            ),
            TouchRelease::Delete(child) => nodes.update(
                child as int,
                nodes[child as int].with_state(DownloadState::Available),
            ),
            _ => nodes,
        }
    }

    /// State after the reaction to a tapped region.
    pub open spec fn with_tap(self, position: int, release: TouchRelease) -> Self {
        match release {
            TouchRelease::Enter => DownloadViewState {
                current_region: self.current_region.update(
                    first_unused(self.current_region, 0),
                    position as usize,
                ),
                dirty: true,
                ..self
            },
            TouchRelease::Download(_) | TouchRelease::Delete(_) => DownloadViewState {
                dirty: true,
                ..self
            },
            _ => self,
        }
    }

    /// State after going back to the parent region.
    pub open spec fn with_parent(self) -> Self {
        let last = last_used(self.current_region, self.current_region.len() as int);
        if last >= 0 {
            DownloadViewState {
                current_region: self.current_region.update(last, usize::MAX),
                dirty: true,
                ..self
            }
        } else {
            self
        }
    }

    /// State with a pressed touch point.
    pub open spec fn pressed(self, slot: i32, point: TouchPoint) -> Self {
        if self.slots.dom().len() > 0 {
            self
        } else {
            DownloadViewState {
                action: if self.back_button.covers(point.pixel) {
                    TouchAction::Back
                } else {
                    TouchAction::Tap
                },
                slots: self.slots.insert(slot, TouchSlot { start: point, point }),
                ..self
            }
        }
    }

    /// State after a touch point was moved.
    pub open spec fn with_motion(self, slot: i32, point: TouchPoint) -> Self {
        if self.slots.contains_key(slot) {
            DownloadViewState {
                slots: self.slots.insert(
                    slot,
                    TouchSlot { start: self.slots[slot].start, point },
                ),
                ..self
            }
        } else {
            self
        }
    }
}

/// Download UI view.
pub struct DownloadView {
    current_region: [usize; 5],
    tiles_size: u64,
    back_button: Button,
    layout: Layout,
    region_layout: RegionLayout,
    slots: TouchSlots,
    action: TouchAction,
    dirty: bool,
}

impl View for DownloadView {
    type V = DownloadViewState;

    closed spec fn view(&self) -> DownloadViewState {
        DownloadViewState {
            current_region: self.current_region@,
            tiles_size: self.tiles_size,
            back_button: self.back_button,
            layout: self.layout,
            region_layout: self.region_layout,
            slots: self.slots@,
            action: self.action,
            dirty: self.dirty,
        }
    }
}

/// Changing a region's download state keeps all paths.
proof fn lemma_state_keeps_path(
    nodes: Seq<RegionView>,
    child: int,
    state: DownloadState,
    path: Seq<usize>,
    depth: int,
    index: int,
)
    requires
        well_formed(nodes),
        0 <= child < nodes.len(),
        0 <= index < nodes.len(),
        0 <= depth,
        has_path(nodes, path, depth, index),
    ensures
        has_path(nodes.update(child, nodes[child].with_state(state)), path, depth, index),
        path_end(nodes.update(child, nodes[child].with_state(state)), path, depth, index)
            == path_end(nodes, path, depth, index),
    decreases path.len() - depth,
{
    if depth < path.len() && path[depth] != usize::MAX {
        let next = nodes[index].regions[path[depth] as int].1 as int;
        lemma_state_keeps_path(nodes, child, state, path, depth + 1, next);
    }
}

/// A path remains valid when its end is removed.
proof fn lemma_shorter_path(
    nodes: Seq<RegionView>,
    path: Seq<usize>,
    end: int,
    depth: int,
    index: int,
)
    requires
        0 <= end < path.len(),
        0 <= depth,
        has_path(nodes, path, depth, index),
    ensures
        has_path(nodes, path.update(end, usize::MAX), depth, index),
    decreases path.len() - depth,
{
    let shorter = path.update(end, usize::MAX);
    if depth < path.len() && shorter[depth] != usize::MAX {
        lemma_shorter_path(
            nodes,
            path,
            end,
            depth + 1,
            nodes[index].regions[path[depth] as int].1 as int,
        );
    }
}

/// A path remains valid when a child of the region at its end is added.
proof fn lemma_longer_path(
    nodes: Seq<RegionView>,
    path: Seq<usize>,
    end: int,
    position: usize,
    depth: int,
    index: int,
)
    requires
        0 <= depth <= end < path.len(),
        is_path(path),
        path[end] == usize::MAX,
        forall|i: int| 0 <= i < end ==> path[i] != usize::MAX,
        has_path(nodes, path, depth, index),
        position < nodes[path_end(nodes, path, depth, index)].regions.len(),
        position != usize::MAX,
    ensures
        has_path(nodes, path.update(end, position), depth, index),
        path_end(nodes, path.update(end, position), depth, index) == nodes[path_end(
            nodes,
            path,
            depth,
            index,
        )].regions[position as int].1,
    decreases path.len() - depth,
{
    let longer = path.update(end, position);
    if depth < end {
        lemma_longer_path(
            nodes,
            path,
            end,
            position,
            depth + 1,
            nodes[index].regions[path[depth] as int].1 as int,
        );
    } else {
        assert(path_end(nodes, path, depth, index) == index);
        let next = nodes[index].regions[position as int].1 as int;
        if depth + 1 < path.len() {
            assert(path[depth + 1] == usize::MAX);
            assert(longer[depth + 1] == usize::MAX);
        }
        assert(has_path(nodes, longer, depth + 1, next));
        assert(path_end(nodes, longer, depth + 1, next) == next);
    }
}

/// The first unused index follows the used ones.
proof fn lemma_first_unused(path: Seq<usize>, n: int)
    requires
        0 <= n <= path.len(),
        forall|i: int| 0 <= i < n ==> path[i] != usize::MAX,
    ensures
        n <= first_unused(path, n) <= path.len(),
        forall|i: int| 0 <= i < first_unused(path, n) ==> path[i] != usize::MAX,
        first_unused(path, n) < path.len() ==> path[first_unused(path, n)] == usize::MAX,
    decreases path.len() - n,
{
    if n < path.len() && path[n] != usize::MAX {
        lemma_first_unused(path, n + 1);
    }
}

/// All indices behind the last used one are unused.
proof fn lemma_last_used(path: Seq<usize>, n: int)
    requires
        0 <= n <= path.len(),
    ensures
        -1 <= last_used(path, n) < n,
        last_used(path, n) >= 0 ==> path[last_used(path, n)] != usize::MAX,
        forall|i: int| last_used(path, n) < i < n ==> path[i] == usize::MAX,
    decreases n,
{
    if n > 0 && path[n - 1] == usize::MAX {
        lemma_last_used(path, n - 1);
    }
}

impl DownloadView {
    /// The current region, button, and touch slots are valid.
    pub closed spec fn well_formed(&self) -> bool {
        &&& is_path(self.current_region@)
        &&& self.current_region@.len() == 5
        &&& self.back_button.fits()
        &&& self.slots.well_formed()
    }

    /// The displayed region is part of a region tree.
    pub open spec fn shows(&self, nodes: Seq<RegionView>) -> bool {
        &&& well_formed(nodes)
        &&& has_path(nodes, self@.current_region, 0, 0)
    }

    /// Create a view for the toplevel region.
    ///
    /// Until it is resized, the view is as big as its button.
    pub fn new(layout: Layout, region_layout: RegionLayout) -> (view: Self)
        requires
            layout.has_space(1),
        ensures
            view.well_formed(),
            view@ == (DownloadViewState {
                current_region: seq![usize::MAX, usize::MAX, usize::MAX, usize::MAX, usize::MAX],
                tiles_size: 0,
                back_button: Button {
                    point: layout.corner_button(0),
                    size: layout.button_size,
                    svg: Svg::ArrowLeft,
                },
                layout: Layout { size: layout.button_size, ..layout },
                region_layout,
                slots: Map::empty(),
                action: TouchAction::Tap,
                dirty: true,
            }),
    {
        proof {
            layout.lemma_steps();
        }
        let size = layout.button_size;
        let back_button = Button::new(layout.first_button_point(), size, Svg::ArrowLeft);
        let view = DownloadView {
            current_region: [usize::MAX, usize::MAX, usize::MAX, usize::MAX, usize::MAX],
            tiles_size: 0,
            back_button,
            layout: Layout { size, button_size: size, padding: layout.padding },
            region_layout,
            slots: TouchSlots::new(),
            action: TouchAction::Tap,
            dirty: true,
        };
        proof {
            assert(view.current_region@ =~= seq![
                usize::MAX,
                usize::MAX,
                usize::MAX,
                usize::MAX,
                usize::MAX,
            ]);
        }
        view
    }

    /// Mark the view as dirty.
    pub fn set_dirty(&mut self)
        requires
            old(self).well_formed(),
        ensures
            final(self).well_formed(),
            final(self)@ == (DownloadViewState { dirty: true, ..old(self)@ }),
    {
        self.dirty = true;
    }

    /// Update the tiles storage size.
    pub fn set_tiles_size(&mut self, tiles_size: u64)
        requires
            old(self).well_formed(),
        ensures
            final(self).well_formed(),
            final(self)@ == (DownloadViewState { tiles_size, ..old(self)@ }),
    {
        self.tiles_size = tiles_size;
    }

    /// Get the tree index of the currently selected region.
    pub fn region(&self, regions: &RegionTree) -> (region: usize)
        requires
            self.shows(regions@),
        ensures
            region == self@.region(regions@),
            region < regions@.len(),
    {
        regions.index_region(&self.current_region)
    }

    /// Get the tiles storage size text, if the toplevel region is displayed.
    pub fn tiles_text(&self) -> (text: Option<String>)
        requires
            self.well_formed(),
        ensures
            match text {
                Some(text) => self@.current_region[0] == usize::MAX && text@ == "Tiles: "@
                    + size_text(self@.tiles_size as int),
                None => self@.current_region[0] != usize::MAX,
            },
    {
        if self.current_region[0] == usize::MAX {
            let mut text = "Tiles: ".to_owned();
            text.append(format_size(self.tiles_size).as_str());
            Some(text)
        } else {
            None
        }
    }

    /// Get the list of region entries.
    pub fn region_list(&self) -> (list: EntryList)
        requires
            self@.has_list(),
        ensures
            list == self@.list(),
            list.valid(),
    {
        self.layout.place_list(self.region_layout.height, self.region_layout.padding)
    }

    /// Get the position of the button relative to a region entry.
    pub fn region_button_point(&self) -> (point: Point)
        requires
            self@.fits(),
        ensures
            point == entry_button(self@.list(), self@.region_layout.button_size),
    {
        let list = self.region_list();
        let button_size = self.region_layout.button_size;
        let padding: i32 = (list.height - button_size.height as i32) / 2;
        Point::new(list.width - button_size.width as i32 - padding, padding)
    }

    /// Get the region at the specified location.
    ///
    /// The point, scroll offset, and space between entries are in sub-pixels.
    pub fn region_at(&self, regions: &RegionTree, point: Point<i64>, scroll: i64, space: i64) -> (tap:
        Option<RegionTap>)
        requires
            self.shows(regions@),
            self@.fits(),
            -0x1000_0000_0000_0000 <= point.x <= 0x1000_0000_0000_0000,
            -0x1000_0000_0000_0000 <= point.y <= 0x1000_0000_0000_0000,
            0 <= scroll <= 0x1000_0000_0000_0000,
            0 <= space <= 0x1000_0000_0000_0000,
        ensures
            match tap {
                Some(tap) => {
                    &&& self@.tapped(regions@, point, scroll as int, space as int) == Some(
                        (tap.position as int, tap.button_pressed),
                    )
                    &&& tap.position < regions@[self@.region(regions@)].regions.len()
                    &&& tap.position < usize::MAX
                },
                None => self@.tapped(regions@, point, scroll as int, space as int) is None,
            },
    {
        let list = self.region_list();
        let (index, relative) = match list.entry_at(point, scroll, space) {
            Some(entry) => entry,
            None => return None,
        };

        // Find index at the specified offset.
        let count: usize = regions.get(self.region(regions)).region_count();
        if index >= count {
            return None;
        }

        // Check whether the tap is within the region's icon.
        let button = self.region_button_point();
        let button_size = self.region_layout.button_size;
        let button_pressed = button.x as i64 * SUB_PIXELS <= relative.x && relative.x < (
        button.x as i64 + button_size.width as i64) * SUB_PIXELS && button.y as i64 * SUB_PIXELS
            <= relative.y && relative.y < (button.y as i64 + button_size.height as i64)
            * SUB_PIXELS;

        Some(RegionTap { position: count - 1 - index, button_pressed })
    }

    /// Get maximum viewport offset.
    pub fn max_scroll_offset(&self, regions: &RegionTree) -> (offset: usize)
        requires
            self.shows(regions@),
            self@.has_list(),
            0 <= self@.list().point.y,
            regions@[self@.region(regions@)].regions.len() * (self@.region_layout.height
                + self@.region_layout.padding) + self@.layout.padding <= usize::MAX,
        ensures
            offset == self@.list().scroll_limit(
                regions@[self@.region(regions@)].regions.len() as int,
                self@.layout.padding as int,
            ),
    {
        let list = self.region_list();
        let count: usize = regions.get(self.region(regions)).region_count();
        list.max_scroll_offset(count, self.layout.padding)
    }

    /// Get the position of the install size label.
    ///
    /// The inside padding is the distance between a region entry and its text.
    pub fn installed_label_point(&self, inside_padding: i32) -> (point: Point)
        requires
            self@.layout.has_space(1),
            i32::MIN <= self@.layout.padding + inside_padding <= i32::MAX,
        ensures
            point.x == self@.layout.padding + inside_padding,
            point.y == self@.layout.corner_button(0).y,
    {
        Point::new(self.layout.padding + inside_padding, self.layout.first_button_point().y)
    }

    /// Get the size of the install size label.
    pub fn installed_label_size(&self) -> (size: Size)
        requires
            0 <= self@.layout.padding,
            2 * self@.layout.padding + self@.layout.button_size.width <= self@.layout.size.width,
        ensures
            size.width == self@.layout.size.width - 2 * self@.layout.padding
                - self@.layout.button_size.width,
            size.height == self@.layout.button_size.height,
    {
        let padding: u32 = self.layout.padding as u32;
        let width: u32 = self.layout.size.width - 2 * padding - self.layout.button_size.width;
        Size::new(width, self.layout.button_size.height)
    }

    /// Start a new frame.
    pub fn begin_frame(&mut self)
        requires
            old(self).well_formed(),
        ensures
            final(self).well_formed(),
            final(self)@ == (DownloadViewState { dirty: false, ..old(self)@ }),
    {
        self.dirty = false;
    }

    /// Get the back button.
    pub fn back_button(&self) -> (button: Button)
        ensures
            button == self@.back_button,
    {
        self.back_button
    }

    /// Check whether the view requires a redraw.
    ///
    /// This does not include pending velocities.
    pub fn dirty(&self) -> (dirty: bool)
        ensures
            dirty == self@.dirty,
    {
        self.dirty
    }

    /// Update the view's physical size.
    pub fn set_size(&mut self, size: Size)
        requires
            old(self).well_formed(),
            (Layout { size, ..old(self)@.layout }).has_space(1),
            old(self)@.back_button.size == old(self)@.layout.button_size,
        ensures
            final(self).well_formed(),
            ({
                let layout = Layout { size, ..old(self)@.layout };
                final(self)@ == (DownloadViewState {
                    layout,
                    dirty: true,
                    back_button: Button {
                        point: layout.corner_button(0),
                        ..old(self)@.back_button
                    },
                    ..old(self)@
                })
            }),
    {
        self.layout.size = size;
        self.dirty = true;
        proof {
            self.layout.lemma_steps();
        }

        // Update UI elements.
        self.back_button.set_point(self.layout.first_button_point());
    }

    /// Update the view's physical dimensions.
    pub fn set_scale_factor(&mut self, layout: Layout, region_layout: RegionLayout)
        requires
            old(self).well_formed(),
            layout.has_space(1),
        ensures
            final(self).well_formed(),
            final(self)@ == (DownloadViewState {
                layout,
                region_layout,
                dirty: true,
                back_button: Button {
                    point: layout.corner_button(0),
                    size: layout.button_size,
                    ..old(self)@.back_button
                },
                ..old(self)@
            }),
    {
        self.layout = layout;
        self.region_layout = region_layout;
        self.dirty = true;
        proof {
            layout.lemma_steps();
        }

        // Update UI elements.
        self.back_button.set_point(layout.first_button_point());
        self.back_button.set_size(layout.button_size);
    }

    /// Handle touch press.
    pub fn touch_down(&mut self, slot: i32, point: TouchPoint)
        requires
            old(self).well_formed(),
        ensures
            final(self).well_formed(),
            final(self)@ == old(self)@.pressed(slot, point),
    {
        // Only allow a single active touch slot.
        if self.slots.len() > 0 {
            return ;
        }

        // Determine goal of this touch sequence.
        self.action = if self.back_button.contains(point.pixel) {
            TouchAction::Back
        } else {
            TouchAction::Tap
        };

        self.slots.press(slot, point);
    }

    /// Handle touch motion.
    ///
    /// This returns the slot and its last position, if the regions can be dragged
    /// with it.
    pub fn touch_motion(&mut self, slot: i32, point: TouchPoint) -> (motion: Option<
        (TouchSlot, TouchPoint),
    >)
        requires
            old(self).well_formed(),
        ensures
            final(self).well_formed(),
            final(self)@ == old(self)@.with_motion(slot, point),
            motion == (if old(self)@.slots.contains_key(slot) && (old(self)@.action
                == TouchAction::Tap || old(self)@.action == TouchAction::Drag) {
                Some((final(self)@.slots[slot], old(self)@.slots[slot].point))
            } else {
                None
            }),
    {
        // Ignore unknown touch slots.
        let moved = match self.slots.motion(slot, point) {
            Some(moved) => moved,
            None => return None,
        };

        // Handle action transitions.
        match self.action {
            TouchAction::Tap | TouchAction::Drag => Some(moved),
            _ => None,
        }
    }

    /// Drag the regions with a touch point.
    ///
    /// The tap distance limit must have been exceeded.
    pub fn drag(&mut self, scrolled: bool)
        requires
            old(self).well_formed(),
        ensures
            final(self).well_formed(),
            final(self)@ == (DownloadViewState {
                action: TouchAction::Drag,
                dirty: old(self)@.dirty || scrolled,
                ..old(self)@
            }),
    {
        self.action = TouchAction::Drag;
        self.dirty = self.dirty || scrolled;
    }

    /// Handle touch release.
    ///
    /// The scroll offset and space between entries are in sub-pixels.
    pub fn touch_up(&mut self, regions: &mut RegionTree, slot: i32, scroll: i64, space: i64) -> (release:
        TouchRelease)
        requires
            old(self).well_formed(),
            old(self).shows(old(regions)@),
            old(self)@.fits(),
            0 <= scroll <= 0x1000_0000_0000_0000,
            0 <= space <= 0x1000_0000_0000_0000,
            old(self)@.slots.contains_key(slot) ==> {
                let point = old(self)@.slots[slot].point.sub_pixel;
                &&& -0x1000_0000_0000_0000 <= point.x <= 0x1000_0000_0000_0000
                &&& -0x1000_0000_0000_0000 <= point.y <= 0x1000_0000_0000_0000
            },
        ensures
            final(self).well_formed(),
            final(self).shows(final(regions)@),
            ({
                let view = DownloadViewState {
                    slots: old(self)@.slots.remove(slot),
                    ..old(self)@
                };
                let nodes = old(regions)@;
                let point = old(self)@.slots[slot].point;
                let tapped = view.tapped(nodes, point.sub_pixel, scroll as int, space as int);
                if old(self)@.slots.contains_key(slot) && view.action == TouchAction::Tap
                    && tapped is Some {
                    let (position, button_pressed) = tapped->0;
                    &&& release == view.tap_release(nodes, position, button_pressed)
                    &&& final(regions)@ == view.tapped_regions(nodes, release)
                    &&& final(self)@ == view.with_tap(position, release)
                } else if old(self)@.slots.contains_key(slot) && view.action == TouchAction::Back
                    && view.back_button.covers(point.pixel) {
                    &&& release == (if last_used(view.current_region, 5) >= 0 {
                        TouchRelease::Leave
                    } else {
                        TouchRelease::Close
                    })
                    &&& final(regions)@ == nodes
                    &&& final(self)@ == view.with_parent()
                } else {
                    &&& release == TouchRelease::Nothing
                    &&& final(regions)@ == nodes
                    &&& final(self)@ == view
                }
            }),
    {
        // Reset touch slot, ignoring unknown slots.
        let removed = match self.slots.release(slot) {
            Some(removed) => removed,
            None => {
                proof {
                    assert(self.slots@.remove(slot) =~= self.slots@);
                }
                return TouchRelease::Nothing;
            },
        };

        // Dispatch tap actions on release.
        match self.action {
            // Handle touch tap on region entries.
            TouchAction::Tap => {
                match self.region_at(regions, removed.point.sub_pixel, scroll, space) {
                    Some(tap) => self.tap_region(regions, tap.position, tap.button_pressed),
                    None => TouchRelease::Nothing,
                }
            },
            // Handle "back" button navigation.
            TouchAction::Back => {
                if self.back_button.contains(removed.point.pixel) {
                    self.leave_region(regions)
                } else {
                    TouchRelease::Nothing
                }
            },
            _ => TouchRelease::Nothing,
        }
    }

    /// Handle a tap on a region entry.
    pub fn tap_region(&mut self, regions: &mut RegionTree, position: usize, button_pressed: bool) -> (release:
        TouchRelease)
        requires
            old(self).well_formed(),
            old(self).shows(old(regions)@),
            position < old(regions)@[old(self)@.region(old(regions)@)].regions.len(),
            position < usize::MAX,
        ensures
            final(self).well_formed(),
            final(self).shows(final(regions)@),
            release == old(self)@.tap_release(old(regions)@, position as int, button_pressed),
            final(regions)@ == old(self)@.tapped_regions(old(regions)@, release),
            final(self)@ == old(self)@.with_tap(position as int, release),
    {
        let ghost nodes = regions@;
        let ghost path = self.current_region@;
        let region: usize = self.region(regions);
        assert(region < nodes[region as int].regions[position as int].1 < nodes.len());
        let child: usize = match regions.get(region).region(position) {
            Some(child) => child,
            None => return TouchRelease::Nothing,
        };
        let download_state = if button_pressed {
            regions.get(child).download_state()
        } else {
            DownloadState::NoData
        };

        match download_state {
            // Ignore button interactions during download.
            DownloadState::Downloading => TouchRelease::Nothing,
            // Download region's data.
            DownloadState::Available => {
                // Immediately mark region as downloading.
                regions.set_download_state(child, DownloadState::Downloading);
                self.dirty = true;
                proof {
                    lemma_state_keeps_path(
                        nodes,
                        child as int,
                        DownloadState::Downloading,
                        path,
                        0,
                        0,
                    );
                }
                TouchRelease::Download(child)
            },
            // Delete region's local data.
            DownloadState::Downloaded => {
                // Immediately mark region as available for download.
                regions.set_download_state(child, DownloadState::Available);
                self.dirty = true;
                proof {
                    lemma_state_keeps_path(
                        nodes,
                        child as int,
                        DownloadState::Available,
                        path,
                        0,
                        0,
                    );
                }
                TouchRelease::Delete(child)
            },
            DownloadState::NoData => {
                // Ignore touch on region when region doesn't have child regions.
                if regions.get(child).region_count() == 0 {
                    return TouchRelease::Nothing;
                }

                // Handle navigation into the next region.
                let mut depth: usize = 0;
                while depth < 5 && self.current_region[depth] != usize::MAX
                    invariant
                        depth <= 5,
                        self.current_region@.len() == 5,
                        self.current_region@ == path,
                        first_unused(path, depth as int) == first_unused(path, 0),
                    decreases 5 - depth,
                {
                    depth += 1;
                }
                if depth == 5 {
                    return TouchRelease::TooDeep;
                }
                proof {
                    lemma_first_unused(path, 0);
                    lemma_longer_path(nodes, path, depth as int, position, 0, 0);
                }
                self.current_region[depth] = position;
                self.dirty = true;
                TouchRelease::Enter
            },
        }
    }

    /// Go back to the parent region.
    fn leave_region(&mut self, regions: &RegionTree) -> (release: TouchRelease)
        requires
            old(self).well_formed(),
            old(self).shows(regions@),
        ensures
            final(self).well_formed(),
            final(self).shows(regions@),
            release == (if last_used(old(self)@.current_region, 5) >= 0 {
                TouchRelease::Leave
            } else {
                TouchRelease::Close
            }),
            final(self)@ == old(self)@.with_parent(),
    {
        let ghost path = self.current_region@;
        let mut depth: usize = 5;
        while depth > 0
            invariant
                depth <= 5,
                self.current_region@.len() == 5,
                self.current_region@ == path,
                last_used(path, depth as int) == last_used(path, 5),
            ensures
                depth == last_used(path, 5) + 1,
                depth <= 5,
            decreases depth,
        {
            if self.current_region[depth - 1] != usize::MAX {
                break ;
            }
            depth -= 1;
        }
        if depth == 0 {
            return TouchRelease::Close;
        }
        proof {
            lemma_last_used(path, 5);
            lemma_shorter_path(regions@, path, depth - 1, 0, 0);
        }
        self.current_region[depth - 1] = usize::MAX;
        self.dirty = true;
        TouchRelease::Leave
    }

    /// Handle config updates.
    pub fn update_config(&mut self, input_changed: bool)
        requires
            old(self).well_formed(),
        ensures
            final(self).well_formed(),
            final(self)@ == (DownloadViewState {
                dirty: old(self)@.dirty || input_changed,
                ..old(self)@
            }),
    {
        self.dirty = self.dirty || input_changed;
    }
}

/// State of a region once its download has ended.
pub fn finish_download(regions: &mut RegionTree, region: usize, success: bool)
    requires
        region < old(regions)@.len(),
    ensures
        final(regions)@ == old(regions)@.update(
            region as int,
            old(regions)@[region as int].with_state(
                if success {
                    DownloadState::Downloaded
                } else {
                    DownloadState::Available
                },
            ),
        ),
        well_formed(old(regions)@) ==> well_formed(final(regions)@),
{
    let state = if success {
        DownloadState::Downloaded
    } else {
        DownloadState::Available
    };
    regions.set_download_state(region, state);
}

/// Going back after entering a region shows the previous region again.
pub proof fn law_enter_and_leave(view: DownloadViewState, position: int)
    requires
        is_path(view.current_region),
        first_unused(view.current_region, 0) < view.current_region.len(),
        0 <= position < usize::MAX,
    ensures
        view.with_tap(position, TouchRelease::Enter).with_parent().current_region
            == view.current_region,
{
    let path = view.current_region;
    lemma_first_unused(path, 0);
    let entered = view.with_tap(position, TouchRelease::Enter).current_region;
    let end = first_unused(path, 0);
    lemma_last_used(entered, entered.len() as int);
    let last = last_used(entered, entered.len() as int);
    assert(entered[end] == position);
    if last > end {
        assert(path[last] == usize::MAX);
    }
    assert(last == end);
    assert(entered.update(last, usize::MAX) =~= path);
}

/// The button of a region downloads or deletes its data, depending on whether it
/// is installed. The region's state changes right away, and nothing else does.
pub proof fn law_button_toggles_download(
    view: DownloadViewState,
    nodes: Seq<RegionView>,
    position: int,
)
    requires
        0 <= view.region(nodes) < nodes.len(),
        0 <= position < nodes[view.region(nodes)].regions.len(),
        0 <= view.child(nodes, position) < nodes.len(),
    ensures
        ({
            let child = nodes[view.region(nodes)].regions[position].1 as int;
            let release = view.tap_release(nodes, position, true);
            let after = view.tapped_regions(nodes, release);
            let state = nodes[child].download_state;
            &&& release matches TouchRelease::Download(region) ==> region == child
            &&& release matches TouchRelease::Delete(region) ==> region == child
            &&& release is Download <==> state == DownloadState::Available
            &&& release is Delete <==> state == DownloadState::Downloaded
            &&& state == DownloadState::Downloading ==> release is Nothing
            &&& after.len() == nodes.len()
            &&& release is Download ==> after[child].download_state == DownloadState::Downloading
                && after[child].download_pending == 0 && after[child].download_done == 0
            &&& release is Delete ==> after[child].download_state == DownloadState::Available
            &&& !(release is Download) && !(release is Delete) ==> after == nodes
            &&& forall|i: int| 0 <= i < nodes.len() && i != child ==> #[trigger] after[i]
                == nodes[i]
        }),
{
}

/// Regions without button behave the same wherever they are tapped, and tapping
/// next to a button never downloads or deletes anything. Only regions with
/// children can be entered.
pub proof fn law_tapping_enters_region(
    view: DownloadViewState,
    nodes: Seq<RegionView>,
    position: int,
)
    ensures
        ({
            let child = nodes[view.region(nodes)].regions[position].1 as int;
            let release = view.tap_release(nodes, position, false);
            &&& release is Nothing || release is Enter || release is TooDeep
            &&& release is Nothing <==> nodes[child].regions.len() == 0
            &&& nodes[child].download_state == DownloadState::NoData ==> view.tap_release(
                nodes,
                position,
                true,
            ) == release
        }),
{
}

/// After entering a region, this region is shown.
pub proof fn law_entered_region_is_shown(
    view: DownloadViewState,
    nodes: Seq<RegionView>,
    position: int,
)
    requires
        is_path(view.current_region),
        has_path(nodes, view.current_region, 0, 0),
        0 <= position < nodes[view.region(nodes)].regions.len(),
        position < usize::MAX,
        view.tap_release(nodes, position, false) is Enter,
    ensures
        view.with_tap(position, TouchRelease::Enter).region(nodes) == view.child(nodes, position),
        view.with_tap(position, TouchRelease::Enter).dirty,
{
    let path = view.current_region;
    lemma_first_unused(path, 0);
    lemma_longer_path(nodes, path, first_unused(path, 0), position as usize, 0, 0);
}

/// There is nothing to leave at the root, which is always shown for an empty
/// path.
pub proof fn law_root_has_no_parent(view: DownloadViewState, nodes: Seq<RegionView>)
    requires
        view.current_region.len() > 0,
        forall|i: int|
            0 <= i < view.current_region.len() ==> #[trigger] view.current_region[i] == usize::MAX,
    ensures
        view.region(nodes) == 0,
        view.with_parent() == view,
{
    lemma_last_used(view.current_region, view.current_region.len() as int);
    assert(view.current_region[0] == usize::MAX);
}

/// Regions have a button exactly if it has an effect, which shows that effect.
pub proof fn law_element_shows_state(state: DownloadState)
    ensures
        element_of(state) == RegionElement::Button(Svg::Download) <==> state
            == DownloadState::Available,
        element_of(state) == RegionElement::Button(Svg::Bin) <==> state
            == DownloadState::Downloaded,
        element_of(state) is Progress <==> state == DownloadState::Downloading,
        element_of(state) is Empty <==> state == DownloadState::NoData,
{
}

/// The last region is at the bottom of the list, and regions come in reverse
/// order above it. Every tapped region exists.
pub proof fn law_regions_are_listed_bottom_up(
    view: DownloadViewState,
    nodes: Seq<RegionView>,
    point: Point<i64>,
    scroll: int,
    space: int,
    i: int,
    rest: int,
)
    requires
        view.list().hit(point, scroll, space) == Some((i, rest)),
        0 <= i,
    ensures
        ({
            let count = nodes[view.region(nodes)].regions.len();
            let tapped = view.tapped(nodes, point, scroll, space);
            &&& tapped is Some <==> i < count
            &&& tapped matches Some((position, _)) ==> 0 <= position < count && position + i + 1
                == count
        }),
{
}

/// Nothing is tapped where there is no entry.
pub proof fn law_empty_space_is_not_tapped(
    view: DownloadViewState,
    nodes: Seq<RegionView>,
    point: Point<i64>,
    scroll: int,
    space: int,
)
    requires
        view.list().hit(point, scroll, space) is None,
    ensures
        view.tapped(nodes, point, scroll, space) is None,
{
}

/// Only the first finger counts, and it keeps its starting point while it moves.
pub proof fn law_single_touch_point(
    view: DownloadViewState,
    slot: i32,
    other: i32,
    point: TouchPoint,
    next: TouchPoint,
)
    requires
        view.slots == Map::<i32, TouchSlot>::empty(),
        slot != other,
    ensures
        ({
            let pressed = view.pressed(slot, point);
            &&& pressed.slots.dom() == set![slot]
            &&& pressed.slots[slot] == TouchSlot { start: point, point }
            &&& pressed.action is Back <==> view.back_button.covers(point.pixel)
            &&& pressed.pressed(other, next) == pressed
            &&& pressed.with_motion(other, next) == pressed
            &&& pressed.with_motion(slot, next).slots[slot] == TouchSlot {
                start: point,
                point: next,
            }
        }),
{
    let pressed = view.pressed(slot, point);
    assert(view.slots.dom() =~= Set::<i32>::empty());
    assert(pressed.slots.dom() =~= set![slot]);
    assert(pressed.slots.dom().len() == 1) by {
        assert(set![slot] =~= Set::<i32>::empty().insert(slot));
    }
}

/// The text of a region starts with its size, and ends with the number of regions
/// inside of it if there are any.
pub proof fn law_region_text_has_size_and_count(size: int, regions: int)
    requires
        0 <= regions,
    ensures
        ({
            let text = region_text_of(size, regions);
            let size_len = size_text(size).len() as int;
            &&& text.len() >= size_len && text.take(size_len) == size_text(size)
            &&& regions == 0 ==> text.len() == size_len
            &&& regions == 1 ==> text.skip(size_len) == " · 1 Region"@
            &&& regions > 1 ==> text.skip(size_len) == " · "@ + decimal(regions) + " Regions"@
        }),
{
    let text = region_text_of(size, regions);
    let size_len = size_text(size).len() as int;
    assert(text.take(size_len) =~= size_text(size));
    if regions == 1 {
        assert(text.skip(size_len) =~= " · 1 Region"@);
    } else if regions > 1 {
        assert(text.skip(size_len) =~= " · "@ + decimal(regions) + " Regions"@);
    }
}

/// The button is inside of its region's entry, with the same padding above and on
/// its right.
pub proof fn law_region_button_is_inside_entry(list: EntryList, button_size: Size)
    requires
        list.valid(),
        button_size.height <= list.height,
        button_size.width + (list.height - button_size.height) / 2 <= list.width,
    ensures
        ({
            let button = entry_button(list, button_size);
            &&& 0 <= button.x && 0 <= button.y
            &&& button.x + button_size.width + button.y == list.width
            &&& 0 <= (list.height - button_size.height - button.y) - button.y <= 1
        }),
{
}

/// A region's button is pressed only if the point is inside of it, relative to the
/// left edge of the list.
pub proof fn law_region_button_is_pressed(
    view: DownloadViewState,
    nodes: Seq<RegionView>,
    point: Point<i64>,
    scroll: int,
    space: int,
)
    requires
        i64::MIN <= point.x - view.list().point.x * SUB_PIXELS <= i64::MAX,
    ensures
        view.tapped(nodes, point, scroll, space) matches Some((_, pressed)) ==> {
            let size = view.region_layout.button_size;
            let left = (view.list().point.x + entry_button(view.list(), size).x) * SUB_PIXELS;
            pressed ==> left <= point.x < left + size.width * SUB_PIXELS
        },
{
}

} // verus!
