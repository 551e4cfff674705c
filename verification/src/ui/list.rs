//! Scrollable lists.

use vstd::arithmetic::div_mod::*;
use vstd::prelude::*;

use crate::geometry::Point;
use crate::ui::Layout;

verus! {

/// Number of fractions each physical pixel is split into.
pub const SUB_PIXELS: i64 = 1024;

/// Vertical list of equally sized entries, with the first one at the bottom.
#[derive(Copy, Clone, Debug, PartialEq, Eq, Structural)]
pub struct EntryList {
    /// Position of the first entry.
    pub point: Point,
    /// Width of the entries.
    pub width: i32,
    /// Height of the entries.
    pub height: i32,
    /// Space between the entries.
    pub padding: i32,
}

impl EntryList {
    /// The entries are not empty, and do not overlap each other.
    pub open spec fn valid(self) -> bool {
        &&& self.width > 0
        &&& self.height > 0
        &&& self.padding >= 0
        &&& self.height + self.padding <= i32::MAX
        &&& self.point.y + self.height <= i32::MAX
    }

    /// Vertical position of an entry.
    pub open spec fn entry_y(self, i: int, scroll: int) -> int {
        self.point.y + scroll - i * (self.height + self.padding)
    }

    /// An entry is at least partially visible.
    pub open spec fn is_visible(self, i: int, scroll: int) -> bool {
        -self.height <= self.entry_y(i, scroll) <= self.point.y + self.height
    }

    /// Visible ones of the first `n` entries, with their vertical position.
    pub open spec fn visible(self, n: int, scroll: int) -> Seq<(int, int)>
        decreases n,
    {
        if n <= 0 {
            Seq::empty()
        } else if self.is_visible(n - 1, scroll) {
            self.visible(n - 1, scroll).push((n - 1, self.entry_y(n - 1, scroll)))
        } else {
            self.visible(n - 1, scroll)
        }
    }

    /// Get all visible entries, with their vertical position.
    pub fn visible_entries(&self, count: usize, scroll: i32) -> (entries: Vec<(usize, i32)>)
        requires
            self.valid(),
            0 <= scroll,
            self.point.y + scroll <= i32::MAX,
        ensures
            entries@.map_values(|entry: (usize, i32)| (entry.0 as int, entry.1 as int))
                == self.visible(count as int, scroll as int),
    {
        let mut entries: Vec<(usize, i32)> = Vec::new();
        let ghost pair = |entry: (usize, i32)| (entry.0 as int, entry.1 as int);
        let mut y: i64 = self.point.y as i64 + scroll as i64;
        let step: i64 = self.height as i64 + self.padding as i64;
        let mut i: usize = 0;
        proof {
            assert(entries@.map_values(pair) =~= Seq::empty());
        }
        while i < count
            invariant
                i <= count,
                self.valid(),
                0 <= scroll,
                self.point.y + scroll <= i32::MAX,
                pair == |entry: (usize, i32)| (entry.0 as int, entry.1 as int),
                step == self.height + self.padding,
                y == self.entry_y(i as int, scroll as int),
                i32::MIN - i32::MAX - i32::MAX <= y <= i32::MAX,
                entries@.map_values(pair) == self.visible(i as int, scroll as int),
            decreases count - i,
        {
            if y + (self.height as i64) < 0 {
                proof {
                    self.lemma_end(i as int, count as int, scroll as int);
                }
                return entries;
            }
            let ghost before = entries@;
            if y <= self.point.y as i64 + self.height as i64 {
                entries.push((i, y as i32));
                proof {
                    assert(entries@.map_values(pair) =~= before.map_values(pair).push(
                        (i as int, y as int),
                    ));
                }
            }
            proof {
                assert(i * step + step == (i + 1) * step) by (nonlinear_arith);
            }
            y = y - step;
            i += 1;
        }
        entries
    }

    /// There are no visible entries above an entry beyond the top of the screen.
    proof fn lemma_end(self, i: int, n: int, scroll: int)
        requires
            self.valid(),
            0 <= i <= n,
            self.entry_y(i, scroll) + self.height < 0,
        ensures
            self.visible(n, scroll) == self.visible(i, scroll),
        decreases n,
    {
        if i < n {
            self.lemma_end(i, n - 1, scroll);
            let step = self.height + self.padding;
            assert(i * step <= (n - 1) * step) by (nonlinear_arith)
                requires
                    i <= n - 1,
                    step > 0,
            ;
        }
    }

    /// Number of sub-pixels between a point and the bottom of the list.
    pub open spec fn bottom_distance(self, point: Point<i64>, scroll: int) -> int {
        (self.point.y + self.height) * SUB_PIXELS - (point.y - scroll) - SUB_PIXELS
    }

    /// A point is next to or below of the list.
    pub open spec fn is_outside(self, point: Point<i64>) -> bool {
        ||| point.x < self.point.x * SUB_PIXELS
        ||| point.x >= (self.point.x + self.width) * SUB_PIXELS
        ||| point.y >= (self.point.y + self.height) * SUB_PIXELS
    }

    /// Entry at a point, together with its part above the bottom edge.
    ///
    /// There is no entry outside of the list, or in the space between entries.
    /// All lengths, including the space, are in sub-pixels.
    pub open spec fn hit(self, point: Point<i64>, scroll: int, space: int) -> Option<(int, int)> {
        let height = self.height * SUB_PIXELS;
        let distance = self.bottom_distance(point, scroll);
        if self.is_outside(point) {
            None
        } else if distance < 0 {
            Some((0, distance))
        } else if distance % (height + space) >= height {
            None
        } else {
            Some((distance / (height + space), distance % (height + space)))
        }
    }

    /// Find the entry at a point.
    ///
    /// The point, scroll offset, and space between entries are in sub-pixels.
    ///
    /// Besides the entry's index, this returns the position relative to its
    /// origin.
    pub fn entry_at(&self, point: Point<i64>, scroll: i64, space: i64) -> (entry: Option<
        (usize, Point<i64>),
    >)
        requires
            self.valid(),
            -0x1000_0000_0000_0000 <= point.x <= 0x1000_0000_0000_0000,
            -0x1000_0000_0000_0000 <= point.y <= 0x1000_0000_0000_0000,
            0 <= scroll <= 0x1000_0000_0000_0000,
            0 <= space <= 0x1000_0000_0000_0000,
        ensures
            match entry {
                Some((index, relative)) => match self.hit(point, scroll as int, space as int) {
                    Some((i, rest)) => {
                        &&& index == (if i <= usize::MAX {
                            i
                        } else {
                            usize::MAX as int
                        })
                        &&& relative.x == point.x - self.point.x * SUB_PIXELS
                        &&& relative.y == self.height * SUB_PIXELS + space - SUB_PIXELS - rest
                    },
                    None => false,
                },
                None => self.hit(point, scroll as int, space as int) is None,
            },
    {
        let left: i64 = self.point.x as i64 * SUB_PIXELS;
        let right: i64 = (self.point.x as i64 + self.width as i64) * SUB_PIXELS;
        let end: i64 = (self.point.y as i64 + self.height as i64) * SUB_PIXELS;

        // Short-circuit if point is outside the list.
        if point.x < left || point.x >= right || point.y >= end {
            return None;
        }

        // Apply current scroll offset.
        let distance: i64 = end - (point.y - scroll) - SUB_PIXELS;
        let height: i64 = self.height as i64 * SUB_PIXELS;
        let step: i64 = height + space;
        let relative_x: i64 = point.x - left;
        if distance < 0 {
            return Some((0, Point::new(relative_x, step - SUB_PIXELS - distance)));
        }

        // Ignore points within vertical padding.
        let rest: i64 = distance % step;
        if rest >= height {
            return None;
        }

        // Find index at the specified offset.
        let index: i64 = distance / step;
        let index: usize = if index as u64 <= usize::MAX as u64 {
            index as usize
        } else {
            usize::MAX
        };
        Some((index, Point::new(relative_x, step - SUB_PIXELS - rest)))
    }

    /// Highest scroll offset, for a number of entries.
    ///
    /// The offset is limited to the part of the list which does not fit between
    /// its bottom and the top of the screen.
    pub open spec fn scroll_limit(self, count: int, top_padding: int) -> int {
        let entries = count * (self.height + self.padding) - self.padding;
        let height = top_padding + if entries > 0 {
            entries
        } else {
            0
        };
        if height > self.point.y + self.height {
            height - (self.point.y + self.height)
        } else {
            0
        }
    }

    /// Get the maximum viewport offset.
    pub fn max_scroll_offset(&self, count: usize, top_padding: i32) -> (offset: usize)
        requires
            self.valid(),
            0 <= self.point.y,
            0 <= top_padding,
            count * (self.height + self.padding) + top_padding <= usize::MAX,
        ensures
            offset == self.scroll_limit(count as int, top_padding as int),
    {
        let step: usize = self.height as usize + self.padding as usize;
        let padding: usize = self.padding as usize;

        // Calculate height of all entries plus top padding.
        proof {
            assert(0 <= count * step) by (nonlinear_arith)
                requires
                    0 <= count,
                    0 <= step,
            ;
        }
        let entries: usize = count * step;
        let entries: usize = if entries >= padding {
            entries - padding
        } else {
            0
        };
        let height: usize = entries + top_padding as usize;

        // Calculate content outside the viewport.
        let bottom: usize = self.point.y as usize + self.height as usize;
        if height >= bottom {
            height - bottom
        } else {
            0
        }
    }
}

impl Layout {
    /// There is space for a list above the buttons.
    pub open spec fn has_list(self, height: int, padding: int) -> bool {
        &&& self.has_space(1)
        &&& 2 * self.padding < self.size.width
        &&& 0 < height
        &&& 0 <= padding
        &&& height + padding <= i32::MAX
        &&& self.button_size.height + 2 * self.padding + height <= i32::MAX
    }

    /// List of entries between the top of the view and its buttons.
    pub open spec fn entry_list(self, height: int, padding: int) -> EntryList {
        EntryList {
            point: Point {
                x: self.padding,
                y: (self.corner_button(0).y - self.padding - height) as i32,
            },
            width: (self.size.width - 2 * self.padding) as i32,
            height: height as i32,
            padding: padding as i32,
        }
    }

    /// Place a list of entries between the top of the view and its buttons.
    pub fn place_list(&self, height: i32, padding: i32) -> (list: EntryList)
        requires
            self.has_list(height as int, padding as int),
        ensures
            list == self.entry_list(height as int, padding as int),
            list.valid(),
    {
        proof {
            self.lemma_steps();
        }
        let button_point = self.first_button_point();
        let y: i32 = button_point.y - self.padding - height;
        EntryList {
            point: Point::new(self.padding, y),
            width: self.size.width as i32 - 2 * self.padding,
            height,
            padding,
        }
    }
}

/// Every point inside of an entry on the screen belongs to this entry.
pub proof fn law_visible_entry_is_hit(
    list: EntryList,
    i: int,
    scroll: int,
    x: int,
    y: int,
    point: Point<i64>,
)
    requires
        list.valid(),
        0 <= i,
        0 <= scroll,
        list.point.x <= x < list.point.x + list.width,
        list.entry_y(i, scroll) <= y < list.entry_y(i, scroll) + list.height,
        y < list.point.y + list.height,
        point.x == x * SUB_PIXELS,
        point.y == y * SUB_PIXELS,
    ensures
        list.hit(point, scroll * SUB_PIXELS, list.padding * SUB_PIXELS) matches Some((index, _))
            && index == i,
{
    let height = list.height * SUB_PIXELS;
    let step = height + list.padding * SUB_PIXELS;
    let distance = list.bottom_distance(point, scroll * SUB_PIXELS);
    let row = y - list.entry_y(i, scroll);
    let rest = (list.height - 1 - row) * SUB_PIXELS;
    let entry_step = list.height + list.padding;
    assert(i * entry_step * 1024 == i * step) by (nonlinear_arith)
        requires
            step == entry_step * 1024,
    ;
    assert(distance == i * step + rest);
    assert(0 <= rest < height);
    lemma_fundamental_div_mod_converse(distance, step, i, rest);
    assert(i * step >= 0) by (nonlinear_arith)
        requires
            0 <= i,
            0 < step,
    ;
}

/// Points in the space between two entries do not belong to any entry.
pub proof fn law_space_between_entries_is_not_hit(
    list: EntryList,
    i: int,
    scroll: int,
    y: int,
    point: Point<i64>,
)
    requires
        list.valid(),
        0 <= i,
        0 <= scroll,
        list.entry_y(i, scroll) - list.padding <= y < list.entry_y(i, scroll),
        point.y == y * SUB_PIXELS,
    ensures
        list.hit(point, scroll * SUB_PIXELS, list.padding * SUB_PIXELS) is None,
{
    let height = list.height * SUB_PIXELS;
    let step = height + list.padding * SUB_PIXELS;
    let distance = list.bottom_distance(point, scroll * SUB_PIXELS);
    let row = list.entry_y(i, scroll) - y;
    let rest = height + (row - 1) * SUB_PIXELS;
    let entry_step = list.height + list.padding;
    assert(i * entry_step * 1024 == i * step) by (nonlinear_arith)
        requires
            step == entry_step * 1024,
    ;
    assert(distance == i * step + rest);
    lemma_fundamental_div_mod_converse(distance, step, i, rest);
    assert(i * step >= 0) by (nonlinear_arith)
        requires
            0 <= i,
            0 < step,
    ;
}

/// At the highest scroll offset, the last entry is completely visible below the
/// padding at the top of the screen.
pub proof fn law_last_entry_can_be_reached(list: EntryList, count: int, top_padding: int)
    requires
        list.valid(),
        0 < count,
        0 <= list.point.y,
        0 <= top_padding,
    ensures
        list.entry_y(count - 1, list.scroll_limit(count, top_padding)) >= top_padding,
{
    let step = list.height + list.padding;
    assert((count - 1) * step == count * step - step && count * step >= step) by (nonlinear_arith)
        requires
            count >= 1,
            step > 0,
    ;
}

/// Every entry which is at least partially on the screen and in front of the
/// list's end is drawn, at its distance from the first entry.
pub proof fn law_entries_on_screen_are_drawn(list: EntryList, n: int, scroll: int, i: int)
    requires
        list.valid(),
        0 <= i < n,
        ({
            let y = list.point.y + scroll - i * (list.height + list.padding);
            0 < y + list.height && y < list.point.y + list.height
        }),
    ensures
        list.visible(n, scroll).contains(
            (i, list.point.y + scroll - i * (list.height + list.padding)),
        ),
    decreases n,
{
    let entries = list.visible(n, scroll);
    let entry = (i, list.point.y + scroll - i * (list.height + list.padding));
    if i == n - 1 {
        assert(entries[entries.len() - 1] == entry);
    } else {
        law_entries_on_screen_are_drawn(list, n - 1, scroll, i);
        let before = list.visible(n - 1, scroll);
        let j = choose|j: int| 0 <= j < before.len() && before[j] == entry;
        assert(entries[j] == entry);
    }
}

/// Only entries of the list are drawn, each of them once and above the ones in
/// front of it, without overlapping them.
pub proof fn law_drawn_entries_do_not_overlap(list: EntryList, n: int, scroll: int, a: int, b: int)
    requires
        list.valid(),
        0 <= a < b < list.visible(n, scroll).len(),
    ensures
        ({
            let (i, y) = list.visible(n, scroll)[a];
            let (j, above) = list.visible(n, scroll)[b];
            &&& 0 <= i < j < n
            &&& above + list.height + list.padding <= y
        }),
    decreases n,
{
    let entries = list.visible(n, scroll);
    if n > 0 {
        let before = list.visible(n - 1, scroll);
        if b < before.len() {
            law_drawn_entries_do_not_overlap(list, n - 1, scroll, a, b);
        } else {
            lemma_visible_index(list, n - 1, scroll, a);
            let i = before[a].0;
            let step = list.height + list.padding;
            assert(i * step + step <= (n - 1) * step) by (nonlinear_arith)
                requires
                    i + 1 <= n - 1,
                    step > 0,
            ;
        }
    }
}

proof fn lemma_visible_index(list: EntryList, n: int, scroll: int, a: int)
    requires
        0 <= a < list.visible(n, scroll).len(),
    ensures
        0 <= list.visible(n, scroll)[a].0 < n,
        list.visible(n, scroll)[a].1 == list.entry_y(list.visible(n, scroll)[a].0, scroll),
    decreases n,
{
    if n > 0 && a < list.visible(n - 1, scroll).len() {
        lemma_visible_index(list, n - 1, scroll, a);
    }
}

/// Lists can be scrolled by exactly the part which does not fit on the screen.
pub proof fn law_scrolling_is_limited(list: EntryList, count: int, top_padding: int)
    requires
        list.valid(),
        0 < count,
        0 <= list.point.y,
        0 <= top_padding,
    ensures
        ({
            let content = top_padding + count * list.height + (count - 1) * list.padding;
            let bottom = list.point.y + list.height;
            let limit = list.scroll_limit(count, top_padding);
            &&& content <= bottom <==> limit == 0
            &&& content > bottom ==> limit == content - bottom
        }),
{
    let entries = count * (list.height + list.padding) - list.padding;
    assert(entries == count * list.height + (count - 1) * list.padding) by (nonlinear_arith)
        requires
            entries == count * (list.height + list.padding) - list.padding,
    ;
    assert(count * list.height > 0) by (nonlinear_arith)
        requires
            count > 0,
            list.height > 0,
    ;
    assert((count - 1) * list.padding >= 0) by (nonlinear_arith)
        requires
            count >= 1,
            list.padding >= 0,
    ;
}

/// Lists fill the view between its padding, and end above the buttons.
pub proof fn law_lists_end_above_buttons(layout: Layout, height: int, padding: int)
    requires
        layout.has_list(height, padding),
    ensures
        ({
            let list = layout.entry_list(height, padding);
            &&& list.point.x == layout.padding
            &&& list.point.x + list.width + layout.padding == layout.size.width
            &&& list.point.y + list.height + layout.padding == layout.corner_button(0).y
            &&& list.height == height && list.padding == padding
        }),
{
    layout.lemma_steps();
}

} // verus!
