//! User interface state.

pub mod list;
pub mod skia;
pub mod text_field;
pub mod touch;
pub mod view;
pub mod window;

use vstd::prelude::*;

use crate::geometry::{rect_contains, Point, Size};
use crate::ui::skia::Svg;

verus! {

/// An SVG button.
#[derive(Copy, Clone, Debug, PartialEq, Eq, Structural)]
pub struct Button {
    pub point: Point,
    pub size: Size,
    pub svg: Svg,
}

impl Button {
    /// The button's corners have valid coordinates.
    pub open spec fn fits(self) -> bool {
        &&& self.size.width <= i32::MAX
        &&& self.size.height <= i32::MAX
        &&& self.point.x + self.size.width <= i32::MAX
        &&& self.point.y + self.size.height <= i32::MAX
    }

    /// A pixel is part of the button.
    pub open spec fn covers(self, point: Point) -> bool {
        &&& self.point.x <= point.x < self.point.x + self.size.width
        &&& self.point.y <= point.y < self.point.y + self.size.height
    }

    pub fn new(point: Point, size: Size, svg: Svg) -> (button: Self)
        ensures
            button == (Button { point, size, svg }),
    {
        Button { point, size, svg }
    }

    /// Update the button's position.
    pub fn set_point(&mut self, point: Point)
        ensures
            *final(self) == (Button { point, ..*old(self) }),
    {
        self.point = point;
    }

    /// Update the button's size.
    pub fn set_size(&mut self, size: Size)
        ensures
            *final(self) == (Button { size, ..*old(self) }),
    {
        self.size = size;
    }

    /// Change the button's SVG.
    pub fn set_svg(&mut self, svg: Svg)
        ensures
            *final(self) == (Button { svg, ..*old(self) }),
    {
        self.svg = svg;
    }

    /// Check if a point lies within this button.
    pub fn contains(&self, point: Point) -> (contains: bool)
        requires
            self.fits(),
        ensures
            contains == self.covers(point),
    {
        let size = Size::new(self.size.width as i32, self.size.height as i32);
        rect_contains(self.point, size, point)
    }

    /// Get the position and size of the button's icon.
    ///
    /// The padding is reserved on each side of the icon.
    pub fn icon(&self, padding: Size) -> (icon: (Point, Size))
        requires
            self.fits(),
            2 * padding.width <= self.size.width,
            2 * padding.height <= self.size.height,
        ensures
            icon.0.x == self.point.x + padding.width,
            icon.0.y == self.point.y + padding.height,
            icon.1.width == self.size.width - 2 * padding.width,
            icon.1.height == self.size.height - 2 * padding.height,
    {
        let size = self.size - Size::new(padding.width * 2, padding.height * 2);
        let x: i32 = self.point.x + padding.width as i32;
        let y: i32 = self.point.y + padding.height as i32;
        (Point::new(x, y), size)
    }
}

/// Physical dimensions of a view and its elements.
#[derive(Copy, Clone, Debug, PartialEq, Eq, Structural)]
pub struct Layout {
    /// Size of the view.
    pub size: Size,
    /// Size of the buttons.
    pub button_size: Size,
    /// Space around the view's content and between the buttons.
    pub padding: i32,
}

impl Layout {
    /// The positions of a number of buttons next to each other are valid.
    pub open spec fn has_space(self, buttons: int) -> bool {
        &&& 0 <= self.padding
        &&& self.button_size.width <= self.size.width <= i32::MAX
        &&& self.button_size.height <= self.size.height <= i32::MAX
        &&& buttons * (self.button_size.width + self.padding) <= i32::MAX
    }

    /// Position of a button in the bottom right corner.
    ///
    /// The buttons are numbered starting with the one closest to the corner.
    pub open spec fn corner_button(self, i: int) -> Point {
        Point {
            x: (self.size.width - (i + 1) * (self.button_size.width + self.padding)) as i32,
            y: (self.size.height - self.button_size.height - self.padding) as i32,
        }
    }

    /// Distances between the buttons are multiples of their step.
    pub proof fn lemma_steps(self)
        ensures
            ({
                let step = self.button_size.width + self.padding;
                &&& 1 * step == step
                &&& 2 * step == step + step
                &&& 3 * step == step + step + step
                &&& (0 + 1) * step == step
                &&& (1 + 1) * step == step + step
                &&& (2 + 1) * step == step + step + step
            }),
    {
        let step = self.button_size.width + self.padding;
        assert(1 * step == step && 2 * step == step + step && 3 * step == step + step + step)
            by (nonlinear_arith);
    }

    /// Get the position of the first button in the bottom right corner.
    pub fn first_button_point(&self) -> (point: Point)
        requires
            self.has_space(1),
        ensures
            point == self.corner_button(0),
    {
        proof {
            self.lemma_steps();
        }
        let x: i32 = (self.size.width - self.button_size.width) as i32 - self.padding;
        let y: i32 = (self.size.height - self.button_size.height) as i32 - self.padding;
        Point::new(x, y)
    }

    /// Get the position of the second button in the bottom right corner.
    pub fn second_button_point(&self) -> (point: Point)
        requires
            self.has_space(2),
        ensures
            point == self.corner_button(1),
    {
        proof {
            self.lemma_steps();
        }
        let mut point = self.first_button_point();
        point.x = point.x - (self.button_size.width as i32 + self.padding);
        point
    }

    /// Get the position of the third button in the bottom right corner.
    pub fn third_button_point(&self) -> (point: Point)
        requires
            self.has_space(3),
        ensures
            point == self.corner_button(2),
    {
        proof {
            self.lemma_steps();
        }
        let mut point = self.second_button_point();
        point.x = point.x - (self.button_size.width as i32 + self.padding);
        point
    }
}

/// Buttons in the corner do not overlap.
pub proof fn law_corner_buttons_are_disjoint(layout: Layout, i: int, j: int, svgs: (Svg, Svg), point: Point)
    requires
        0 <= i < j,
        layout.has_space(j + 1),
    ensures
        ({
            let a = Button { point: layout.corner_button(i), size: layout.button_size, svg: svgs.0 };
            let b = Button { point: layout.corner_button(j), size: layout.button_size, svg: svgs.1 };
            !(a.covers(point) && b.covers(point))
        }),
{
    let step = layout.button_size.width + layout.padding;
    assert(0 <= (i + 1) * step && (i + 1) * step + step <= (j + 1) * step) by (nonlinear_arith)
        requires
            0 <= i < j,
            0 <= step,
    ;
}

/// Buttons in the corner are numbered from right to left, and keep the padding to
/// the edges of the view and to each other.
pub proof fn law_corner_buttons_keep_padding(layout: Layout, i: int)
    requires
        0 <= i,
        layout.has_space(i + 2),
    ensures
        ({
            let button = layout.corner_button(i);
            let next = layout.corner_button(i + 1);
            &&& layout.corner_button(0).x + layout.button_size.width + layout.padding
                == layout.size.width
            &&& button.y + layout.button_size.height + layout.padding == layout.size.height
            &&& next.y == button.y
            &&& next.x + layout.button_size.width + layout.padding == button.x
        }),
{
    let step = layout.button_size.width + layout.padding;
    assert((i + 2) * step == (i + 1) * step + step && 0 <= (i + 1) * step && (0 + 1) * step == step)
        by (nonlinear_arith)
        requires
            0 <= i,
            0 <= step,
    ;
}

/// Buttons have exactly the pixels of their rectangle.
pub proof fn law_button_area(button: Button, point: Point)
    ensures
        button.covers(point) <==> 0 <= point.x - button.point.x < button.size.width && 0 <= point.y
            - button.point.y < button.size.height,
{
}

} // verus!
