//! Rendering parameters.

use vstd::prelude::*;

verus! {

/// Skia OpenGL config parameters.
#[derive(Copy, Clone, Debug, PartialEq, Eq, Structural)]
pub struct GlConfig {
    pub stencil_size: usize,
    pub sample_count: usize,
}

/// Available SVG images.
#[derive(Copy, Clone, Debug, PartialEq, Eq, Hash, Structural)]
pub enum Svg {
    ArrowLeft,
    Download,
    Config,
    Search,
    Bin,
    Gps,
    CancelRoute,
    Route,
    Car,
    Pedestrian,
}

impl Svg {
    /// File name of the SVG.
    pub open spec fn spec_file(self) -> Seq<char> {
        match self {
            Svg::ArrowLeft => "arrow_left.svg"@,
            Svg::Download => "download.svg"@,
            Svg::Config => "config.svg"@,
            Svg::Search => "search.svg"@,
            Svg::Bin => "bin.svg"@,
            Svg::Gps => "gps.svg"@,
            Svg::CancelRoute => "cancel_route.svg"@,
            Svg::Route => "route.svg"@,
            Svg::Car => "car.svg"@,
            Svg::Pedestrian => "pedestrian.svg"@,
        }
    }

    /// Get the SVG's file name.
    pub fn file(self) -> (file: &'static str)
        ensures
            file@ == self.spec_file(),
    {
        match self {
            Svg::ArrowLeft => "arrow_left.svg",
            Svg::Download => "download.svg",
            Svg::Config => "config.svg",
            Svg::Search => "search.svg",
            Svg::Bin => "bin.svg",
            Svg::Gps => "gps.svg",
            Svg::CancelRoute => "cancel_route.svg",
            Svg::Route => "route.svg",
            Svg::Car => "car.svg",
            Svg::Pedestrian => "pedestrian.svg",
        }
    }
}

/// Horizontal text alignment.
#[derive(Copy, Clone, Debug, PartialEq, Eq, Structural)]
pub enum TextAlign {
    Left,
    Right,
    Center,
}

/// Text rendering style options.
#[derive(Copy, Clone, Debug, PartialEq, Eq, Structural)]
pub struct TextOptions {
    pub align: TextAlign,
    pub ellipsize: bool,
}

impl Default for TextOptions {
    fn default() -> (options: Self)
        ensures
            options == (TextOptions { align: TextAlign::Left, ellipsize: true }),
    {
        TextOptions { align: TextAlign::Left, ellipsize: true }
    }
}

impl TextOptions {
    pub fn new() -> (options: Self)
        ensures
            options == (TextOptions { align: TextAlign::Left, ellipsize: true }),
    {
        Self::default()
    }

    /// Set whether text should be multiline or ellipsized.
    pub fn ellipsize(&mut self, ellipsize: bool) -> (options: Self)
        ensures
            *final(self) == (TextOptions { ellipsize, ..*old(self) }),
            options == *final(self),
    {
        self.ellipsize = ellipsize;
        *self
    }

    /// Set the horizontal text alignment.
    pub fn align(&mut self, align: TextAlign) -> (options: Self)
        ensures
            *final(self) == (TextOptions { align, ..*old(self) }),
            options == *final(self),
    {
        self.align = align;
        *self
    }
}

/// Every icon has its own file.
pub proof fn law_icons_have_own_files(a: Svg, b: Svg)
    ensures
        a.spec_file() == b.spec_file() ==> a == b,
{
    reveal_strlit("arrow_left.svg");
    reveal_strlit("download.svg");
    reveal_strlit("config.svg");
    reveal_strlit("search.svg");
    reveal_strlit("bin.svg");
    reveal_strlit("gps.svg");
    reveal_strlit("cancel_route.svg");
    reveal_strlit("route.svg");
    reveal_strlit("car.svg");
    reveal_strlit("pedestrian.svg");
    assert("arrow_left.svg"@[0] == 'a' && "pedestrian.svg"@[0] == 'p');
    assert("config.svg"@[0] == 'c' && "search.svg"@[0] == 's');
    assert("bin.svg"@[0] == 'b' && "gps.svg"@[0] == 'g' && "car.svg"@[0] == 'c');
    if a.spec_file() == b.spec_file() {
        assert(a.spec_file().len() == b.spec_file().len());
        assert(a.spec_file()[0] == b.spec_file()[0]);
    }
}

} // verus!
