//! Vector tile draw calls.

use vstd::prelude::*;

use crate::config::Color;
use crate::tiles::vector::kind::Kind;
use crate::tiles::vector::layer::{GeometryType, Layer};
use crate::tiles::vector::protobuf::Tile;
use crate::tiles::vector::render::{played, render, renderable, tile_events, RenderEvent, RenderTile};
use crate::tiles::vector::theme::{Tags, TagsView, Theme};

verus! {

/// Lines beyond this width are outlined.
pub const MAX_PLAIN_WIDTH: u32 = 4;

/// Part of a path, in the coordinate system of its layer.
#[derive(Copy, Clone, Debug, PartialEq, Eq, Structural)]
pub enum PathVerb {
    MoveTo(i32, i32),
    LineTo(i32, i32),
    Close,
}

/// Operation for drawing a path.
#[derive(Debug)]
pub enum DrawOp {
    /// Write text along the path.
    Text(String),
    /// Fill the path, with every overlap being cut out.
    Fill(Color),
    /// Draw lines along the path.
    Stroke {
        color: Color,
        width: u32,
        dash: Option<(u32, u32)>,
        /// Draw a dimmed outline below the lines.
        outline: bool,
    },
}

/// Path with the operation for drawing it.
#[derive(Debug)]
pub struct DrawCall {
    /// Width and height of the path's coordinate system.
    pub extent: u32,
    pub path: Vec<PathVerb>,
    pub op: DrawOp,
}

/// Contents of a draw operation.
pub enum DrawOpView {
    Text(Seq<char>),
    Fill(Color),
    Stroke { color: Color, width: u32, dash: Option<(u32, u32)>, outline: bool },
}

/// Contents of a draw call.
pub struct DrawCallView {
    pub extent: u32,
    pub path: Seq<PathVerb>,
    pub op: DrawOpView,
}

impl View for DrawOp {
    type V = DrawOpView;

    open spec fn view(&self) -> DrawOpView {
        match *self {
            DrawOp::Text(text) => DrawOpView::Text(text@),
            DrawOp::Fill(color) => DrawOpView::Fill(color),
            DrawOp::Stroke { color, width, dash, outline } => DrawOpView::Stroke {
                color,
                width,
                dash,
                outline,
            },
        }
    }
}

impl View for DrawCall {
    type V = DrawCallView;

    open spec fn view(&self) -> DrawCallView {
        DrawCallView { extent: self.extent, path: self.path@, op: self.op@ }
    }
}

/// Contents of a list of draw calls.
pub open spec fn call_views(calls: Seq<DrawCall>) -> Seq<DrawCallView> {
    calls.map_values(|call: DrawCall| call@)
}

/// Channel of an underground feature, dimmed to 80%.
pub open spec fn dimmed(channel: u8) -> u8 {
    ((8 * channel + 5) / 10) as u8
}

/// Color of a feature.
pub open spec fn feature_color(color: Color, tunnel: bool) -> Color {
    if tunnel {
        Color { r: dimmed(color.r), g: dimmed(color.g), b: dimmed(color.b) }
    } else {
        color
    }
}

/// Operation for drawing a feature's path.
///
/// Street labels write their name along the path. Polygons are filled without
/// outline, and only solid lines which are wide enough have an outline. Points
/// are not drawn.
pub open spec fn draw_op(
    theme: Theme,
    layer: Layer,
    tags: TagsView,
    geometry_type: Option<GeometryType>,
) -> Option<DrawOpView> {
    match theme.spec_style(layer, tags) {
        None => None,
        Some(style) => {
            let color = feature_color(style.color, tags.tunnel);
            if layer == Layer::StreetLabels && tags.name is Some {
                Some(DrawOpView::Text(tags.name->0))
            } else {
                match geometry_type {
                    Some(GeometryType::Polygon) => Some(DrawOpView::Fill(color)),
                    Some(GeometryType::Linestring) => Some(
                        DrawOpView::Stroke {
                            color,
                            width: style.stroke_width,
                            dash: style.dash,
                            outline: style.dash is None && style.stroke_width > MAX_PLAIN_WIDTH,
                        },
                    ),
                    _ => None,
                }
            }
        },
    }
}

/// State of a tile renderer.
pub struct RendererView {
    pub theme: Theme,
    pub geometry_type: Option<GeometryType>,
    pub path: Seq<PathVerb>,
    pub extent: u32,
    pub layer: Layer,
    pub tags: TagsView,
    pub calls: Seq<DrawCallView>,
}

impl RendererView {
    /// Renderer after drawing its current path.
    pub open spec fn drawn(self) -> Self {
        RendererView {
            path: Seq::empty(),
            calls: match draw_op(self.theme, self.layer, self.tags, self.geometry_type) {
                Some(op) if self.path.len() > 0 => self.calls.push(
                    DrawCallView { extent: self.extent, path: self.path, op },
                ),
                _ => self.calls,
            },
            ..self
        }
    }

    /// Whether the current feature has a path.
    pub open spec fn has_path(self) -> bool {
        self.geometry_type == Some(GeometryType::Polygon) || self.geometry_type == Some(
            GeometryType::Linestring,
        )
    }

    /// Renderer after extending its path.
    pub open spec fn extended(self, verb: PathVerb) -> Self {
        if self.has_path() {
            RendererView { path: self.path.push(verb), ..self }
        } else {
            self
        }
    }

    /// Renderer after a step.
    pub open spec fn stepped(self, event: RenderEvent) -> Self {
        match event {
            RenderEvent::Layer(layer, extent) => RendererView { layer, extent, ..self.drawn() },
            RenderEvent::Feature(geometry_type, tags) => RendererView {
                geometry_type: Some(geometry_type),
                tags,
                ..self.drawn()
            },
            RenderEvent::MoveTo(x, y) => self.extended(PathVerb::MoveTo(x, y)),
            RenderEvent::LineTo(x, y) => self.extended(PathVerb::LineTo(x, y)),
            RenderEvent::ClosePath => if self.path.len() > 0 {
                self.extended(PathVerb::Close)
            } else {
                self
            },
        }
    }
}

/// Vector tile renderer.
pub struct TileRenderer {
    theme: Theme,
    geometry_type: Option<GeometryType>,
    path: Vec<PathVerb>,
    extent: u32,
    layer: Layer,
    tags: Tags,
    calls: Vec<DrawCall>,
}

impl View for TileRenderer {
    type V = RendererView;

    closed spec fn view(&self) -> RendererView {
        RendererView {
            theme: self.theme,
            geometry_type: self.geometry_type,
            path: self.path@,
            extent: self.extent,
            layer: self.layer,
            tags: self.tags@,
            calls: call_views(self.calls@),
        }
    }
}

/// Renderer without any content.
pub open spec fn blank(theme: Theme) -> RendererView {
    RendererView {
        theme,
        geometry_type: None,
        path: Seq::empty(),
        extent: 0,
        layer: Layer::Ocean,
        tags: TagsView::empty(),
        calls: Seq::empty(),
    }
}

impl TileRenderer {
    pub fn new(theme: Theme) -> (renderer: Self)
        ensures
            renderer@ == blank(theme),
    {
        let calls: Vec<DrawCall> = Vec::new();
        proof {
            assert(call_views(calls@) =~= Seq::<DrawCallView>::empty());
        }
        TileRenderer {
            theme,
            geometry_type: None,
            path: Vec::new(),
            extent: 0,
            layer: Layer::Ocean,
            tags: Tags { name: None, tunnel: false, kind: Kind::Untagged },
            calls,
        }
    }

    /// Draw the current path/polygon.
    fn draw_path(&mut self)
        ensures
            final(self)@ == old(self)@.drawn(),
    {
        // Ignore empty paths.
        if self.path.len() == 0 {
            proof {
                assert(self@.path =~= Seq::<PathVerb>::empty());
            }
            return ;
        }

        // Skip rendering for types without style.
        let ghost before = self@;
        let mut path: Vec<PathVerb> = Vec::new();
        path.append(&mut self.path);
        proof {
            assert(path@ =~= before.path);
            assert(self.path@ =~= Seq::<PathVerb>::empty());
        }
        let style = match self.theme.style(self.layer, &self.tags) {
            Some(style) => style,
            None => return ,
        };

        let op = match &self.tags.name {
            // Write street labels along their path.
            Some(name) if self.layer == Layer::StreetLabels => DrawOp::Text(name.clone()),
            _ => {
                // Dim colors for underground features.
                let color = if self.tags.tunnel {
                    Color {
                        r: dim(style.color.r),
                        g: dim(style.color.g),
                        b: dim(style.color.b),
                    }
                } else {
                    style.color
                };

                match self.geometry_type {
                    // Draw polygon paths.
                    //
                    // This draws all polygons of a single feature. Outlines are not rendered
                    // since the performance impact of stroking polygons is too big.
                    Some(GeometryType::Polygon) => DrawOp::Fill(color),
                    // Draw dimmed outline for girthy, non-dashed lines.
                    //
                    // We draw outlines only for lines (streets), since they're more important
                    // for visual clarity compared to buildings.
                    Some(GeometryType::Linestring) => DrawOp::Stroke {
                        color,
                        width: style.stroke_width,
                        dash: style.dash,
                        outline: style.dash.is_none() && style.stroke_width > MAX_PLAIN_WIDTH,
                    },
                    _ => return ,
                }
            },
        };
        let call = DrawCall { extent: self.extent, path, op };
        let ghost calls = self.calls@;
        self.calls.push(call);
        proof {
            assert(call_views(self.calls@) =~= call_views(calls).push(call@));
        }
    }

    /// Check whether the current feature has a path.
    fn has_path(&self) -> (result: bool)
        ensures
            result == self@.has_path(),
    {
        match self.geometry_type {
            Some(GeometryType::Polygon) | Some(GeometryType::Linestring) => true,
            _ => false,
        }
    }

    /// Render a vector tile to a list of draw calls.
    pub fn render(&mut self, tile: &Tile)
        requires
            renderable(*tile),
        ensures
            final(self)@ == played::<TileRenderer>(
                old(self)@,
                tile_events(tile.layers@, 0),
            ).drawn(),
    {
        render(self, tile);

        // Ensure the last path is rendered.
        self.draw_path();
    }

    /// Get the draw calls in the order in which they must be executed.
    pub fn into_calls(self) -> (calls: Vec<DrawCall>)
        ensures
            call_views(calls@) == self@.calls,
    {
        self.calls
    }
}

/// Dim a color channel.
fn dim(channel: u8) -> (result: u8)
    ensures
        result == dimmed(channel),
{
    ((8 * channel as u32 + 5) / 10) as u8
}

impl RenderTile for TileRenderer {
    type Model = RendererView;

    open spec fn model(&self) -> RendererView {
        self@
    }

    open spec fn step(model: RendererView, event: RenderEvent) -> RendererView {
        model.stepped(event)
    }

    fn layer_changed(&mut self, layer: Layer, extent: u32) {
        // Finish the previous path by drawing it.
        //
        // Rendering relies on the layer, so we must render before updating it.
        self.draw_path();

        self.extent = extent;
        self.layer = layer;
    }

    fn feature_changed(&mut self, geometry_type: GeometryType, tags: Tags) {
        // Finish the previous path by drawing it.
        //
        // Rendering relies on the geometry type and tags, so we must render before
        // updating these fields.
        self.draw_path();

        self.geometry_type = Some(geometry_type);
        self.tags = tags;
    }

    fn move_to(&mut self, x: i32, y: i32) {
        if self.has_path() {
            self.path.push(PathVerb::MoveTo(x, y));
        }
    }

    fn line_to(&mut self, x: i32, y: i32) {
        if self.has_path() {
            self.path.push(PathVerb::LineTo(x, y));
        }
    }

    fn close_path(&mut self) {
        // While our path is complete, we cannot draw it immediately since we need
        // to account for left-winding cutouts. Drawing each geometry individually is
        // also *extremely* slow.
        if self.has_path() && self.path.len() > 0 {
            self.path.push(PathVerb::Close);
        }
    }
}

/// Part of a path drawn by a step.
pub open spec fn drawn_verb(event: RenderEvent) -> PathVerb {
    match event {
        RenderEvent::MoveTo(x, y) => PathVerb::MoveTo(x, y),
        RenderEvent::LineTo(x, y) => PathVerb::LineTo(x, y),
        _ => PathVerb::Close,
    }
}

/// A step is part of a path.
pub open spec fn is_path_step(event: RenderEvent) -> bool {
    event is MoveTo || event is LineTo || event is ClosePath
}

/// The path of a line or polygon holds all of its steps in their order, with
/// nothing being drawn until it is complete.
pub proof fn law_path_is_collected(renderer: RendererView, events: Seq<RenderEvent>)
    requires
        renderer.geometry_type == Some(GeometryType::Polygon) || renderer.geometry_type == Some(
            GeometryType::Linestring,
        ),
        forall|i: int| 0 <= i < events.len() ==> is_path_step(#[trigger] events[i]),
        events.len() > 0 && renderer.path.len() == 0 ==> !(events[0] is ClosePath),
    ensures
        played::<TileRenderer>(renderer, events) == (RendererView {
            path: renderer.path + events.map_values(|event: RenderEvent| drawn_verb(event)),
            ..renderer
        }),
    decreases events.len(),
{
    let verbs = events.map_values(|event: RenderEvent| drawn_verb(event));
    if events.len() == 0 {
        assert(renderer.path + verbs =~= renderer.path);
    } else {
        let rest = events.drop_last();
        assert forall|i: int| 0 <= i < rest.len() implies is_path_step(#[trigger] rest[i]) by {
            assert(rest[i] == events[i]);
        }
        law_path_is_collected(renderer, rest);
        assert(is_path_step(events[events.len() - 1]));
        let partial = rest.map_values(|event: RenderEvent| drawn_verb(event));
        assert((renderer.path + partial).push(drawn_verb(events.last())) =~= renderer.path + verbs);
    }
}

/// Points have no path.
pub proof fn law_points_are_not_drawn(renderer: RendererView, events: Seq<RenderEvent>)
    requires
        renderer.geometry_type is None || renderer.geometry_type == Some(GeometryType::Point),
        forall|i: int| 0 <= i < events.len() ==> is_path_step(#[trigger] events[i]),
    ensures
        played::<TileRenderer>(renderer, events) == renderer,
    decreases events.len(),
{
    if events.len() > 0 {
        let rest = events.drop_last();
        assert forall|i: int| 0 <= i < rest.len() implies is_path_step(#[trigger] rest[i]) by {
            assert(rest[i] == events[i]);
        }
        law_points_are_not_drawn(renderer, rest);
        assert(is_path_step(events[events.len() - 1]));
    }
}

/// A complete path is drawn once the next feature or layer starts, as a single
/// call behind all previous ones, in its own layer's coordinates.
pub proof fn law_complete_path_is_drawn_once(
    renderer: RendererView,
    geometry_type: GeometryType,
    tags: TagsView,
    layer: Layer,
    extent: u32,
)
    ensures
        ({
            let next = renderer.stepped(RenderEvent::Feature(geometry_type, tags));
            let op = draw_op(
                renderer.theme,
                renderer.layer,
                renderer.tags,
                renderer.geometry_type,
            );
            &&& next.geometry_type == Some(geometry_type) && next.tags == tags
            &&& next.layer == renderer.layer && next.extent == renderer.extent
            &&& next.path.len() == 0
            &&& renderer.path.len() > 0 && op is Some ==> {
                &&& next.calls.len() == renderer.calls.len() + 1
                &&& next.calls.last().path == renderer.path
                &&& next.calls.last().extent == renderer.extent
                &&& next.calls.last().op == op->0
                &&& next.calls.drop_last() == renderer.calls
            }
            &&& renderer.path.len() == 0 || op is None ==> next.calls == renderer.calls
        }),
        ({
            let drawn = renderer.stepped(RenderEvent::Feature(geometry_type, tags)).calls;
            let next = renderer.stepped(RenderEvent::Layer(layer, extent));
            &&& next.calls == drawn
            &&& renderer.drawn().calls == drawn
            &&& next.path.len() == 0 && renderer.drawn().path.len() == 0
            &&& next.layer == layer && next.extent == extent
        }),
{
    let next = renderer.stepped(RenderEvent::Feature(geometry_type, tags));
    if next.calls.len() > 0 && next.calls.len() == renderer.calls.len() + 1 {
        assert(next.calls.drop_last() =~= renderer.calls);
    }
}

/// Everything with a style is drawn, and nothing without one: street labels as
/// text, polygons filled, and lines stroked, with an outline exactly below wide
/// and solid ones.
pub proof fn law_styled_features_are_drawn(
    theme: Theme,
    layer: Layer,
    tags: TagsView,
    geometry_type: GeometryType,
)
    ensures
        ({
            let op = draw_op(theme, layer, tags, Some(geometry_type));
            let style = theme.spec_style(layer, tags);
            let label = layer == Layer::StreetLabels;
            &&& style is None ==> op is None
            &&& style is Some && label ==> op == Some(DrawOpView::Text(tags.name->0))
            &&& !label && geometry_type is Point ==> op is None
            &&& style is Some && !label && geometry_type is Polygon ==> op == Some(
                DrawOpView::Fill(feature_color(style->0.color, tags.tunnel)),
            )
            &&& style is Some && !label && geometry_type is Linestring ==> op == Some(
                DrawOpView::Stroke {
                    color: feature_color(style->0.color, tags.tunnel),
                    width: style->0.stroke_width,
                    dash: style->0.dash,
                    outline: style->0.stroke_width > 4 && style->0.dash is None,
                },
            )
        }),
{
}

/// Tunnels have their color dimmed to 80%, rounded to the closest value.
pub proof fn law_tunnels_are_dimmed(color: Color)
    ensures
        ({
            let dim = feature_color(color, true);
            &&& -5 <= 10 * dim.r - 8 * color.r <= 5
            &&& -5 <= 10 * dim.g - 8 * color.g <= 5
            &&& -5 <= 10 * dim.b - 8 * color.b <= 5
        }),
        feature_color(color, false) == color,
{
}

} // verus!
