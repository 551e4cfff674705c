//! Vector tile render order.

use vstd::prelude::*;

use crate::text::str_eq;
use crate::tiles::vector::command::{decodable, decoded, is_decodable, Command, GeometryIter};
use crate::tiles::vector::kind::{kind_of, Kind, KIND_COUNT};
use crate::tiles::vector::layer::{layer_named, renderable_type, GeometryType, Layer, LAYER_COUNT};
use crate::tiles::vector::protobuf::{Feature, GeomType, Layer as ProtobufLayer, Tile};
use crate::tiles::vector::theme::{Tags, TagsView};

verus! {

/// Tags after reading one more key and value.
pub open spec fn tagged(layer: ProtobufLayer, tags: TagsView, key: int, value: int) -> TagsView {
    let name = layer.keys[key]@;
    if name == "kind"@ {
        TagsView {
            kind: match layer.values[value].string_value {
                Some(kind) => kind_of(kind@),
                None => Kind::Untagged,
            },
            ..tags
        }
    } else if name == "tunnel"@ {
        TagsView { tunnel: layer.values[value].bool_value == Some(true), ..tags }
    } else if name == "name"@ {
        TagsView {
            name: match layer.values[value].string_value {
                Some(name) => Some(name@),
                None => None,
            },
            ..tags
        }
    } else {
        tags
    }
}

/// Tags made of the first `n` pairs of keys and values.
pub open spec fn tags_of(layer: ProtobufLayer, pairs: Seq<u32>, n: int) -> TagsView
    decreases n,
{
    if n <= 0 {
        TagsView::empty()
    } else {
        tagged(
            layer,
            tags_of(layer, pairs, n - 1),
            pairs[2 * (n - 1)] as int,
            pairs[2 * (n - 1) + 1] as int,
        )
    }
}

/// A key and value can be found in the layer.
pub open spec fn has_tag(layer: ProtobufLayer, key: int, value: int) -> bool {
    &&& 0 <= key < layer.keys.len()
    &&& {
        let name = layer.keys[key]@;
        name == "kind"@ || name == "tunnel"@ || name == "name"@ ==> value < layer.values.len()
    }
}

/// All tags of a feature can be found in the layer.
pub open spec fn has_tags(layer: ProtobufLayer, pairs: Seq<u32>) -> bool {
    forall|i: int|
        0 <= i < pairs.len() / 2 ==> has_tag(
            layer,
            #[trigger] pairs[2 * i] as int,
            pairs[2 * i + 1] as int,
        )
}

/// Tags of a feature.
pub open spec fn feature_tags(layer: ProtobufLayer, feature: Feature) -> TagsView {
    tags_of(layer, feature.tags@, feature.tags.len() as int / 2)
}

/// Number of positions in the render order.
pub const ORDER_COUNT: u8 = 154;

/// Position of a feature in the render order.
///
/// Tunneled features are rendered below all others. With all else being equal,
/// the render order is based on feature kind.
pub open spec fn order_of(tags: TagsView) -> int {
    if tags.tunnel {
        tags.kind.spec_rank() as int
    } else {
        KIND_COUNT + tags.kind.spec_rank()
    }
}

/// Feature with cached tags.
pub struct TaggedFeature<'a> {
    feature: &'a Feature,
    tags: Tags,
}

impl<'a> TaggedFeature<'a> {
    /// The underlying feature.
    pub closed spec fn spec_feature(&self) -> Feature {
        *self.feature
    }

    /// The cached tags.
    pub closed spec fn spec_tags(&self) -> TagsView {
        self.tags@
    }

    /// Read the tags of a feature from its layer.
    ///
    /// Features of an unknown kind are filtered out.
    pub fn new(layer: &ProtobufLayer, feature: &'a Feature) -> (tagged_feature: Option<Self>)
        requires
            has_tags(*layer, feature.tags@),
        ensures
            match tagged_feature {
                Some(tagged_feature) => {
                    &&& tagged_feature.spec_feature() == feature
                    &&& tagged_feature.spec_tags() == feature_tags(*layer, *feature)
                    &&& feature_tags(*layer, *feature).kind != Kind::Unknown
                },
                None => feature_tags(*layer, *feature).kind == Kind::Unknown,
            },
    {
        // Get tags for this feature from its layer.
        let mut tags = Tags { name: None, tunnel: false, kind: Kind::Untagged };
        let pairs: usize = feature.tags.len() / 2;
        let mut i: usize = 0;
        while i < pairs
            invariant
                i <= pairs,
                pairs == feature.tags.len() as int / 2,
                has_tags(*layer, feature.tags@),
                tags@ == tags_of(*layer, feature.tags@, i as int),
            decreases pairs - i,
        {
            assert(has_tag(
                *layer,
                feature.tags@[2 * i] as int,
                feature.tags@[2 * i + 1] as int,
            ));
            let key = &layer.keys[feature.tags[2 * i] as usize];
            let value_index: usize = feature.tags[2 * i + 1] as usize;
            if str_eq(key.as_str(), "kind") {
                tags.kind =
                match &layer.values[value_index].string_value {
                    Some(kind) => Kind::from(kind.as_str()),
                    None => Kind::Untagged,
                };
            } else if str_eq(key.as_str(), "tunnel") {
                tags.tunnel =
                match layer.values[value_index].bool_value {
                    Some(tunnel) => tunnel,
                    None => false,
                };
            } else if str_eq(key.as_str(), "name") {
                tags.name =
                match &layer.values[value_index].string_value {
                    Some(name) => Some(name.clone()),
                    None => None,
                };
            }
            i += 1;
        }

        if tags.kind == Kind::Unknown {
            None
        } else {
            Some(TaggedFeature { feature, tags })
        }
    }

    /// Get the position of this feature in the render order.
    pub fn order(&self) -> (order: u8)
        ensures
            order == order_of(self.spec_tags()),
            order < ORDER_COUNT,
    {
        if self.tags.tunnel {
            self.tags.kind.rank()
        } else {
            KIND_COUNT + self.tags.kind.rank()
        }
    }
}

/// Step of rendering a tile.
pub enum RenderEvent {
    /// Rendering switched to a new layer.
    Layer(Layer, u32),
    /// Rendering switched to a new feature.
    Feature(GeometryType, TagsView),
    /// The cursor moved to an absolute coordinate.
    MoveTo(i32, i32),
    /// A line was drawn to an absolute coordinate.
    LineTo(i32, i32),
    /// The current polygon was closed.
    ClosePath,
}

/// Steps of rendering a path with its cursor at `(x, y)`.
pub open spec fn path_events(commands: Seq<Command>, x: int, y: int) -> Seq<RenderEvent>
    decreases commands.len(),
{
    if commands.len() == 0 {
        Seq::empty()
    } else {
        let rest = commands.drop_first();
        match commands[0] {
            Command::MoveTo(dx, dy) => seq![
                RenderEvent::MoveTo((x + dx) as i32, (y + dy) as i32),
            ] + path_events(rest, x + dx, y + dy),
            Command::LineTo(dx, dy) => seq![
                RenderEvent::LineTo((x + dx) as i32, (y + dy) as i32),
            ] + path_events(rest, x + dx, y + dy),
            Command::ClosePath => seq![RenderEvent::ClosePath] + path_events(rest, x, y),
        }
    }
}

/// All coordinates of a path can be represented.
pub open spec fn path_fits(commands: Seq<Command>, x: int, y: int) -> bool
    decreases commands.len(),
{
    if commands.len() == 0 {
        true
    } else {
        let rest = commands.drop_first();
        match commands[0] {
            Command::MoveTo(dx, dy) | Command::LineTo(dx, dy) => {
                &&& i32::MIN <= x + dx <= i32::MAX
                &&& i32::MIN <= y + dy <= i32::MAX
                &&& path_fits(rest, x + dx, y + dy)
            },
            Command::ClosePath => path_fits(rest, x, y),
        }
    }
}

/// Steps of rendering a feature.
///
/// The origin point always starts at (0, 0) and is reset for each feature.
pub open spec fn feature_events(layer: ProtobufLayer, feature: Feature) -> Seq<RenderEvent> {
    match renderable_type(feature.spec_geom_type()) {
        Some(geometry_type) => seq![
            RenderEvent::Feature(geometry_type, feature_tags(layer, feature)),
        ] + path_events(decoded(feature.geometry@, 0), 0, 0),
        None => Seq::empty(),
    }
}

/// A feature has a position in the render order.
pub open spec fn has_order(layer: ProtobufLayer, feature: Feature, order: int) -> bool {
    let tags = feature_tags(layer, feature);
    tags.kind != Kind::Unknown && order_of(tags) == order
}

/// Steps of rendering the features at one position of the render order,
/// starting with the feature at `index`.
pub open spec fn order_events(layer: ProtobufLayer, order: int, index: int) -> Seq<RenderEvent>
    decreases layer.features.len() - index,
{
    if index < 0 || index >= layer.features.len() {
        Seq::empty()
    } else {
        (if has_order(layer, layer.features[index], order) {
            feature_events(layer, layer.features[index])
        } else {
            Seq::empty()
        }) + order_events(layer, order, index + 1)
    }
}

/// Steps of rendering a layer's features, starting with a position of the
/// render order.
pub open spec fn features_events(layer: ProtobufLayer, order: int) -> Seq<RenderEvent>
    decreases ORDER_COUNT - order,
{
    if order >= ORDER_COUNT {
        Seq::empty()
    } else {
        order_events(layer, order, 0) + features_events(layer, order + 1)
    }
}

/// Steps of rendering the layers at one position of the render order, starting
/// with the layer at `index`.
pub open spec fn rank_events(layers: Seq<ProtobufLayer>, rank: int, index: int) -> Seq<RenderEvent>
    decreases layers.len() - index,
{
    if index < 0 || index >= layers.len() {
        Seq::empty()
    } else {
        let layer = layers[index];
        (match layer_named(layer.name@) {
            Some(name) if name.spec_rank() == rank => seq![
                RenderEvent::Layer(name, layer.extent),
            ] + features_events(layer, 0),
            _ => Seq::empty(),
        }) + rank_events(layers, rank, index + 1)
    }
}

/// Steps of rendering a tile's layers, starting with a position of the render
/// order.
///
/// Unknown layers have no position in the render order.
pub open spec fn tile_events(layers: Seq<ProtobufLayer>, rank: int) -> Seq<RenderEvent>
    decreases LAYER_COUNT - rank,
{
    if rank >= LAYER_COUNT {
        Seq::empty()
    } else {
        rank_events(layers, rank, 0) + tile_events(layers, rank + 1)
    }
}

/// A feature's geometry can be drawn.
pub open spec fn drawable(feature: Feature) -> bool {
    renderable_type(feature.spec_geom_type()) is Some ==> {
        &&& decodable(feature.geometry@, 0)
        &&& path_fits(decoded(feature.geometry@, 0), 0, 0)
    }
}

/// A feature can be rendered.
pub open spec fn feature_renderable(layer: ProtobufLayer, feature: Feature) -> bool {
    &&& has_tags(layer, feature.tags@)
    &&& feature_tags(layer, feature).kind != Kind::Unknown ==> drawable(feature)
}

/// A layer is unknown, or all of its features can be rendered.
pub open spec fn layer_renderable(layer: ProtobufLayer) -> bool {
    layer_named(layer.name@) is Some ==> forall|i: int|
        0 <= i < layer.features.len() ==> feature_renderable(layer, #[trigger] layer.features[i])
}

/// All known layers of a tile can be rendered.
pub open spec fn renderable(tile: Tile) -> bool {
    forall|i: int| 0 <= i < tile.layers.len() ==> layer_renderable(#[trigger] tile.layers[i])
}

/// Renderer state after a list of steps.
pub open spec fn played<R: RenderTile>(
    model: R::Model,
    events: Seq<RenderEvent>,
) -> R::Model
    decreases events.len(),
{
    if events.len() == 0 {
        model
    } else {
        R::step(played::<R>(model, events.drop_last()), events.last())
    }
}

/// Playing two lists of steps is playing one after the other.
pub proof fn lemma_played_concat<R: RenderTile>(
    model: R::Model,
    a: Seq<RenderEvent>,
    b: Seq<RenderEvent>,
)
    ensures
        played::<R>(model, a + b) == played::<R>(played::<R>(model, a), b),
    decreases b.len(),
{
    if b.len() == 0 {
        assert(a + b =~= a);
    } else {
        assert((a + b).drop_last() =~= a + b.drop_last());
        lemma_played_concat::<R>(model, a, b.drop_last());
    }
}

/// Playing a single step.
proof fn lemma_played_one<R: RenderTile>(model: R::Model, event: RenderEvent)
    ensures
        played::<R>(model, seq![event]) == R::step(model, event),
{
    assert(seq![event].drop_last() =~= Seq::<RenderEvent>::empty());
    assert(played::<R>(model, Seq::<RenderEvent>::empty()) == model);
}

/// Trait for implementing a renderer for tile vector data.
pub trait RenderTile: Sized {
    /// Model of the renderer's state.
    type Model;

    /// The renderer's current state.
    spec fn model(&self) -> Self::Model;

    /// The renderer's state after a step.
    spec fn step(model: Self::Model, event: RenderEvent) -> Self::Model;

    /// Indicate that the renderer switched to a new layer.
    ///
    /// The extent is the width and height of the coordinate system used for
    /// rendering. A value of `4096` means the point (4096, 4096) is the
    /// bottom-right corner of the tile.
    fn layer_changed(&mut self, layer: Layer, extent: u32)
        ensures
            final(self).model() == Self::step(
                old(self).model(),
                RenderEvent::Layer(layer, extent),
            ),
    ;

    /// Indicate that the renderer switched to a new feature.
    fn feature_changed(&mut self, geometry_type: GeometryType, tags: Tags)
        ensures
            final(self).model() == Self::step(
                old(self).model(),
                RenderEvent::Feature(geometry_type, tags@),
            ),
    ;

    /// Move the cursor to the absolute coordinate `(x, y)`.
    fn move_to(&mut self, x: i32, y: i32)
        ensures
            final(self).model() == Self::step(old(self).model(), RenderEvent::MoveTo(x, y)),
    ;

    /// Draw a line from the current cursor to the absolute coordinate `(x, y)`.
    fn line_to(&mut self, x: i32, y: i32)
        ensures
            final(self).model() == Self::step(old(self).model(), RenderEvent::LineTo(x, y)),
    ;

    /// Close the path of the current polygon.
    ///
    /// Closing the path of a polygon connects the current cursor's point to the
    /// polygon's starting point. [`Self::move_to`] indicates the starting point
    /// while drawing polygons.
    ///
    /// Closing a path **must not** move the cursor. The cursor position will
    /// never be identical to the starting point.
    fn close_path(&mut self)
        ensures
            final(self).model() == Self::step(old(self).model(), RenderEvent::ClosePath),
    ;
}

/// Render a feature's path in absolute coordinates.
fn render_path<R: RenderTile>(renderer: &mut R, geometry: &Vec<u32>)
    requires
        decodable(geometry@, 0),
        path_fits(decoded(geometry@, 0), 0, 0),
    ensures
        final(renderer).model() == played::<R>(
            old(renderer).model(),
            path_events(decoded(geometry@, 0), 0, 0),
        ),
{
    let ghost start = renderer.model();
    let ghost events = path_events(decoded(geometry@, 0), 0, 0);
    let ghost mut done = Seq::<RenderEvent>::empty();
    let mut x: i32 = 0;
    let mut y: i32 = 0;
    let mut iter = GeometryIter::new(geometry.as_slice());
    proof {
        assert(done + events =~= events);
    }
    loop
        invariant
            iter.decodable(),
            path_fits(iter.remaining(), x as int, y as int),
            events == done + path_events(iter.remaining(), x as int, y as int),
            renderer.model() == played::<R>(start, done),
        ensures
            renderer.model() == played::<R>(start, events),
        decreases iter.remaining().len(),
    {
        let ghost before = iter.remaining();
        let ghost origin = (x as int, y as int);
        match iter.next() {
            Some(command) => {
                proof {
                    assert(before.drop_first() =~= iter.remaining());
                    assert(before[0] == command);
                }
                let ghost event;
                match command {
                    Command::MoveTo(dx, dy) => {
                        x = x + dx;
                        y = y + dy;
                        renderer.move_to(x, y);
                        proof {
                            event = RenderEvent::MoveTo(x, y);
                        }
                    },
                    Command::LineTo(dx, dy) => {
                        x = x + dx;
                        y = y + dy;
                        renderer.line_to(x, y);
                        proof {
                            event = RenderEvent::LineTo(x, y);
                        }
                    },
                    Command::ClosePath => {
                        renderer.close_path();
                        proof {
                            event = RenderEvent::ClosePath;
                        }
                    },
                }
                proof {
                    assert(path_events(before, origin.0, origin.1) == seq![event] + path_events(
                        iter.remaining(),
                        x as int,
                        y as int,
                    ));
                    lemma_played_one::<R>(played::<R>(start, done), event);
                    lemma_played_concat::<R>(start, done, seq![event]);
                    assert(events =~= done + seq![event] + path_events(
                        iter.remaining(),
                        x as int,
                        y as int,
                    ));
                    done = done + seq![event];
                }
            },
            None => {
                proof {
                    assert(events =~= done);
                }
                break ;
            },
        }
    }
}

/// Render the features of a layer.
fn render_features<R: RenderTile>(renderer: &mut R, layer: &ProtobufLayer)
    requires
        layer_named(layer.name@) is Some,
        layer_renderable(*layer),
    ensures
        final(renderer).model() == played::<R>(
            old(renderer).model(),
            features_events(*layer, 0),
        ),
{
    let ghost start = renderer.model();
    let ghost events = features_events(*layer, 0);
    let ghost mut done = Seq::<RenderEvent>::empty();
    let count: usize = layer.features.len();

    // Find the position of each feature in the render order.
    let mut orders: Vec<u8> = Vec::new();
    let mut i: usize = 0;
    while i < count
        invariant
            i <= count,
            count == layer.features.len(),
            layer_named(layer.name@) is Some,
            layer_renderable(*layer),
            orders.len() == i,
            forall|j: int, order: int|
                0 <= j < i && 0 <= order < ORDER_COUNT ==> #[trigger] has_order(
                    *layer,
                    layer.features[j],
                    order,
                ) == (orders[j] == order),
        decreases count - i,
    {
        assert(feature_renderable(*layer, layer.features[i as int]));
        match TaggedFeature::new(layer, &layer.features[i]) {
            Some(feature) => orders.push(feature.order()),
            None => orders.push(ORDER_COUNT),
        }
        i += 1;
    }

    // Render features by render order.
    let mut order: u8 = 0;
    proof {
        assert(done + events =~= events);
    }
    while order < ORDER_COUNT
        invariant
            order <= ORDER_COUNT,
            count == layer.features.len(),
            layer_named(layer.name@) is Some,
            layer_renderable(*layer),
            orders.len() == count,
            forall|j: int, order: int|
                0 <= j < count && 0 <= order < ORDER_COUNT ==> #[trigger] has_order(
                    *layer,
                    layer.features[j],
                    order,
                ) == (orders[j] == order),
            events == done + features_events(*layer, order as int),
            renderer.model() == played::<R>(start, done),
        decreases ORDER_COUNT - order,
    {
        let ghost rest = features_events(*layer, order + 1);
        let mut i: usize = 0;
        proof {
            assert(events =~= done + order_events(*layer, order as int, 0) + rest);
        }
        while i < count
            invariant
                i <= count,
                order < ORDER_COUNT,
                count == layer.features.len(),
                layer_named(layer.name@) is Some,
                layer_renderable(*layer),
                orders.len() == count,
                forall|j: int, order: int|
                    0 <= j < count && 0 <= order < ORDER_COUNT ==> #[trigger] has_order(
                        *layer,
                        layer.features[j],
                        order,
                    ) == (orders[j] == order),
                events == done + order_events(*layer, order as int, i as int) + rest,
                renderer.model() == played::<R>(start, done),
            decreases count - i,
        {
            let ghost step = if has_order(*layer, layer.features[i as int], order as int) {
                feature_events(*layer, layer.features[i as int])
            } else {
                Seq::empty()
            };
            assert(feature_renderable(*layer, layer.features[i as int]));
            assert(has_order(*layer, layer.features[i as int], order as int) == (orders[i as int]
                == order));
            if orders[i] == order {
                if let Some(feature) = TaggedFeature::new(layer, &layer.features[i]) {
                    // Ignore unknown geometry types.
                    if let Ok(geometry_type) = GeometryType::try_from(feature.feature.geom_type()) {
                        // Notify render implementation about the new feature.
                        proof {
                            let event = RenderEvent::Feature(geometry_type, feature.tags@);
                            lemma_played_one::<R>(played::<R>(start, done), event);
                            lemma_played_concat::<R>(start, done, seq![event]);
                            lemma_played_concat::<R>(
                                start,
                                done + seq![event],
                                path_events(decoded(feature.feature.geometry@, 0), 0, 0),
                            );
                            assert(done + step =~= done + seq![event] + path_events(
                                decoded(feature.feature.geometry@, 0),
                                0,
                                0,
                            ));
                        }
                        renderer.feature_changed(geometry_type, feature.tags);

                        // Dispatch render commands in absolute coordinates.
                        render_path(renderer, &feature.feature.geometry);
                    } else {
                        proof {
                            assert(done + step =~= done);
                        }
                    }
                }
            } else {
                proof {
                    assert(done + step =~= done);
                }
            }
            proof {
                assert(events =~= (done + step) + order_events(*layer, order as int, i + 1) + rest);
                done = done + step;
            }
            i += 1;
        }
        proof {
            assert(events =~= done + rest);
        }
        order += 1;
    }
    proof {
        assert(events =~= done);
    }
}

/// Render a vector tile.
///
/// Layers and their features are rendered from bottom to top.
pub fn render<R: RenderTile>(renderer: &mut R, tile: &Tile)
    requires
        renderable(*tile),
    ensures
        final(renderer).model() == played::<R>(
            old(renderer).model(),
            tile_events(tile.layers@, 0),
        ),
{
    let ghost start = renderer.model();
    let ghost events = tile_events(tile.layers@, 0);
    let ghost mut done = Seq::<RenderEvent>::empty();
    let count: usize = tile.layers.len();
    let mut rank: u8 = 0;
    proof {
        assert(done + events =~= events);
    }
    while rank < LAYER_COUNT
        invariant
            rank <= LAYER_COUNT,
            count == tile.layers.len(),
            renderable(*tile),
            events == done + tile_events(tile.layers@, rank as int),
            renderer.model() == played::<R>(start, done),
        decreases LAYER_COUNT - rank,
    {
        let ghost rest = tile_events(tile.layers@, rank + 1);
        let mut i: usize = 0;
        proof {
            assert(events =~= done + rank_events(tile.layers@, rank as int, 0) + rest);
        }
        while i < count
            invariant
                i <= count,
                rank < LAYER_COUNT,
                count == tile.layers.len(),
                renderable(*tile),
                events == done + rank_events(tile.layers@, rank as int, i as int) + rest,
                renderer.model() == played::<R>(start, done),
            decreases count - i,
        {
            let layer = &tile.layers[i];
            assert(layer_renderable(tile.layers[i as int]));
            let ghost step = match layer_named(layer.name@) {
                Some(name) if name.spec_rank() == rank => seq![
                    RenderEvent::Layer(name, layer.extent),
                ] + features_events(*layer, 0),
                _ => Seq::empty(),
            };
            let mut rendered = false;
            if let Ok(name) = Layer::from_str(layer.name.as_str()) {
                if name.rank() == rank {
                    // Notify render implementation about the new layer.
                    proof {
                        let event = RenderEvent::Layer(name, layer.extent);
                        lemma_played_one::<R>(played::<R>(start, done), event);
                        lemma_played_concat::<R>(start, done, seq![event]);
                        lemma_played_concat::<R>(
                            start,
                            done + seq![event],
                            features_events(*layer, 0),
                        );
                        assert(done + step =~= done + seq![event] + features_events(*layer, 0));
                    }
                    renderer.layer_changed(name, layer.extent);
                    render_features(renderer, layer);
                    rendered = true;
                }
            }
            proof {
                if !rendered {
                    assert(done + step =~= done);
                }
                assert(events =~= (done + step) + rank_events(tile.layers@, rank as int, i + 1)
                    + rest);
                done = done + step;
            }
            i += 1;
        }
        proof {
            assert(events =~= done + rest);
        }
        rank += 1;
    }
    proof {
        assert(events =~= done);
    }
}

/// Check whether all coordinates of a path can be represented.
fn is_path_fitting(geometry: &Vec<u32>) -> (result: bool)
    requires
        decodable(geometry@, 0),
    ensures
        result == path_fits(decoded(geometry@, 0), 0, 0),
{
    let ghost commands = decoded(geometry@, 0);
    let mut x: i32 = 0;
    let mut y: i32 = 0;
    let mut iter = GeometryIter::new(geometry.as_slice());
    loop
        invariant
            iter.decodable(),
            commands == decoded(geometry@, 0),
            path_fits(iter.remaining(), x as int, y as int) == path_fits(commands, 0, 0),
        decreases iter.remaining().len(),
    {
        let ghost before = iter.remaining();
        match iter.next() {
            Some(command) => {
                proof {
                    assert(before.drop_first() =~= iter.remaining());
                    assert(before[0] == command);
                }
                match command {
                    Command::MoveTo(dx, dy) | Command::LineTo(dx, dy) => {
                        match (x.checked_add(dx), y.checked_add(dy)) {
                            (Some(new_x), Some(new_y)) => {
                                x = new_x;
                                y = new_y;
                            },
                            _ => return false,
                        }
                    },
                    Command::ClosePath => (),
                }
            },
            None => return true,
        }
    }
}

/// Check whether all tags of a feature can be found in the layer.
fn is_tagged(layer: &ProtobufLayer, feature: &Feature) -> (result: bool)
    ensures
        result == has_tags(*layer, feature.tags@),
{
    let pairs: usize = feature.tags.len() / 2;
    let mut i: usize = 0;
    while i < pairs
        invariant
            i <= pairs,
            pairs == feature.tags.len() as int / 2,
            forall|j: int|
                0 <= j < i ==> has_tag(
                    *layer,
                    #[trigger] feature.tags@[2 * j] as int,
                    feature.tags@[2 * j + 1] as int,
                ),
        decreases pairs - i,
    {
        let key: usize = feature.tags[2 * i] as usize;
        let value: usize = feature.tags[2 * i + 1] as usize;
        let mut found = key < layer.keys.len();
        if found && value >= layer.values.len() {
            let name = layer.keys[key].as_str();
            found = !str_eq(name, "kind") && !str_eq(name, "tunnel") && !str_eq(name, "name");
        }
        if !found {
            proof {
                assert(!has_tag(
                    *layer,
                    feature.tags@[2 * i] as int,
                    feature.tags@[2 * i + 1] as int,
                ));
            }
            return false;
        }
        i += 1;
    }
    true
}

/// Check whether a feature can be rendered.
fn is_feature_renderable(layer: &ProtobufLayer, feature: &Feature) -> (result: bool)
    ensures
        result == feature_renderable(*layer, *feature),
{
    if !is_tagged(layer, feature) {
        return false;
    }
    if TaggedFeature::new(layer, feature).is_none() {
        return true;
    }
    match GeometryType::try_from(feature.geom_type()) {
        Ok(_) => is_decodable(feature.geometry.as_slice()) && is_path_fitting(&feature.geometry),
        Err(_) => true,
    }
}

/// Check whether a tile can be rendered.
///
/// Rendering is impossible with malformed geometry commands, coordinates which
/// cannot be represented, or tags which do not exist.
pub fn is_renderable(tile: &Tile) -> (result: bool)
    ensures
        result == renderable(*tile),
{
    let mut i: usize = 0;
    while i < tile.layers.len()
        invariant
            i <= tile.layers.len(),
            forall|j: int| 0 <= j < i ==> layer_renderable(#[trigger] tile.layers[j]),
        decreases tile.layers.len() - i,
    {
        let layer = &tile.layers[i];
        if Layer::from_str(layer.name.as_str()).is_ok() {
            let mut j: usize = 0;
            while j < layer.features.len()
                invariant
                    i < tile.layers.len(),
                    layer == tile.layers[i as int],
                    layer_named(layer.name@) is Some,
                    j <= layer.features.len(),
                    forall|k: int|
                        0 <= k < j ==> feature_renderable(*layer, #[trigger] layer.features[k]),
                decreases layer.features.len() - j,
            {
                if !is_feature_renderable(layer, &layer.features[j]) {
                    proof {
                        assert(!feature_renderable(*layer, layer.features[j as int]));
                        assert(!layer_renderable(tile.layers[i as int]));
                    }
                    return false;
                }
                j += 1;
            }
        }
        i += 1;
    }
    true
}

/// Paths only consist of drawing steps.
proof fn lemma_path_events(commands: Seq<Command>, x: int, y: int)
    ensures
        forall|i: int|
            0 <= i < path_events(commands, x, y).len() ==> !(#[trigger] path_events(
                commands,
                x,
                y,
            )[i] is Layer) && !(path_events(commands, x, y)[i] is Feature),
    decreases commands.len(),
{
    if commands.len() > 0 {
        let rest = commands.drop_first();
        match commands[0] {
            Command::MoveTo(dx, dy) | Command::LineTo(dx, dy) => {
                lemma_path_events(rest, x + dx, y + dy);
            },
            Command::ClosePath => lemma_path_events(rest, x, y),
        }
    }
}

/// Features at one position of the render order have that position.
proof fn lemma_order_events(layer: ProtobufLayer, order: int, index: int)
    ensures
        forall|i: int|
            0 <= i < order_events(layer, order, index).len() ==> {
                let event = #[trigger] order_events(layer, order, index)[i];
                &&& !(event is Layer)
                &&& event matches RenderEvent::Feature(_, tags) ==> order_of(tags) == order
            },
    decreases layer.features.len() - index,
{
    if 0 <= index < layer.features.len() {
        lemma_path_events(decoded(layer.features[index].geometry@, 0), 0, 0);
        lemma_order_events(layer, order, index + 1);
    }
}

/// Features are rendered by ascending position in the render order.
proof fn lemma_features_events(layer: ProtobufLayer, order: int)
    ensures
        forall|i: int|
            0 <= i < features_events(layer, order).len() ==> {
                let event = #[trigger] features_events(layer, order)[i];
                &&& !(event is Layer)
                &&& event matches RenderEvent::Feature(_, tags) ==> order <= order_of(tags)
            },
        forall|i: int, j: int|
            0 <= i < j < features_events(layer, order).len() ==> {
                let a = #[trigger] features_events(layer, order)[i];
                let b = #[trigger] features_events(layer, order)[j];
                a matches RenderEvent::Feature(_, below) ==> (b matches RenderEvent::Feature(
                    _,
                    above,
                ) ==> order_of(below) <= order_of(above))
            },
    decreases ORDER_COUNT - order,
{
    if order < ORDER_COUNT {
        lemma_order_events(layer, order, 0);
        lemma_features_events(layer, order + 1);
        let events = features_events(layer, order);
        let head = order_events(layer, order, 0);
        let tail = features_events(layer, order + 1);
        assert forall|i: int, j: int| 0 <= i < j < events.len() implies ({
            let a = #[trigger] events[i];
            let b = #[trigger] events[j];
            a matches RenderEvent::Feature(_, below) ==> (b matches RenderEvent::Feature(_, above)
                ==> order_of(below) <= order_of(above))
        }) by {
            if i < head.len() {
                assert(events[i] == head[i]);
            } else {
                assert(events[i] == tail[i - head.len()]);
            }
            if j < head.len() {
                assert(events[j] == head[j]);
            } else {
                assert(events[j] == tail[j - head.len()]);
            }
        }
    }
}

/// Layers at one position of the render order have that position.
proof fn lemma_rank_events(layers: Seq<ProtobufLayer>, rank: int, index: int)
    ensures
        forall|i: int|
            0 <= i < rank_events(layers, rank, index).len() ==> (#[trigger] rank_events(
                layers,
                rank,
                index,
            )[i] matches RenderEvent::Layer(layer, _) ==> layer.spec_rank() == rank),
    decreases layers.len() - index,
{
    if 0 <= index < layers.len() {
        lemma_features_events(layers[index], 0);
        lemma_rank_events(layers, rank, index + 1);
    }
}

/// Layers are rendered by ascending position in the render order.
proof fn lemma_tile_events(layers: Seq<ProtobufLayer>, rank: int)
    ensures
        forall|i: int|
            0 <= i < tile_events(layers, rank).len() ==> (#[trigger] tile_events(
                layers,
                rank,
            )[i] matches RenderEvent::Layer(layer, _) ==> rank <= layer.spec_rank()),
        forall|i: int, j: int|
            0 <= i < j < tile_events(layers, rank).len() ==> {
                let a = #[trigger] tile_events(layers, rank)[i];
                let b = #[trigger] tile_events(layers, rank)[j];
                a matches RenderEvent::Layer(below, _) ==> (b matches RenderEvent::Layer(above, _)
                    ==> below.spec_rank() <= above.spec_rank())
            },
    decreases LAYER_COUNT - rank,
{
    if rank < LAYER_COUNT {
        lemma_rank_events(layers, rank, 0);
        lemma_tile_events(layers, rank + 1);
        let events = tile_events(layers, rank);
        let head = rank_events(layers, rank, 0);
        let tail = tile_events(layers, rank + 1);
        assert forall|i: int, j: int| 0 <= i < j < events.len() implies ({
            let a = #[trigger] events[i];
            let b = #[trigger] events[j];
            a matches RenderEvent::Layer(below, _) ==> (b matches RenderEvent::Layer(above, _)
                ==> below.spec_rank() <= above.spec_rank())
        }) by {
            if i < head.len() {
                assert(events[i] == head[i]);
            } else {
                assert(events[i] == tail[i - head.len()]);
            }
            if j < head.len() {
                assert(events[j] == head[j]);
            } else {
                assert(events[j] == tail[j - head.len()]);
            }
        }
    }
}

/// Layers are rendered from bottom to top.
pub proof fn law_layers_bottom_to_top(
    tile: Tile,
    i: int,
    j: int,
    below: Layer,
    above: Layer,
    below_extent: u32,
    above_extent: u32,
)
    requires
        0 <= i < j < tile_events(tile.layers@, 0).len(),
        tile_events(tile.layers@, 0)[i] == RenderEvent::Layer(below, below_extent),
        tile_events(tile.layers@, 0)[j] == RenderEvent::Layer(above, above_extent),
    ensures
        below.spec_rank() <= above.spec_rank(),
{
    lemma_tile_events(tile.layers@, 0);
}

/// Within a layer, tunneled features are rendered below all others, and
/// features which are equal in that are rendered in the order of their kinds.
pub proof fn law_features_bottom_to_top(
    layer: ProtobufLayer,
    i: int,
    j: int,
    below_type: GeometryType,
    below: TagsView,
    above_type: GeometryType,
    above: TagsView,
)
    requires
        0 <= i < j < features_events(layer, 0).len(),
        features_events(layer, 0)[i] == RenderEvent::Feature(below_type, below),
        features_events(layer, 0)[j] == RenderEvent::Feature(above_type, above),
    ensures
        above.tunnel ==> below.tunnel,
        below.tunnel == above.tunnel ==> below.kind.spec_rank() <= above.kind.spec_rank(),
{
    lemma_features_events(layer, 0);
}

/// Horizontal and vertical movement of a command.
pub open spec fn movement(command: Command) -> (int, int) {
    match command {
        Command::MoveTo(dx, dy) | Command::LineTo(dx, dy) => (dx as int, dy as int),
        Command::ClosePath => (0, 0),
    }
}

/// Sum of the horizontal and vertical movement of the first `n` commands.
pub open spec fn total_movement(commands: Seq<Command>, n: int) -> (int, int)
    decreases n,
{
    if n <= 0 {
        (0, 0)
    } else {
        let (x, y) = total_movement(commands, n - 1);
        let (dx, dy) = movement(commands[n - 1]);
        (x + dx, y + dy)
    }
}

/// A coordinate can be represented.
pub open spec fn fits(x: int, y: int) -> bool {
    i32::MIN <= x <= i32::MAX && i32::MIN <= y <= i32::MAX
}

/// The movement of the first command is part of every sum.
proof fn lemma_total_movement(commands: Seq<Command>, n: int)
    requires
        0 < n <= commands.len(),
    ensures
        ({
            let (x, y) = total_movement(commands.drop_first(), n - 1);
            let (dx, dy) = movement(commands[0]);
            total_movement(commands, n) == (x + dx, y + dy)
        }),
    decreases n,
{
    if n > 1 {
        lemma_total_movement(commands, n - 1);
        assert(commands.drop_first()[n - 2] == commands[n - 1]);
    } else {
        assert(total_movement(commands, 0) == (0int, 0int));
    }
}

/// Rendering a path takes exactly one step for each of its commands, in their
/// order and of their type. Every step leads to the sum of all movements up to
/// and including its command, starting at `(x, y)`.
pub proof fn law_every_command_is_drawn(commands: Seq<Command>, x: int, y: int)
    requires
        forall|n: int|
            0 <= n <= commands.len() ==> {
                let (dx, dy) = #[trigger] total_movement(commands, n);
                fits(x + dx, y + dy)
            },
    ensures
        path_events(commands, x, y).len() == commands.len(),
        forall|i: int|
            0 <= i < commands.len() ==> {
                let (dx, dy) = total_movement(commands, i + 1);
                match commands[i] {
                    Command::MoveTo(..) => #[trigger] path_events(commands, x, y)[i]
                        == RenderEvent::MoveTo((x + dx) as i32, (y + dy) as i32),
                    Command::LineTo(..) => path_events(commands, x, y)[i] == RenderEvent::LineTo(
                        (x + dx) as i32,
                        (y + dy) as i32,
                    ),
                    Command::ClosePath => path_events(commands, x, y)[i] is ClosePath,
                }
            },
    decreases commands.len(),
{
    if commands.len() > 0 {
        let rest = commands.drop_first();
        let (dx, dy) = movement(commands[0]);
        assert forall|n: int| 0 <= n <= rest.len() implies ({
            let (mx, my) = #[trigger] total_movement(rest, n);
            fits(x + dx + mx, y + dy + my)
        }) by {
            lemma_total_movement(commands, n + 1);
            let (mx, my) = total_movement(commands, n + 1);
            assert(fits(x + mx, y + my));
        }
        law_every_command_is_drawn(rest, x + dx, y + dy);
        assert forall|i: int| 0 <= i < commands.len() implies ({
            let (mx, my) = total_movement(commands, i + 1);
            match commands[i] {
                Command::MoveTo(..) => #[trigger] path_events(commands, x, y)[i]
                    == RenderEvent::MoveTo((x + mx) as i32, (y + my) as i32),
                Command::LineTo(..) => path_events(commands, x, y)[i] == RenderEvent::LineTo(
                    (x + mx) as i32,
                    (y + my) as i32,
                ),
                Command::ClosePath => path_events(commands, x, y)[i] is ClosePath,
            }
        }) by {
            lemma_total_movement(commands, i + 1);
            if i > 0 {
                assert(rest[i - 1] == commands[i]);
                assert(path_events(commands, x, y)[i] == path_events(rest, x + dx, y + dy)[i - 1]);
            } else {
                assert(total_movement(rest, 0) == (0int, 0int));
            }
        }
    }
}

/// A path can be drawn exactly if every coordinate which it visits can be
/// represented.
pub proof fn law_drawable_paths_visit_valid_coordinates(commands: Seq<Command>, x: int, y: int)
    requires
        fits(x, y),
    ensures
        path_fits(commands, x, y) <==> forall|n: int|
            0 <= n <= commands.len() ==> {
                let (dx, dy) = #[trigger] total_movement(commands, n);
                fits(x + dx, y + dy)
            },
    decreases commands.len(),
{
    assert(total_movement(commands, 0) == (0int, 0int));
    if commands.len() > 0 {
        let rest = commands.drop_first();
        let (dx, dy) = movement(commands[0]);
        lemma_total_movement(commands, 1);
        assert(total_movement(rest, 0) == (0int, 0int));
        assert(total_movement(commands, 1) == (dx, dy));
        if fits(x + dx, y + dy) {
            law_drawable_paths_visit_valid_coordinates(rest, x + dx, y + dy);
            if path_fits(commands, x, y) {
                assert forall|n: int| 0 <= n <= commands.len() implies ({
                    let (mx, my) = #[trigger] total_movement(commands, n);
                    fits(x + mx, y + my)
                }) by {
                    if n > 0 {
                        lemma_total_movement(commands, n);
                        let (mx, my) = total_movement(rest, n - 1);
                        assert(fits(x + dx + mx, y + dy + my));
                    }
                }
            }
            if forall|n: int|
                0 <= n <= commands.len() ==> {
                    let (mx, my) = #[trigger] total_movement(commands, n);
                    fits(x + mx, y + my)
                } {
                assert forall|n: int| 0 <= n <= rest.len() implies ({
                    let (mx, my) = #[trigger] total_movement(rest, n);
                    fits(x + dx + mx, y + dy + my)
                }) by {
                    lemma_total_movement(commands, n + 1);
                    let (mx, my) = total_movement(commands, n + 1);
                    assert(fits(x + mx, y + my));
                }
            }
        } else {
            assert(!path_fits(commands, x, y));
        }
    }
}

/// Paths have one step for each command, whatever their coordinates are.
proof fn lemma_path_len(commands: Seq<Command>, x: int, y: int)
    ensures
        path_events(commands, x, y).len() == commands.len(),
    decreases commands.len(),
{
    if commands.len() > 0 {
        let (dx, dy) = movement(commands[0]);
        lemma_path_len(commands.drop_first(), x + dx, y + dy);
    }
}

/// A list of steps occurs in another one without interruption.
pub open spec fn has_steps(all: Seq<RenderEvent>, steps: Seq<RenderEvent>) -> bool {
    exists|start: int|
        0 <= start <= all.len() - steps.len() && #[trigger] all.subrange(
            start,
            start + steps.len(),
        ) == steps
}

proof fn lemma_has_steps(
    before: Seq<RenderEvent>,
    all: Seq<RenderEvent>,
    behind: Seq<RenderEvent>,
    steps: Seq<RenderEvent>,
)
    requires
        has_steps(all, steps),
    ensures
        has_steps(before + all + behind, steps),
{
    let start = choose|start: int|
        0 <= start <= all.len() - steps.len() && #[trigger] all.subrange(
            start,
            start + steps.len(),
        ) == steps;
    let moved = before.len() + start;
    let found = (before + all + behind).subrange(moved, moved + steps.len());
    assert(found =~= all.subrange(start, start + steps.len()));
}

/// Number of steps for drawing the features of a layer, starting with the
/// feature at `index`.
///
/// Every feature with a known kind and geometry takes one step, and another one
/// for each command of its geometry.
pub open spec fn step_count(layer: ProtobufLayer, index: int) -> int
    decreases layer.features.len() - index,
{
    if index < 0 || index >= layer.features.len() {
        0
    } else {
        let feature = layer.features[index];
        step_count(layer, index + 1) + (if feature_tags(layer, feature).kind != Kind::Unknown
            && feature.spec_geom_type() != GeomType::Unknown {
            1 + decoded(feature.geometry@, 0).len()
        } else {
            0
        })
    }
}

/// Steps for drawing the features with at least some position in the render
/// order.
spec fn steps_above(layer: ProtobufLayer, order: int, index: int) -> int
    decreases layer.features.len() - index,
{
    if index < 0 || index >= layer.features.len() {
        0
    } else {
        let feature = layer.features[index];
        let tags = feature_tags(layer, feature);
        steps_above(layer, order, index + 1) + (if tags.kind != Kind::Unknown && order_of(tags)
            >= order {
            feature_events(layer, feature).len() as int
        } else {
            0
        })
    }
}

proof fn lemma_order_len(layer: ProtobufLayer, order: int, index: int)
    ensures
        order_events(layer, order, index).len() + steps_above(layer, order + 1, index)
            == steps_above(layer, order, index),
    decreases layer.features.len() - index,
{
    if 0 <= index < layer.features.len() {
        lemma_order_len(layer, order, index + 1);
    }
}

proof fn lemma_features_len(layer: ProtobufLayer, order: int)
    requires
        0 <= order <= ORDER_COUNT,
    ensures
        features_events(layer, order).len() == steps_above(layer, order, 0),
    decreases ORDER_COUNT - order,
{
    if order < ORDER_COUNT {
        lemma_features_len(layer, order + 1);
        lemma_order_len(layer, order, 0);
    } else {
        lemma_no_steps_above(layer, order, 0);
    }
}

proof fn lemma_no_steps_above(layer: ProtobufLayer, order: int, index: int)
    requires
        order >= ORDER_COUNT,
    ensures
        steps_above(layer, order, index) == 0,
    decreases layer.features.len() - index,
{
    if 0 <= index < layer.features.len() {
        lemma_no_steps_above(layer, order, index + 1);
    }
}

proof fn lemma_step_count(layer: ProtobufLayer, index: int)
    ensures
        step_count(layer, index) == steps_above(layer, 0, index),
    decreases layer.features.len() - index,
{
    if 0 <= index < layer.features.len() {
        lemma_step_count(layer, index + 1);
        lemma_path_len(decoded(layer.features[index].geometry@, 0), 0, 0);
    }
}

proof fn lemma_order_has_feature(layer: ProtobufLayer, order: int, index: int, f: int)
    requires
        0 <= index <= f < layer.features.len(),
        has_order(layer, layer.features[f], order),
    ensures
        has_steps(
            order_events(layer, order, index),
            feature_events(layer, layer.features[f]),
        ),
    decreases layer.features.len() - index,
{
    let steps = feature_events(layer, layer.features[f]);
    let rest = order_events(layer, order, index + 1);
    let all = order_events(layer, order, index);
    if index == f {
        assert(all.subrange(0int, 0int + steps.len()) =~= steps);
    } else {
        lemma_order_has_feature(layer, order, index + 1, f);
        let before = if has_order(layer, layer.features[index], order) {
            feature_events(layer, layer.features[index])
        } else {
            Seq::empty()
        };
        lemma_has_steps(before, rest, Seq::empty(), steps);
        assert(before + rest + Seq::<RenderEvent>::empty() =~= all);
    }
}

proof fn lemma_features_have_feature(layer: ProtobufLayer, order: int, f: int)
    requires
        0 <= f < layer.features.len(),
        feature_tags(layer, layer.features[f]).kind != Kind::Unknown,
        0 <= order <= order_of(feature_tags(layer, layer.features[f])),
    ensures
        has_steps(features_events(layer, order), feature_events(layer, layer.features[f])),
    decreases ORDER_COUNT - order,
{
    let steps = feature_events(layer, layer.features[f]);
    let head = order_events(layer, order, 0);
    let tail = features_events(layer, order + 1);
    let all = features_events(layer, order);
    if order == order_of(feature_tags(layer, layer.features[f])) {
        lemma_order_has_feature(layer, order, 0, f);
        lemma_has_steps(Seq::empty(), head, tail, steps);
        assert(Seq::<RenderEvent>::empty() + head + tail =~= all);
    } else {
        lemma_features_have_feature(layer, order + 1, f);
        lemma_has_steps(head, tail, Seq::empty(), steps);
        assert(head + tail + Seq::<RenderEvent>::empty() =~= all);
    }
}

/// Every feature with a known kind and geometry is announced with its tags and
/// then drawn completely, without anything in between. Nothing else is drawn for
/// the layer.
pub proof fn law_every_feature_is_rendered(layer: ProtobufLayer, f: int)
    requires
        0 <= f < layer.features.len(),
    ensures
        features_events(layer, 0).len() == step_count(layer, 0),
        ({
            let feature = layer.features[f];
            let tags = feature_tags(layer, feature);
            let path = path_events(decoded(feature.geometry@, 0), 0, 0);
            tags.kind != Kind::Unknown ==> match feature.geometry_type {
                Some(1) => has_steps(
                    features_events(layer, 0),
                    seq![RenderEvent::Feature(GeometryType::Point, tags)] + path,
                ),
                Some(2) => has_steps(
                    features_events(layer, 0),
                    seq![RenderEvent::Feature(GeometryType::Linestring, tags)] + path,
                ),
                Some(3) => has_steps(
                    features_events(layer, 0),
                    seq![RenderEvent::Feature(GeometryType::Polygon, tags)] + path,
                ),
                _ => true,
            }
        }),
{
    lemma_features_len(layer, 0);
    lemma_step_count(layer, 0);
    if feature_tags(layer, layer.features[f]).kind != Kind::Unknown {
        lemma_features_have_feature(layer, 0, f);
    }
}

/// Number of steps for drawing all known layers of a tile, starting with the
/// layer at `index`.
pub open spec fn tile_step_count(layers: Seq<ProtobufLayer>, index: int) -> int
    decreases layers.len() - index,
{
    if index < 0 || index >= layers.len() {
        0
    } else {
        tile_step_count(layers, index + 1) + (if layer_named(layers[index].name@) is Some {
            1 + step_count(layers[index], 0)
        } else {
            0
        })
    }
}

spec fn layer_steps_above(layers: Seq<ProtobufLayer>, rank: int, index: int) -> int
    decreases layers.len() - index,
{
    if index < 0 || index >= layers.len() {
        0
    } else {
        layer_steps_above(layers, rank, index + 1) + (match layer_named(layers[index].name@) {
            Some(name) if name.spec_rank() >= rank => 1 + step_count(layers[index], 0),
            _ => 0,
        })
    }
}

proof fn lemma_rank_len(layers: Seq<ProtobufLayer>, rank: int, index: int)
    ensures
        rank_events(layers, rank, index).len() + layer_steps_above(layers, rank + 1, index)
            == layer_steps_above(layers, rank, index),
    decreases layers.len() - index,
{
    if 0 <= index < layers.len() {
        lemma_rank_len(layers, rank, index + 1);
        lemma_features_len(layers[index], 0);
        lemma_step_count(layers[index], 0);
    }
}

proof fn lemma_tile_len(layers: Seq<ProtobufLayer>, rank: int)
    requires
        0 <= rank <= LAYER_COUNT,
    ensures
        tile_events(layers, rank).len() == layer_steps_above(layers, rank, 0),
    decreases LAYER_COUNT - rank,
{
    if rank < LAYER_COUNT {
        lemma_tile_len(layers, rank + 1);
        lemma_rank_len(layers, rank, 0);
    } else {
        lemma_layer_steps(layers, 0);
    }
}

proof fn lemma_layer_steps(layers: Seq<ProtobufLayer>, index: int)
    ensures
        layer_steps_above(layers, LAYER_COUNT as int, index) == 0,
        layer_steps_above(layers, 0, index) == tile_step_count(layers, index),
    decreases layers.len() - index,
{
    if 0 <= index < layers.len() {
        lemma_layer_steps(layers, index + 1);
    }
}

proof fn lemma_rank_has_layer(layers: Seq<ProtobufLayer>, rank: int, index: int, l: int, name: Layer)
    requires
        0 <= index <= l < layers.len(),
        layer_named(layers[l].name@) == Some(name),
        name.spec_rank() == rank,
    ensures
        has_steps(
            rank_events(layers, rank, index),
            seq![RenderEvent::Layer(name, layers[l].extent)] + features_events(layers[l], 0),
        ),
    decreases layers.len() - index,
{
    let steps = seq![RenderEvent::Layer(name, layers[l].extent)] + features_events(layers[l], 0);
    let rest = rank_events(layers, rank, index + 1);
    let all = rank_events(layers, rank, index);
    if index == l {
        assert(all.subrange(0int, 0int + steps.len()) =~= steps);
    } else {
        lemma_rank_has_layer(layers, rank, index + 1, l, name);
        let before = all.take(all.len() - rest.len());
        lemma_has_steps(before, rest, Seq::empty(), steps);
        assert(before + rest + Seq::<RenderEvent>::empty() =~= all);
    }
}

proof fn lemma_tile_has_layer(layers: Seq<ProtobufLayer>, rank: int, l: int, name: Layer)
    requires
        0 <= l < layers.len(),
        layer_named(layers[l].name@) == Some(name),
        0 <= rank <= name.spec_rank(),
    ensures
        has_steps(
            tile_events(layers, rank),
            seq![RenderEvent::Layer(name, layers[l].extent)] + features_events(layers[l], 0),
        ),
    decreases LAYER_COUNT - rank,
{
    let steps = seq![RenderEvent::Layer(name, layers[l].extent)] + features_events(layers[l], 0);
    let head = rank_events(layers, rank, 0);
    let tail = tile_events(layers, rank + 1);
    if rank == name.spec_rank() {
        lemma_rank_has_layer(layers, rank, 0, l, name);
        lemma_has_steps(Seq::empty(), head, tail, steps);
        assert(Seq::<RenderEvent>::empty() + head + tail =~= tile_events(layers, rank));
    } else {
        lemma_tile_has_layer(layers, rank + 1, l, name);
        lemma_has_steps(head, tail, Seq::empty(), steps);
        assert(head + tail + Seq::<RenderEvent>::empty() =~= tile_events(layers, rank));
    }
}

/// Every known layer of a tile is announced with its extent and followed by all
/// of its features. Nothing else is drawn for the tile.
pub proof fn law_every_layer_is_rendered(tile: Tile, l: int, name: Layer)
    requires
        0 <= l < tile.layers.len(),
        layer_named(tile.layers[l].name@) == Some(name),
    ensures
        tile_events(tile.layers@, 0).len() == tile_step_count(tile.layers@, 0),
        has_steps(
            tile_events(tile.layers@, 0),
            seq![RenderEvent::Layer(name, tile.layers[l].extent)] + features_events(
                tile.layers[l],
                0,
            ),
        ),
{
    lemma_tile_len(tile.layers@, 0);
    lemma_layer_steps(tile.layers@, 0);
    lemma_tile_has_layer(tile.layers@, 0, l, name);
}

/// A tag has the specified name.
pub open spec fn is_key(layer: ProtobufLayer, pairs: Seq<u32>, i: int, name: Seq<char>) -> bool {
    layer.keys[pairs[2 * i] as int]@ == name
}

/// A feature's kind, tunnel, and name are those of its last tag with that key,
/// and missing without such a tag.
pub proof fn law_last_tag_counts(layer: ProtobufLayer, pairs: Seq<u32>, n: int, i: int)
    requires
        0 <= i < n,
    ensures
        ({
            let tags = tags_of(layer, pairs, n);
            let value = layer.values[pairs[2 * i + 1] as int];
            &&& is_key(layer, pairs, i, "kind"@) && (forall|j: int|
                i < j < n ==> !#[trigger] is_key(layer, pairs, j, "kind"@)) ==> tags.kind == (
            match value.string_value {
                Some(kind) => kind_of(kind@),
                None => Kind::Untagged,
            })
            &&& is_key(layer, pairs, i, "tunnel"@) && (forall|j: int|
                i < j < n ==> !#[trigger] is_key(layer, pairs, j, "tunnel"@)) ==> tags.tunnel == (
            value.bool_value == Some(true))
            &&& is_key(layer, pairs, i, "name"@) && (forall|j: int|
                i < j < n ==> !#[trigger] is_key(layer, pairs, j, "name"@)) ==> tags.name == (
            match value.string_value {
                Some(name) => Some(name@),
                None => None,
            })
        }),
    decreases n,
{
    lemma_tag_names();
    if i < n - 1 {
        let name = layer.keys[pairs[2 * (n - 1)] as int]@;
        assert(is_key(layer, pairs, n - 1, "kind"@) == (name == "kind"@));
        assert(is_key(layer, pairs, n - 1, "tunnel"@) == (name == "tunnel"@));
        assert(is_key(layer, pairs, n - 1, "name"@) == (name == "name"@));
        law_last_tag_counts(layer, pairs, n - 1, i);
    }
}

/// Features without a tag for their kind, tunnel, or name have none.
pub proof fn law_missing_tags(layer: ProtobufLayer, pairs: Seq<u32>, n: int)
    ensures
        ({
            let tags = tags_of(layer, pairs, n);
            &&& (forall|j: int| 0 <= j < n ==> !#[trigger] is_key(layer, pairs, j, "kind"@))
                ==> tags.kind == Kind::Untagged
            &&& (forall|j: int| 0 <= j < n ==> !#[trigger] is_key(layer, pairs, j, "tunnel"@))
                ==> !tags.tunnel
            &&& (forall|j: int| 0 <= j < n ==> !#[trigger] is_key(layer, pairs, j, "name"@))
                ==> tags.name is None
        }),
    decreases n,
{
    if n > 0 {
        let name = layer.keys[pairs[2 * (n - 1)] as int]@;
        assert(is_key(layer, pairs, n - 1, "kind"@) == (name == "kind"@));
        assert(is_key(layer, pairs, n - 1, "tunnel"@) == (name == "tunnel"@));
        assert(is_key(layer, pairs, n - 1, "name"@) == (name == "name"@));
        law_missing_tags(layer, pairs, n - 1);
    }
}

proof fn lemma_tag_names()
    ensures
        "kind"@ != "tunnel"@,
        "kind"@ != "name"@,
        "tunnel"@ != "name"@,
{
    reveal_strlit("kind");
    reveal_strlit("tunnel");
    reveal_strlit("name");
    assert("kind"@[0] == 'k');
    assert("name"@[0] == 'n');
}

/// Two lists of steps occur in another one, with all of the second one coming behind
/// the first one.
pub open spec fn has_steps_in_order(
    all: Seq<RenderEvent>,
    first: Seq<RenderEvent>,
    second: Seq<RenderEvent>,
) -> bool {
    exists|at: int|
        0 <= at <= all.len() && has_steps(#[trigger] all.take(at), first) && has_steps(
            all.skip(at),
            second,
        )
}

proof fn lemma_joined_steps(
    a: Seq<RenderEvent>,
    b: Seq<RenderEvent>,
    first: Seq<RenderEvent>,
    second: Seq<RenderEvent>,
)
    requires
        has_steps(a, first),
        has_steps(b, second),
    ensures
        has_steps_in_order(a + b, first, second),
{
    assert((a + b).take(a.len() as int) =~= a);
    assert((a + b).skip(a.len() as int) =~= b);
}

proof fn lemma_steps_in_order(
    before: Seq<RenderEvent>,
    all: Seq<RenderEvent>,
    behind: Seq<RenderEvent>,
    first: Seq<RenderEvent>,
    second: Seq<RenderEvent>,
)
    requires
        has_steps_in_order(all, first, second),
    ensures
        has_steps_in_order(before + all + behind, first, second),
{
    let at = choose|at: int|
        0 <= at <= all.len() && has_steps(#[trigger] all.take(at), first) && has_steps(
            all.skip(at),
            second,
        );
    let empty = Seq::<RenderEvent>::empty();
    lemma_has_steps(before, all.take(at), empty, first);
    lemma_has_steps(empty, all.skip(at), behind, second);
    let a = before + all.take(at) + empty;
    let b = empty + all.skip(at) + behind;
    lemma_joined_steps(a, b, first, second);
    assert(a + b =~= before + all + behind);
}

proof fn lemma_order_in_order(layer: ProtobufLayer, order: int, index: int, a: int, b: int)
    requires
        0 <= index <= a < b < layer.features.len(),
        has_order(layer, layer.features[a], order),
        has_order(layer, layer.features[b], order),
    ensures
        has_steps_in_order(
            order_events(layer, order, index),
            feature_events(layer, layer.features[a]),
            feature_events(layer, layer.features[b]),
        ),
    decreases layer.features.len() - index,
{
    let first = feature_events(layer, layer.features[a]);
    let second = feature_events(layer, layer.features[b]);
    let rest = order_events(layer, order, index + 1);
    let all = order_events(layer, order, index);
    if index == a {
        lemma_order_has_feature(layer, order, index + 1, b);
        assert(first.subrange(0int, 0int + first.len()) =~= first);
        lemma_joined_steps(first, rest, first, second);
    } else {
        lemma_order_in_order(layer, order, index + 1, a, b);
        let before = if has_order(layer, layer.features[index], order) {
            feature_events(layer, layer.features[index])
        } else {
            Seq::empty()
        };
        lemma_steps_in_order(before, rest, Seq::empty(), first, second);
        assert(before + rest + Seq::<RenderEvent>::empty() =~= all);
    }
}

proof fn lemma_features_in_order(layer: ProtobufLayer, order: int, a: int, b: int)
    requires
        0 <= a < layer.features.len(),
        0 <= b < layer.features.len(),
        feature_tags(layer, layer.features[a]).kind != Kind::Unknown,
        feature_tags(layer, layer.features[b]).kind != Kind::Unknown,
        ({
            let first = order_of(feature_tags(layer, layer.features[a]));
            let second = order_of(feature_tags(layer, layer.features[b]));
            0 <= order <= first && (first < second || first == second && a < b)
        }),
    ensures
        has_steps_in_order(
            features_events(layer, order),
            feature_events(layer, layer.features[a]),
            feature_events(layer, layer.features[b]),
        ),
    decreases ORDER_COUNT - order,
{
    let first = feature_events(layer, layer.features[a]);
    let second = feature_events(layer, layer.features[b]);
    let head = order_events(layer, order, 0);
    let tail = features_events(layer, order + 1);
    let empty = Seq::<RenderEvent>::empty();
    if order < order_of(feature_tags(layer, layer.features[a])) {
        lemma_features_in_order(layer, order + 1, a, b);
        lemma_steps_in_order(head, tail, empty, first, second);
        assert(head + tail + empty =~= head + tail);
    } else if order < order_of(feature_tags(layer, layer.features[b])) {
        lemma_order_has_feature(layer, order, 0, a);
        lemma_features_have_feature(layer, order + 1, b);
        lemma_joined_steps(head, tail, first, second);
    } else {
        lemma_order_in_order(layer, order, 0, a, b);
        lemma_steps_in_order(empty, head, tail, first, second);
        assert(empty + head + tail =~= head + tail);
    }
}

/// Features are drawn from bottom to top: tunnels come first, followed by all others.
/// Both are ordered by their kind, and features of the same kind stay in the order of
/// the layer.
pub proof fn law_features_are_drawn_bottom_up(layer: ProtobufLayer, a: int, b: int)
    requires
        0 <= a < layer.features.len(),
        0 <= b < layer.features.len(),
        ({
            let first = feature_tags(layer, layer.features[a]);
            let second = feature_tags(layer, layer.features[b]);
            &&& first.kind != Kind::Unknown && second.kind != Kind::Unknown
            &&& first.tunnel && !second.tunnel || first.tunnel == second.tunnel && (
            first.kind.spec_rank() < second.kind.spec_rank() || first.kind == second.kind && a < b)
        }),
    ensures
        has_steps_in_order(
            features_events(layer, 0),
            feature_events(layer, layer.features[a]),
            feature_events(layer, layer.features[b]),
        ),
{
    lemma_features_in_order(layer, 0, a, b);
}

proof fn lemma_rank_in_order(
    layers: Seq<ProtobufLayer>,
    rank: int,
    index: int,
    a: int,
    b: int,
    name: Layer,
)
    requires
        0 <= index <= a < b < layers.len(),
        layer_named(layers[a].name@) == Some(name),
        layer_named(layers[b].name@) == Some(name),
        name.spec_rank() == rank,
    ensures
        has_steps_in_order(
            rank_events(layers, rank, index),
            layer_events(layers[a], name),
            layer_events(layers[b], name),
        ),
    decreases layers.len() - index,
{
    let first = layer_events(layers[a], name);
    let second = layer_events(layers[b], name);
    let rest = rank_events(layers, rank, index + 1);
    let all = rank_events(layers, rank, index);
    if index == a {
        lemma_rank_has_layer(layers, rank, index + 1, b, name);
        assert(first.subrange(0int, 0int + first.len()) =~= first);
        lemma_joined_steps(first, rest, first, second);
    } else {
        lemma_rank_in_order(layers, rank, index + 1, a, b, name);
        let before = all.take(all.len() - rest.len());
        lemma_steps_in_order(before, rest, Seq::empty(), first, second);
        assert(before + rest + Seq::<RenderEvent>::empty() =~= all);
    }
}

/// A layer which is announced with its extent, followed by all of its features.
pub open spec fn layer_events(layer: ProtobufLayer, name: Layer) -> Seq<RenderEvent> {
    seq![RenderEvent::Layer(name, layer.extent)] + features_events(layer, 0)
}

proof fn lemma_layers_in_order(
    layers: Seq<ProtobufLayer>,
    rank: int,
    a: int,
    b: int,
    lower: Layer,
    upper: Layer,
)
    requires
        0 <= a < layers.len(),
        0 <= b < layers.len(),
        layer_named(layers[a].name@) == Some(lower),
        layer_named(layers[b].name@) == Some(upper),
        0 <= rank <= lower.spec_rank(),
        lower.spec_rank() < upper.spec_rank() || lower == upper && a < b,
    ensures
        has_steps_in_order(
            tile_events(layers, rank),
            layer_events(layers[a], lower),
            layer_events(layers[b], upper),
        ),
    decreases LAYER_COUNT - rank,
{
    let first = layer_events(layers[a], lower);
    let second = layer_events(layers[b], upper);
    let head = rank_events(layers, rank, 0);
    let tail = tile_events(layers, rank + 1);
    let empty = Seq::<RenderEvent>::empty();
    if rank < lower.spec_rank() {
        lemma_layers_in_order(layers, rank + 1, a, b, lower, upper);
        lemma_steps_in_order(head, tail, empty, first, second);
        assert(head + tail + empty =~= head + tail);
    } else if rank < upper.spec_rank() {
        lemma_rank_has_layer(layers, rank, 0, a, lower);
        lemma_tile_has_layer(layers, rank + 1, b, upper);
        lemma_joined_steps(head, tail, first, second);
    } else {
        lemma_rank_in_order(layers, rank, 0, a, b, lower);
        lemma_steps_in_order(empty, head, tail, first, second);
        assert(empty + head + tail =~= head + tail);
    }
}

/// Layers are drawn from bottom to top, with those of the same name staying in the
/// order of the tile.
pub proof fn law_layers_are_drawn_bottom_up(
    tile: Tile,
    a: int,
    b: int,
    lower: Layer,
    upper: Layer,
)
    requires
        0 <= a < tile.layers.len(),
        0 <= b < tile.layers.len(),
        layer_named(tile.layers[a].name@) == Some(lower),
        layer_named(tile.layers[b].name@) == Some(upper),
        lower.spec_rank() < upper.spec_rank() || lower == upper && a < b,
    ensures
        has_steps_in_order(
            tile_events(tile.layers@, 0),
            layer_events(tile.layers[a], lower),
            layer_events(tile.layers[b], upper),
        ),
{
    lemma_layers_in_order(tile.layers@, 0, a, b, lower, upper);
}

/// A tile can be rendered if all tags of its known layers can be found, and all
/// features of a known kind with a geometry can be drawn.
pub proof fn law_tiles_with_valid_features_are_rendered(tile: Tile)
    requires
        forall|l: int, f: int|
            #![trigger tile.layers[l].features[f]]
            0 <= l < tile.layers.len() && 0 <= f < tile.layers[l].features.len() ==> {
                let layer = tile.layers[l];
                let feature = layer.features[f];
                &&& has_tags(layer, feature.tags@)
                &&& decodable(feature.geometry@, 0)
                &&& path_fits(decoded(feature.geometry@, 0), 0, 0)
            },
    ensures
        renderable(tile),
{
}

} // verus!
