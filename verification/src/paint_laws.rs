//! What painting does to a scene, for each sort of primitive: where it goes, which order
//! it gets, what is counted, and what replaying it shows.
use vstd::prelude::*;

use vstd::std_specs::convert::FromSpec;

use crate::bounds_tree::{
    highest_overlap, next_order, orders_are_counted, overlap_bounds_the_highest, OrderedBounds,
};
use crate::geometry::{Bounds, ContentMask};
use crate::primitive::{
    DrawOrder, MonochromeSprite, PaintOperation, PaintSurface, PolychromeSprite, Primitive,
    PrimitiveLists, Quad, RasterTile, ScenePath, Shadow, TransformationMatrix, TransformedGeometry,
    Underline,
};
use crate::scene::{
    all_text_paint, is_text_paint, is_vector_paint, moved_text, transformed_paint, SceneModel,
    SceneTrace,
};

verus! {

/// The rectangle of a primitive.
pub open spec fn rectangle_of(primitive: Primitive) -> Bounds {
    match primitive {
        Primitive::Shadow(item) => item.bounds,
        Primitive::Quad(item) => item.bounds,
        Primitive::Path(item) => item.bounds,
        Primitive::Underline(item) => item.bounds,
        Primitive::MonochromeSprite(item) => item.bounds,
        Primitive::PolychromeSprite(item) => item.bounds,
        Primitive::Surface(item) => item.bounds,
        Primitive::RasterTile(item) => item.bounds,
    }
}

/// What a primitive is clipped to.
pub open spec fn mask_of(primitive: Primitive) -> Bounds {
    match primitive {
        Primitive::Shadow(item) => item.content_mask.bounds,
        Primitive::Quad(item) => item.content_mask.bounds,
        Primitive::Path(item) => item.content_mask.bounds,
        Primitive::Underline(item) => item.content_mask.bounds,
        Primitive::MonochromeSprite(item) => item.content_mask.bounds,
        Primitive::PolychromeSprite(item) => item.content_mask.bounds,
        Primitive::Surface(item) => item.content_mask.bounds,
        Primitive::RasterTile(item) => item.content_mask.bounds,
    }
}

/// What is left of a primitive inside its content mask.
pub open spec fn visible_part(primitive: Primitive) -> Bounds {
    rectangle_of(primitive).spec_intersect(mask_of(primitive))
}

/// The order of a primitive.
pub open spec fn drawn_at(primitive: Primitive) -> DrawOrder {
    match primitive {
        Primitive::Shadow(item) => item.order,
        Primitive::Quad(item) => item.order,
        Primitive::Path(item) => item.order,
        Primitive::Underline(item) => item.order,
        Primitive::MonochromeSprite(item) => item.order,
        Primitive::PolychromeSprite(item) => item.order,
        Primitive::Surface(item) => item.order,
        Primitive::RasterTile(item) => item.order,
    }
}

/// Whether one primitive is another at an order of its own; of paths also the place
/// among paths may differ.
pub open spec fn same_but_for_order(painted: Primitive, primitive: Primitive) -> bool {
    match (painted, primitive) {
        (Primitive::Shadow(a), Primitive::Shadow(b)) => a == Shadow { order: a.order, ..b },
        (Primitive::Quad(a), Primitive::Quad(b)) => a == Quad { order: a.order, ..b },
        (Primitive::Path(a), Primitive::Path(b)) => a == ScenePath {
            order: a.order,
            id: a.id,
            ..b
        },
        (Primitive::Underline(a), Primitive::Underline(b)) => a == Underline {
            order: a.order,
            ..b
        },
        (Primitive::MonochromeSprite(a), Primitive::MonochromeSprite(b)) => a
            == MonochromeSprite { order: a.order, ..b },
        (Primitive::PolychromeSprite(a), Primitive::PolychromeSprite(b)) => a
            == PolychromeSprite { order: a.order, ..b },
        (Primitive::Surface(a), Primitive::Surface(b)) => a == PaintSurface {
            order: a.order,
            ..b
        },
        (Primitive::RasterTile(a), Primitive::RasterTile(b)) => a == RasterTile {
            order: a.order,
            ..b
        },
        _ => false,
    }
}

/// Whether the lists have one primitive more, behind the others of its sort, and are
/// otherwise the same.
pub open spec fn one_more_listed(
    before: PrimitiveLists,
    after: PrimitiveLists,
    primitive: Primitive,
) -> bool {
    match primitive {
        Primitive::Shadow(item) => after == PrimitiveLists {
            shadows: before.shadows.push(item),
            ..before
        },
        Primitive::Quad(item) => after == PrimitiveLists {
            quads: before.quads.push(item),
            ..before
        },
        Primitive::Path(item) => after == PrimitiveLists {
            paths: before.paths.push(item),
            ..before
        },
        Primitive::Underline(item) => after == PrimitiveLists {
            underlines: before.underlines.push(item),
            ..before
        },
        Primitive::MonochromeSprite(item) => after == PrimitiveLists {
            monochrome_sprites: before.monochrome_sprites.push(item),
            ..before
        },
        Primitive::PolychromeSprite(item) => after == PrimitiveLists {
            polychrome_sprites: before.polychrome_sprites.push(item),
            ..before
        },
        Primitive::Surface(item) => after == PrimitiveLists {
            surfaces: before.surfaces.push(item),
            ..before
        },
        Primitive::RasterTile(item) => after == PrimitiveLists {
            raster_tiles: before.raster_tiles.push(item),
            ..before
        },
    }
}

/// Whether an order is the lowest one above those of all rectangles that a rectangle
/// overlaps.
pub open spec fn just_above(entries: Seq<OrderedBounds>, bounds: Bounds, order: DrawOrder) -> bool {
    &&& order >= 1
    &&& forall|i: int|
        0 <= i < entries.len() && (#[trigger] entries[i]).bounds.overlaps(bounds)
            ==> entries[i].order < order
    &&& order > 1 ==> exists|i: int|
        0 <= i < entries.len() && (#[trigger] entries[i]).bounds.overlaps(bounds)
            && entries[i].order + 1 == order
}

proof fn the_highest_is_reached(entries: Seq<OrderedBounds>, bounds: Bounds)
    ensures
        highest_overlap(entries, bounds) >= 0,
        highest_overlap(entries, bounds) > 0 ==> exists|i: int|
            0 <= i < entries.len() && (#[trigger] entries[i]).bounds.overlaps(bounds)
                && entries[i].order == highest_overlap(entries, bounds),
    decreases entries.len(),
{
    if entries.len() > 0 {
        let rest = entries.drop_last();
        the_highest_is_reached(rest, bounds);
        let last = entries.len() - 1;
        if entries[last].bounds.overlaps(bounds) && entries[last].order > highest_overlap(
            rest,
            bounds,
        ) {
            assert(entries[last].order == highest_overlap(entries, bounds));
        } else if highest_overlap(rest, bounds) > 0 {
            let i = choose|i: int|
                0 <= i < rest.len() && (#[trigger] rest[i]).bounds.overlaps(bounds)
                    && rest[i].order == highest_overlap(rest, bounds);
            assert(entries[i] == rest[i]);
        }
    }
}

/// A rectangle gets the lowest order above those of all rectangles that it overlaps.
pub proof fn an_order_is_just_above(entries: Seq<OrderedBounds>, bounds: Bounds)
    requires
        next_order(entries, bounds) <= u32::MAX,
    ensures
        just_above(entries, bounds, next_order(entries, bounds) as u32),
{
    the_highest_is_reached(entries, bounds);
    assert forall|i: int|
        0 <= i < entries.len() && (#[trigger] entries[i]).bounds.overlaps(
            bounds,
        ) implies entries[i].order < next_order(entries, bounds) by {
        overlap_bounds_the_highest(entries, bounds, i);
    }
    if next_order(entries, bounds) > 1 {
        let i = choose|i: int|
            0 <= i < entries.len() && (#[trigger] entries[i]).bounds.overlaps(bounds)
                && entries[i].order == highest_overlap(entries, bounds);
        assert(entries[i].order + 1 == next_order(entries, bounds));
    }
}

/// Inserting a primitive of which nothing is visible changes nothing. Any other one is
/// added to the list of its sort and recorded as painted, at an order and as it was
/// otherwise; a path takes the next place among paths. Inside a layer its order is that
/// of the innermost one; outside it is the lowest order above everything that its
/// visible part overlaps, and that part is entered at this order.
pub proof fn an_inserted_primitive_is_listed(model: SceneModel, primitive: Primitive)
    requires
        model.wf(),
        model.inserted(primitive).fits(),
    ensures
        ({
            let after = model.inserted(primitive);
            let visible = visible_part(primitive);
            &&& visible.empty() ==> after == model
            &&& !visible.empty() ==> {
                &&& after.operations.len() == model.operations.len() + 1
                &&& after.operations.drop_last() == model.operations
                &&& after.operations.last() is Primitive
                &&& ({
                    let painted = after.operations.last()->Primitive_0;
                    &&& same_but_for_order(painted, primitive)
                    &&& one_more_listed(model.lists, after.lists, painted)
                    &&& painted matches Primitive::Path(path) ==> path.id.0
                        == model.lists.paths.len() as usize
                    &&& model.layers.len() > 0 ==> drawn_at(painted)
                        == model.layers[model.layers.len() - 1] && after.bounds == model.bounds
                    &&& model.layers.len() == 0 ==> just_above(
                        model.bounds,
                        visible,
                        drawn_at(painted),
                    ) && after.bounds == model.bounds.push(
                        OrderedBounds { bounds: visible, order: drawn_at(painted) },
                    )
                })
                &&& after.layers == model.layers
                &&& after.updates == model.updates
                &&& after.batches == model.batches
                &&& after.compositors == model.compositors
            }
        }),
{
    let after = model.inserted(primitive);
    let visible = visible_part(primitive);
    assert(visible == primitive.clipped());
    if !visible.empty() {
        assert(after.operations.drop_last() =~= model.operations);
        if model.layers.len() == 0 {
            orders_are_counted(model.bounds, visible);
            an_order_is_just_above(model.bounds, visible);
        }
    }
}

/// Entering a layer gives it the lowest order above everything that it overlaps, which
/// are the layers around it too; its rectangle is entered at this order. Leaving it goes
/// back to the layers around it.
pub proof fn a_layer_lies_above_what_it_overlaps(model: SceneModel, bounds: Bounds)
    requires
        model.wf(),
        model.layer_pushed(bounds).fits(),
    ensures
        ({
            let after = model.layer_pushed(bounds);
            let order = after.layers[model.layers.len() as int];
            &&& after.layers == model.layers.push(order)
            &&& just_above(model.bounds, bounds, order)
            &&& after.bounds == model.bounds.push(OrderedBounds { bounds, order })
            &&& after.operations == model.operations.push(PaintOperation::StartLayer(bounds))
            &&& after.lists == model.lists
            &&& after.trace == model.trace
            &&& after.layer_popped().layers == model.layers
            &&& after.layer_popped().bounds == after.bounds
            &&& after.layer_popped().lists == model.lists
            &&& after.layer_popped().operations == after.operations.push(PaintOperation::EndLayer)
        }),
{
    let after = model.layer_pushed(bounds);
    orders_are_counted(model.bounds, bounds);
    an_order_is_just_above(model.bounds, bounds);
    assert(after.layer_popped().layers =~= model.layers);
}

/// What is painted in a layer, however deep it lies in others, gets the order that
/// entering this layer gave it: above every earlier rectangle that the layer overlaps.
pub proof fn paint_in_a_layer_lies_above_what_the_layer_overlaps(
    model: SceneModel,
    bounds: Bounds,
    primitive: Primitive,
    i: int,
)
    requires
        model.wf(),
        model.layer_pushed(bounds).fits(),
        !visible_part(primitive).empty(),
    ensures
        ({
            let entered = model.layer_pushed(bounds);
            let painted = entered.inserted(primitive).operations.last()->Primitive_0;
            &&& drawn_at(painted) == entered.layers[entered.layers.len() - 1]
            &&& drawn_at(painted) == entered.bounds[model.bounds.len() as int].order
            &&& 0 <= i < model.bounds.len() && model.bounds[i].bounds.overlaps(bounds)
                ==> model.bounds[i].order < drawn_at(painted)
        }),
{
    orders_are_counted(model.bounds, bounds);
    an_order_is_just_above(model.bounds, bounds);
    assert(visible_part(primitive) == primitive.clipped());
}

/// A layer that was left without a layer around it changes nothing.
pub proof fn leaving_no_layer_leaves_none(model: SceneModel)
    requires
        model.layers.len() == 0,
    ensures
        model.layer_popped().layers == model.layers,
        model.layer_popped().bounds == model.bounds,
        model.layer_popped().lists == model.lists,
{
}

/// Replaying operations one part after the other is replaying them all.
pub proof fn replaying_goes_on(
    model: SceneModel,
    first: Seq<PaintOperation>,
    second: Seq<PaintOperation>,
)
    ensures
        model.replayed(first + second) == model.replayed(first).replayed(second),
    decreases second.len(),
{
    if second.len() == 0 {
        assert(first + second =~= first);
    } else {
        assert((first + second).drop_last() =~= first + second.drop_last());
        replaying_goes_on(model, first, second.drop_last());
    }
}

/// Replaying one operation inserts its primitive, or enters or leaves a layer.
pub proof fn replaying_one_operation_paints_it(model: SceneModel, operation: PaintOperation)
    ensures
        model.replayed(seq![operation]) == match operation {
            PaintOperation::Primitive(primitive) => model.inserted(primitive),
            PaintOperation::StartLayer(bounds) => model.layer_pushed(bounds),
            PaintOperation::EndLayer => model.layer_popped(),
        },
{
    assert(seq![operation].drop_last() =~= Seq::<PaintOperation>::empty());
    assert(model.replayed(Seq::<PaintOperation>::empty()) == model);
}

/// A counter with some more on it, as far as it counts.
pub open spec fn raised(counter: u64, by: u64) -> int {
    if counter + by > u64::MAX {
        u64::MAX as int
    } else {
        counter + by
    }
}

/// Every visible primitive is counted by its sort: shadows and quads with their areas,
/// paths with their segments, sprites of either sort together. Underlines and raster
/// tiles are not counted, and nothing else that is known of the scene changes.
pub proof fn what_is_painted_is_counted(model: SceneModel, primitive: Primitive)
    requires
        !visible_part(primitive).empty(),
    ensures
        ({
            let before = model.trace.summary;
            let after = model.inserted(primitive).trace.summary;
            let shadow = primitive is Shadow;
            let quad = primitive is Quad;
            let path = primitive is Path;
            let sprite = primitive is MonochromeSprite || primitive is PolychromeSprite;
            let surface = primitive is Surface;
            &&& after.shadow_count == raised(before.shadow_count, if shadow { 1 } else { 0 })
            &&& after.quad_count == raised(before.quad_count, if quad { 1 } else { 0 })
            &&& after.path_count == raised(before.path_count, if path { 1 } else { 0 })
            &&& after.sprite_count == raised(before.sprite_count, if sprite { 1 } else { 0 })
            &&& after.surface_count == raised(before.surface_count, if surface { 1 } else { 0 })
            &&& after.shadow_expanded_area_device_px2 == raised(
                before.shadow_expanded_area_device_px2,
                if shadow {
                    primitive->Shadow_0.expanded_area_device_px2
                } else {
                    0
                },
            )
            &&& after.quad_area_device_px2 == raised(
                before.quad_area_device_px2,
                if quad {
                    primitive->Quad_0.clipped_area_device_px2
                } else {
                    0
                },
            )
            &&& after.path_segment_count == raised(
                before.path_segment_count,
                if path {
                    primitive->Path_0.contour_count as u64
                } else {
                    0
                },
            )
            &&& model.inserted(primitive).trace == (SceneTrace { summary: after, ..model.trace })
        }),
{
    assert(visible_part(primitive) == primitive.clipped());
}

/// Under a transform every sort of primitive takes the rectangle and the mask that were
/// computed for it. Shadows, quads and pictures take the style and the transformation
/// too, shadows and quads their area, glyphs the transformation, underlines the style,
/// and paths the points and the vertices. What else they are stays.
pub proof fn a_transformed_primitive_takes_what_was_computed(
    primitive: Primitive,
    to: TransformedGeometry,
)
    ensures
        match (primitive, primitive.spec_transformed(to)) {
            (Primitive::Shadow(old), Primitive::Shadow(new)) => {
                &&& new.bounds == to.bounds
                &&& new.content_mask == to.content_mask
                &&& new.transformation == to.transformation
                &&& new.style == to.style
                &&& new.expanded_area_device_px2 == to.area_device_px2
                &&& new.order == old.order
            },
            (Primitive::Quad(old), Primitive::Quad(new)) => {
                &&& new.bounds == to.bounds
                &&& new.content_mask == to.content_mask
                &&& new.transformation == to.transformation
                &&& new.style == to.style
                &&& new.clipped_area_device_px2 == to.area_device_px2
                &&& new.border_style == old.border_style
                &&& new.order == old.order
            },
            (Primitive::Path(old), Primitive::Path(new)) => {
                &&& new.bounds == to.bounds
                &&& new.content_mask == to.content_mask
                &&& new.start == to.start
                &&& new.current == to.current
                &&& new.geometry == to.geometry
                &&& new.style == old.style
                &&& new.id == old.id
                &&& new.vertex_count == old.vertex_count
                &&& new.contour_count == old.contour_count
                &&& new.order == old.order
            },
            (Primitive::Underline(old), Primitive::Underline(new)) => {
                &&& new.bounds == to.bounds
                &&& new.content_mask == to.content_mask
                &&& new.style == to.style
                &&& new.order == old.order
            },
            (Primitive::MonochromeSprite(old), Primitive::MonochromeSprite(new)) => {
                &&& new.bounds == to.bounds
                &&& new.content_mask == to.content_mask
                &&& new.transformation == to.transformation
                &&& new.style == old.style
                &&& new.tile == old.tile
                &&& new.order == old.order
            },
            (Primitive::PolychromeSprite(old), Primitive::PolychromeSprite(new)) => {
                &&& new.bounds == to.bounds
                &&& new.content_mask == to.content_mask
                &&& new.transformation == to.transformation
                &&& new.style == to.style
                &&& new.tile == old.tile
                &&& new.order == old.order
            },
            (Primitive::Surface(old), Primitive::Surface(new)) => {
                &&& new.bounds == to.bounds
                &&& new.content_mask == to.content_mask
                &&& new.image == old.image
                &&& new.order == old.order
            },
            (Primitive::RasterTile(old), Primitive::RasterTile(new)) => {
                &&& new.bounds == to.bounds
                &&& new.content_mask == to.content_mask
                &&& new.cache_id == old.cache_id
                &&& new.key == old.key
                &&& new.revision == old.revision
                &&& new.gutter == old.gutter
                &&& new.order == old.order
            },
            _ => false,
        },
{
}

/// Replaying under a transform paints as many operations as were captured, in their
/// sequence: each primitive as it is under the transform, each layer with the rectangle
/// computed for it, each end of a layer as it was.
pub proof fn a_transformed_replay_keeps_the_sequence(
    operations: Seq<PaintOperation>,
    geometry: Seq<TransformedGeometry>,
    i: int,
)
    requires
        geometry.len() == operations.len(),
        0 <= i < operations.len(),
    ensures
        transformed_paint(operations, geometry).len() == operations.len(),
        match (operations[i], transformed_paint(operations, geometry)[i]) {
            (PaintOperation::Primitive(old), PaintOperation::Primitive(new)) => {
                &&& rectangle_of(new) == geometry[i].bounds
                &&& mask_of(new) == geometry[i].content_mask.bounds
                &&& new == old.spec_transformed(geometry[i])
            },
            (PaintOperation::StartLayer(_), PaintOperation::StartLayer(bounds)) => bounds
                == geometry[i].bounds,
            (PaintOperation::EndLayer, PaintOperation::EndLayer) => true,
            _ => false,
        },
{
}

/// Whether a primitive may be part of cached text.
pub open spec fn is_sprite(primitive: Primitive) -> bool {
    primitive is MonochromeSprite || primitive is PolychromeSprite
}

/// Cached text may hold layers and sprites of either sort, and nothing else.
pub proof fn text_is_layers_and_sprites(operation: PaintOperation)
    ensures
        is_text_paint(operation) <==> (operation is StartLayer || operation is EndLayer || is_sprite(
            operation->Primitive_0,
        )),
{
}

/// A vector capture may hold anything but surfaces and raster tiles.
pub proof fn a_capture_holds_no_surfaces_and_tiles(operation: PaintOperation)
    ensures
        is_vector_paint(operation) <==> (operation is StartLayer || operation is EndLayer || !(
        operation->Primitive_0 is Surface || operation->Primitive_0 is RasterTile)),
{
}

/// A sprite of cached text is painted under the mask and the transformation given to the
/// replay, and is otherwise the sprite that was captured. It goes to the list of its
/// sort at the order of the innermost layer, or outside of layers at the lowest order
/// above everything that its rectangle overlaps. Nothing is recorded or counted.
pub proof fn cached_sprites_take_the_mask_and_transformation_given(
    model: SceneModel,
    primitive: Primitive,
    content_mask: ContentMask,
    transformation: TransformationMatrix,
)
    requires
        is_sprite(primitive),
        model.wf(),
        model.text_painted(
            PaintOperation::Primitive(primitive),
            content_mask,
            transformation,
        ).fits(),
    ensures
        ({
            let after = model.text_painted(
                PaintOperation::Primitive(primitive),
                content_mask,
                transformation,
            );
            let placed = |order: DrawOrder|
                {
                    &&& model.layers.len() > 0 ==> order == model.layers[model.layers.len() - 1]
                        && after.bounds == model.bounds
                    &&& model.layers.len() == 0 ==> just_above(
                        model.bounds,
                        rectangle_of(primitive),
                        order,
                    ) && after.bounds == model.bounds.push(
                        OrderedBounds { bounds: rectangle_of(primitive), order },
                    )
                };
            &&& primitive matches Primitive::MonochromeSprite(sprite) ==> {
                let shown = after.lists.monochrome_sprites[model.lists.monochrome_sprites.len() as int];
                &&& after.lists == (PrimitiveLists {
                    monochrome_sprites: model.lists.monochrome_sprites.push(shown),
                    ..model.lists
                })
                &&& shown.content_mask == content_mask
                &&& shown.transformation == transformation
                &&& shown.bounds == sprite.bounds
                &&& shown.tile == sprite.tile
                &&& shown.style == sprite.style
                &&& placed(shown.order)
            }
            &&& primitive matches Primitive::PolychromeSprite(sprite) ==> {
                let shown = after.lists.polychrome_sprites[model.lists.polychrome_sprites.len() as int];
                &&& after.lists == (PrimitiveLists {
                    polychrome_sprites: model.lists.polychrome_sprites.push(shown),
                    ..model.lists
                })
                &&& shown.content_mask == content_mask
                &&& shown.transformation == transformation
                &&& shown.bounds == sprite.bounds
                &&& shown.tile == sprite.tile
                &&& shown.style == sprite.style
                &&& placed(shown.order)
            }
            &&& after.layers == model.layers
            &&& after.operations == model.operations
            &&& after.trace == model.trace
        }),
{
    orders_are_counted(model.bounds, rectangle_of(primitive));
    if model.layers.len() == 0 {
        an_order_is_just_above(model.bounds, rectangle_of(primitive));
    }
}

/// A layer of cached text is clipped to the mask. What is left of it gets the lowest
/// order above everything that it overlaps and is entered at this order. Where nothing
/// is left the layer has the order of the one around it, or the last order where there is
/// none. A layer's end goes back to the layers around it. Nothing is recorded or listed.
pub proof fn cached_layers_are_clipped(
    model: SceneModel,
    bounds: Bounds,
    content_mask: ContentMask,
    transformation: TransformationMatrix,
)
    requires
        model.wf(),
        model.text_painted(
            PaintOperation::StartLayer(bounds),
            content_mask,
            transformation,
        ).fits(),
    ensures
        ({
            let after = model.text_painted(
                PaintOperation::StartLayer(bounds),
                content_mask,
                transformation,
            );
            let visible = bounds.spec_intersect(content_mask.bounds);
            let order = after.layers[model.layers.len() as int];
            &&& after.layers == model.layers.push(order)
            &&& after.lists == model.lists
            &&& after.operations == model.operations
            &&& visible.empty() ==> after.bounds == model.bounds && order == (
            if model.layers.len() > 0 {
                model.layers[model.layers.len() - 1]
            } else {
                u32::MAX
            })
            &&& !visible.empty() ==> just_above(model.bounds, visible, order) && after.bounds
                == model.bounds.push(OrderedBounds { bounds: visible, order })
            &&& after.text_painted(
                PaintOperation::EndLayer,
                content_mask,
                transformation,
            ).layers == model.layers
        }),
{
    let visible = bounds.spec_intersect(content_mask.bounds);
    orders_are_counted(model.bounds, visible);
    if !visible.empty() {
        an_order_is_just_above(model.bounds, visible);
    }
    let after = model.text_painted(
        PaintOperation::StartLayer(bounds),
        content_mask,
        transformation,
    );
    assert(after.text_painted(
        PaintOperation::EndLayer,
        content_mask,
        transformation,
    ).layers =~= model.layers);
}

/// Replaying cached text one part after the other is replaying it all.
pub proof fn replaying_text_goes_on(
    model: SceneModel,
    first: Seq<PaintOperation>,
    second: Seq<PaintOperation>,
    content_mask: ContentMask,
    transformation: TransformationMatrix,
)
    ensures
        model.text_replayed(first + second, content_mask, transformation) == model.text_replayed(
            first,
            content_mask,
            transformation,
        ).text_replayed(second, content_mask, transformation),
        first.len() == 1 ==> model.text_replayed(first, content_mask, transformation)
            == model.text_painted(first[0], content_mask, transformation),
    decreases second.len(),
{
    if first.len() == 1 {
        assert(model.text_replayed(first.drop_last(), content_mask, transformation) == model);
    }
    if second.len() == 0 {
        assert(first + second =~= first);
    } else {
        assert((first + second).drop_last() =~= first + second.drop_last());
        replaying_text_goes_on(
            model,
            first,
            second.drop_last(),
            content_mask,
            transformation,
        );
    }
}

/// Cached text in another place is the same operations in the same sequence, each sprite
/// and each layer with the rectangle of its new place and otherwise as it was.
pub proof fn moved_text_keeps_the_sequence(
    operations: Seq<PaintOperation>,
    places: Seq<Bounds>,
    i: int,
)
    requires
        places.len() == operations.len(),
        0 <= i < operations.len(),
        is_text_paint(operations[i]),
    ensures
        moved_text(operations, places).len() == operations.len(),
        match (operations[i], moved_text(operations, places)[i]) {
            (PaintOperation::StartLayer(_), PaintOperation::StartLayer(bounds)) => bounds
                == places[i],
            (PaintOperation::EndLayer, PaintOperation::EndLayer) => true,
            (
                PaintOperation::Primitive(Primitive::MonochromeSprite(old)),
                PaintOperation::Primitive(Primitive::MonochromeSprite(new)),
            ) => new.bounds == places[i] && new == (MonochromeSprite { bounds: new.bounds, ..old }),
            (
                PaintOperation::Primitive(Primitive::PolychromeSprite(old)),
                PaintOperation::Primitive(Primitive::PolychromeSprite(new)),
            ) => new.bounds == places[i] && new == (PolychromeSprite { bounds: new.bounds, ..old }),
            _ => false,
        },
{
}

/// Operations are cached text exactly where each of them is a layer, the end of one, or a
/// sprite of either sort.
pub proof fn cached_text_is_nothing_but_text(operations: Seq<PaintOperation>)
    ensures
        all_text_paint(operations) <==> forall|i: int|
            0 <= i < operations.len() ==> match #[trigger] operations[i] {
                PaintOperation::StartLayer(_) => true,
                PaintOperation::EndLayer => true,
                PaintOperation::Primitive(Primitive::MonochromeSprite(_)) => true,
                PaintOperation::Primitive(Primitive::PolychromeSprite(_)) => true,
                PaintOperation::Primitive(_) => false,
            },
{
    if all_text_paint(operations) {
        assert forall|i: int| 0 <= i < operations.len() implies match #[trigger] operations[i] {
            PaintOperation::StartLayer(_) => true,
            PaintOperation::EndLayer => true,
            PaintOperation::Primitive(Primitive::MonochromeSprite(_)) => true,
            PaintOperation::Primitive(Primitive::PolychromeSprite(_)) => true,
            PaintOperation::Primitive(_) => false,
        } by {
            assert(is_text_paint(operations[i]));
        }
    }
}

/// What becomes a primitive stays as it is.
pub proof fn a_primitive_is_what_it_was_made_from(
    shadow: Shadow,
    quad: Quad,
    path: ScenePath,
    underline: Underline,
    glyph: MonochromeSprite,
    picture: PolychromeSprite,
    surface: PaintSurface,
    tile: RasterTile,
)
    ensures
        <Primitive as FromSpec<Shadow>>::from_spec(shadow) == Primitive::Shadow(shadow),
        <Primitive as FromSpec<Quad>>::from_spec(quad) == Primitive::Quad(quad),
        <Primitive as FromSpec<ScenePath>>::from_spec(path) == Primitive::Path(path),
        <Primitive as FromSpec<Underline>>::from_spec(underline) == Primitive::Underline(underline),
        <Primitive as FromSpec<MonochromeSprite>>::from_spec(glyph) == Primitive::MonochromeSprite(
            glyph,
        ),
        <Primitive as FromSpec<PolychromeSprite>>::from_spec(picture)
            == Primitive::PolychromeSprite(picture),
        <Primitive as FromSpec<PaintSurface>>::from_spec(surface) == Primitive::Surface(surface),
        <Primitive as FromSpec<RasterTile>>::from_spec(tile) == Primitive::RasterTile(tile),
{
}

} // verus!
