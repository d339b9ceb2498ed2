//! What the layers of the compositor are after they have followed the surfaces of a
//! scene.
use vstd::prelude::*;

use crate::compositor::{
    active_layers, is_active, layer_of, layer_of_finds, with_layer, with_layers,
    RasterCompositorLayer,
};
use crate::compositor_transform::RasterCompositorTransformHandle;
use crate::geometry::Rectangle;
use crate::residency_laws::filtered_comes_from;
use crate::scene::RasterCompositorSurface;

verus! {

/// Whether two rectangles have the same numbers.
pub open spec fn same_rectangle(a: Rectangle, b: Rectangle) -> bool {
    &&& a.origin.x.equals(b.origin.x)
    &&& a.origin.y.equals(b.origin.y)
    &&& a.size.width.equals(b.size.width)
    &&& a.size.height.equals(b.size.height)
}

/// Whether a surface shows the same part of the same capture as a layer: the captured
/// transform, the clip and the raster bounds each have the same numbers.
pub open spec fn shows_the_same(
    layer: RasterCompositorLayer,
    surface: RasterCompositorSurface,
) -> bool {
    &&& layer.captured_transform.scale.equals(surface.captured_transform.scale)
    &&& layer.captured_transform.translation.x.equals(surface.captured_transform.translation.x)
    &&& layer.captured_transform.translation.y.equals(surface.captured_transform.translation.y)
    &&& same_rectangle(layer.clip_bounds, surface.clip_bounds)
    &&& same_rectangle(layer.raster_bounds, surface.raster_bounds)
}

/// Whether no two layers have the same transform.
pub open spec fn layers_apart(layers: Seq<RasterCompositorLayer>) -> bool {
    forall|i: int, j: int|
        0 <= i < j < layers.len() ==> (#[trigger] layers[i]).compositor_id != (
        #[trigger] layers[j]).compositor_id
}

/// Whether no two surfaces have the same transform.
pub open spec fn surfaces_apart(surfaces: Seq<RasterCompositorSurface>) -> bool {
    forall|i: int, j: int|
        0 <= i < j < surfaces.len() ==> (#[trigger] surfaces[i]).compositor_id != (
        #[trigger] surfaces[j]).compositor_id
}

/// Whether a layer is what becomes of the layers before for a surface: it shows the
/// surface. What was applied to the layer of its transform stays applied where the surface
/// shows the same as before, else nothing is applied; what was seen of it stays seen.
/// Without such a layer nothing is applied and nothing was seen.
pub open spec fn follows(
    layer: RasterCompositorLayer,
    before: Seq<RasterCompositorLayer>,
    surface: RasterCompositorSurface,
) -> bool {
    &&& layer.compositor_id == surface.compositor_id
    &&& layer.captured_transform == surface.captured_transform
    &&& layer.clip_bounds == surface.clip_bounds
    &&& layer.raster_bounds == surface.raster_bounds
    &&& forall|i: int|
        0 <= i < before.len() && (#[trigger] before[i]).compositor_id == surface.compositor_id
            ==> {
            &&& shows_the_same(before[i], surface) ==> layer.last_applied == before[i].last_applied
            &&& !shows_the_same(before[i], surface) ==> layer.last_applied is None
            &&& layer.last_presented_revision == before[i].last_presented_revision
        }
    &&& (forall|i: int|
        0 <= i < before.len() ==> (#[trigger] before[i]).compositor_id != surface.compositor_id)
        ==> layer.last_applied is None && layer.last_presented_revision is None
}

/// How far the layers have followed: those of the first `n` surfaces have, the others are
/// as they were.
spec fn followed(
    layers: Seq<RasterCompositorLayer>,
    before: Seq<RasterCompositorLayer>,
    surfaces: Seq<RasterCompositorSurface>,
    n: int,
) -> bool {
    &&& layers_apart(layers)
    &&& forall|s: int, k: int|
        0 <= s < n && 0 <= k < layers.len() && (#[trigger] surfaces[s]).compositor_id == (
        #[trigger] layers[k]).compositor_id ==> follows(layers[k], before, surfaces[s])
    &&& forall|k: int|
        0 <= k < layers.len() && !is_active(surfaces.take(n), (#[trigger] layers[k]).compositor_id)
            ==> before.contains(layers[k])
    &&& forall|k: int|
        0 <= k < layers.len() ==> is_active(surfaces, (#[trigger] layers[k]).compositor_id)
    &&& forall|i: int|
        0 <= i < before.len() && is_active(surfaces, (#[trigger] before[i]).compositor_id)
            ==> layer_of(layers, before[i].compositor_id) >= 0
    &&& forall|s: int| 0 <= s < n ==> layer_of(layers, (#[trigger] surfaces[s]).compositor_id) >= 0
}

proof fn filtering_keeps_apart(
    layers: Seq<RasterCompositorLayer>,
    keeps: spec_fn(RasterCompositorLayer) -> bool,
)
    requires
        layers_apart(layers),
    ensures
        layers_apart(layers.filter(keeps)),
        forall|i: int|
            0 <= i < layers.len() && keeps(#[trigger] layers[i]) ==> layers.filter(
                keeps,
            ).contains(layers[i]),
    decreases layers.len(),
{
    reveal(Seq::filter);
    if layers.len() > 0 {
        let rest = layers.drop_last();
        let last = layers.len() - 1;
        assert(layers_apart(rest)) by {
            assert forall|i: int, j: int| 0 <= i < j < rest.len() implies (
            #[trigger] rest[i]).compositor_id != (#[trigger] rest[j]).compositor_id by {
                assert(rest[i] == layers[i] && rest[j] == layers[j]);
            }
        }
        filtering_keeps_apart(rest, keeps);
        let before = rest.filter(keeps);
        let after = layers.filter(keeps);
        if keeps(layers[last]) {
            assert(after == before.push(layers[last]));
            assert forall|i: int, j: int| 0 <= i < j < after.len() implies (
            #[trigger] after[i]).compositor_id != (#[trigger] after[j]).compositor_id by {
                if j == before.len() {
                    let k = filtered_comes_from(rest, keeps, i);
                    assert(rest[k] == layers[k]);
                    assert(layers[k].compositor_id != layers[last].compositor_id);
                } else {
                    assert(before[i].compositor_id != before[j].compositor_id);
                }
            }
        }
        assert forall|i: int|
            0 <= i < layers.len() && keeps(#[trigger] layers[i]) implies after.contains(
            layers[i],
        ) by {
            if i < last {
                assert(rest[i] == layers[i]);
                let k = choose|k: int| 0 <= k < before.len() && before[k] == rest[i];
                assert(after[k] == layers[i]);
            } else {
                assert(after[before.len() as int] == layers[last]);
            }
        }
    }
}

proof fn a_place_is_found(layers: Seq<RasterCompositorLayer>, k: int)
    requires
        layers_apart(layers),
        0 <= k < layers.len(),
    ensures
        layer_of(layers, layers[k].compositor_id) == k,
{
    layer_of_finds(layers, layers[k].compositor_id);
    let found = layer_of(layers, layers[k].compositor_id);
    if found < 0 {
        assert(layers[k].compositor_id != layers[k].compositor_id);
    } else if found < k {
        assert(layers[found].compositor_id != layers[k].compositor_id);
    } else if found > k {
        assert(layers[k].compositor_id != layers[found].compositor_id);
    }
}

proof fn starting_to_follow(
    before: Seq<RasterCompositorLayer>,
    surfaces: Seq<RasterCompositorSurface>,
)
    requires
        layers_apart(before),
    ensures
        followed(active_layers(before, surfaces), before, surfaces, 0),
{
    let keeps = |layer: RasterCompositorLayer| is_active(surfaces, layer.compositor_id);
    let layers = active_layers(before, surfaces);
    filtering_keeps_apart(before, keeps);
    assert forall|k: int| 0 <= k < layers.len() implies is_active(
        surfaces,
        (#[trigger] layers[k]).compositor_id,
    ) && before.contains(layers[k]) by {
        let i = filtered_comes_from(before, keeps, k);
        assert(before[i] == layers[k]);
    }
    assert forall|i: int|
        0 <= i < before.len() && is_active(
            surfaces,
            (#[trigger] before[i]).compositor_id,
        ) implies layer_of(layers, before[i].compositor_id) >= 0 by {
        assert(keeps(before[i]));
        let k = choose|k: int| 0 <= k < layers.len() && layers[k] == before[i];
        a_place_is_found(layers, k);
    }
}

proof fn following_one_more(
    layers: Seq<RasterCompositorLayer>,
    before: Seq<RasterCompositorLayer>,
    surfaces: Seq<RasterCompositorSurface>,
    n: int,
)
    requires
        layers_apart(before),
        surfaces_apart(surfaces),
        0 <= n < surfaces.len(),
        followed(layers, before, surfaces, n),
    ensures
        followed(with_layer(layers, surfaces[n]), before, surfaces, n + 1),
{
    let surface = surfaces[n];
    let id = surface.compositor_id;
    let place = layer_of(layers, id);
    let after = with_layer(layers, surface);
    layer_of_finds(layers, id);
    assert(is_active(surfaces, id)) by {
        assert(surfaces[n].compositor_id == id);
    }
    assert(!is_active(surfaces.take(n), id)) by {
        if is_active(surfaces.take(n), id) {
            let s = choose|s: int|
                0 <= s < surfaces.take(n).len() && (
                #[trigger] surfaces.take(n)[s]).compositor_id == id;
            assert(surfaces[s].compositor_id != surfaces[n].compositor_id);
        }
    }
    let at = if place < 0 {
        layers.len() as int
    } else {
        place
    };
    // The layer of the surface is either new or the one that there was before.
    if place >= 0 {
        assert(before.contains(layers[place]));
        let i = choose|i: int| 0 <= i < before.len() && before[i] == layers[place];
        assert(before[i].compositor_id == id);
        assert forall|o: int| 0 <= o < before.len() && (#[trigger] before[o]).compositor_id
            == id implies o == i by {
            if o < i {
                assert(before[o].compositor_id != before[i].compositor_id);
            } else if o > i {
                assert(before[i].compositor_id != before[o].compositor_id);
            }
        }
        assert(follows(after[at], before, surface));
    } else {
        assert forall|i: int| 0 <= i < before.len() implies (
        #[trigger] before[i]).compositor_id != id by {
            if before[i].compositor_id == id {
                assert(is_active(surfaces, before[i].compositor_id));
                assert(layer_of(layers, before[i].compositor_id) >= 0);
            }
        }
        assert(follows(after[at], before, surface));
    }
    assert forall|k: int| 0 <= k < after.len() && k != at implies #[trigger] after[k]
        == layers[k] by {}
    assert(layers_apart(after)) by {
        assert forall|i: int, j: int| 0 <= i < j < after.len() implies (
        #[trigger] after[i]).compositor_id != (#[trigger] after[j]).compositor_id by {
            if place < 0 && j == at {
                assert(layers[i].compositor_id != id);
            } else {
                assert(layers[i].compositor_id != layers[j].compositor_id);
            }
        }
    }
    assert forall|s: int, k: int|
        0 <= s < n + 1 && 0 <= k < after.len() && (#[trigger] surfaces[s]).compositor_id == (
        #[trigger] after[k]).compositor_id implies follows(after[k], before, surfaces[s]) by {
        if s < n {
            assert(surfaces[s].compositor_id != surfaces[n].compositor_id);
            assert(k != at);
            assert(after[k] == layers[k]);
            assert(follows(layers[k], before, surfaces[s]));
        } else if k != at {
            if k < at {
                assert(after[k].compositor_id != after[at].compositor_id);
            } else {
                assert(after[at].compositor_id != after[k].compositor_id);
            }
        }
    }
    assert forall|k: int|
        0 <= k < after.len() && !is_active(
            surfaces.take(n + 1),
            (#[trigger] after[k]).compositor_id,
        ) implies before.contains(after[k]) by {
        if k == at {
            assert(surfaces.take(n + 1)[n].compositor_id == id);
        } else {
            assert(after[k] == layers[k]);
            if is_active(surfaces.take(n), layers[k].compositor_id) {
                let s = choose|s: int|
                    0 <= s < surfaces.take(n).len() && (
                    #[trigger] surfaces.take(n)[s]).compositor_id == layers[k].compositor_id;
                assert(surfaces.take(n + 1)[s].compositor_id == after[k].compositor_id);
            }
        }
    }
    assert forall|k: int| 0 <= k < after.len() implies is_active(
        surfaces,
        (#[trigger] after[k]).compositor_id,
    ) by {
        if k != at {
            assert(after[k] == layers[k]);
        }
    }
    assert forall|other: u64| layer_of(layers, other) >= 0 implies #[trigger] layer_of(
        after,
        other,
    ) >= 0 by {
        layer_of_finds(layers, other);
        layer_of_finds(after, other);
        let k = layer_of(layers, other);
        assert(after[k].compositor_id == other);
    }
    assert(layer_of(after, id) >= 0) by {
        layer_of_finds(after, id);
        assert(after[at].compositor_id == id);
    }
}

proof fn following_all(
    before: Seq<RasterCompositorLayer>,
    surfaces: Seq<RasterCompositorSurface>,
    n: int,
)
    requires
        layers_apart(before),
        surfaces_apart(surfaces),
        0 <= n <= surfaces.len(),
    ensures
        followed(with_layers(active_layers(before, surfaces), surfaces, n), before, surfaces, n),
    decreases n,
{
    if n == 0 {
        starting_to_follow(before, surfaces);
    } else {
        following_all(before, surfaces, n - 1);
        following_one_more(
            with_layers(active_layers(before, surfaces), surfaces, n - 1),
            before,
            surfaces,
            n - 1,
        );
    }
}

/// The layers after they were synchronized with surfaces.
pub open spec fn synchronized(
    before: Seq<RasterCompositorLayer>,
    surfaces: Seq<RasterCompositorSurface>,
) -> Seq<RasterCompositorLayer> {
    with_layers(active_layers(before, surfaces), surfaces, surfaces.len() as int)
}

/// After synchronizing every surface has a layer that follows it, and no other layer has
/// its transform.
pub proof fn every_surface_is_followed(
    before: Seq<RasterCompositorLayer>,
    surfaces: Seq<RasterCompositorSurface>,
    s: int,
) -> (k: int)
    requires
        layers_apart(before),
        surfaces_apart(surfaces),
        0 <= s < surfaces.len(),
    ensures
        0 <= k < synchronized(before, surfaces).len(),
        follows(synchronized(before, surfaces)[k], before, surfaces[s]),
        layers_apart(synchronized(before, surfaces)),
{
    following_all(before, surfaces, surfaces.len() as int);
    let after = synchronized(before, surfaces);
    let id = surfaces[s].compositor_id;
    layer_of_finds(after, id);
    let k = layer_of(after, id);
    assert(after[k].compositor_id == id);
    k
}

/// After synchronizing every layer follows a surface.
pub proof fn every_layer_follows_a_surface(
    before: Seq<RasterCompositorLayer>,
    surfaces: Seq<RasterCompositorSurface>,
    k: int,
) -> (s: int)
    requires
        layers_apart(before),
        surfaces_apart(surfaces),
        0 <= k < synchronized(before, surfaces).len(),
    ensures
        0 <= s < surfaces.len(),
        follows(synchronized(before, surfaces)[k], before, surfaces[s]),
{
    following_all(before, surfaces, surfaces.len() as int);
    let after = synchronized(before, surfaces);
    assert(is_active(surfaces, after[k].compositor_id));
    let s = choose|s: int|
        0 <= s < surfaces.len() && (#[trigger] surfaces[s]).compositor_id
            == after[k].compositor_id;
    assert(surfaces[s].compositor_id == after[k].compositor_id);
    s
}

/// After synchronizing a layer has something applied only if its transform had a layer
/// before, with the same applied to it, whose captured transform, clip and raster bounds
/// each have the same numbers as those of the surface that it shows now.
pub proof fn what_stays_applied_was_applied_to_the_same(
    before: Seq<RasterCompositorLayer>,
    surfaces: Seq<RasterCompositorSurface>,
    k: int,
) -> (places: (int, int))
    requires
        layers_apart(before),
        surfaces_apart(surfaces),
        0 <= k < synchronized(before, surfaces).len(),
        synchronized(before, surfaces)[k].last_applied is Some,
    ensures
        ({
            let (i, s) = places;
            let layer = synchronized(before, surfaces)[k];
            &&& 0 <= i < before.len()
            &&& 0 <= s < surfaces.len()
            &&& before[i].compositor_id == layer.compositor_id
            &&& surfaces[s].compositor_id == layer.compositor_id
            &&& before[i].last_applied == layer.last_applied
            &&& shows_the_same(before[i], surfaces[s])
        }),
{
    let s = every_layer_follows_a_surface(before, surfaces, k);
    let i = if exists|i: int|
        0 <= i < before.len() && (#[trigger] before[i]).compositor_id == surfaces[s].compositor_id {
        choose|i: int|
            0 <= i < before.len() && (#[trigger] before[i]).compositor_id
                == surfaces[s].compositor_id
    } else {
        0
    };
    (i, s)
}

/// What is to be observed and to be applied: a layer waits to be seen exactly where
/// something was applied to it that is not what was last seen, and lacks every revision
/// but the one applied.
pub proof fn a_layer_waits_for_what_was_applied(layer: RasterCompositorLayer, revision: u64)
    ensures
        layer.last_applied is None ==> !layer.awaits_presentation() && layer.lacks(revision),
        layer.last_applied matches Some(applied) ==> {
            &&& layer.awaits_presentation() <==> (layer.last_presented_revision is None
                || layer.last_presented_revision->0 != applied.revision)
            &&& layer.lacks(revision) <==> applied.revision != revision
        },
{
}

/// Two handles of transforms are equal exactly where they have the same identifier, whatever
/// the transforms are.
pub proof fn handles_are_equal_by_identifier(
    a: RasterCompositorTransformHandle,
    b: RasterCompositorTransformHandle,
)
    ensures
        vstd::std_specs::cmp::PartialEqSpec::eq_spec(&a, &b) <==> a.id == b.id,
{
}

/// A surface takes over the layer of its transform, or gets a new one; all other layers stay
/// as they were. The place of its layer is handed back.
pub proof fn a_surface_takes_over_its_layer(
    layers: Seq<RasterCompositorLayer>,
    surface: RasterCompositorSurface,
) -> (k: int)
    requires
        layers_apart(layers),
    ensures
        ({
            let after = with_layer(layers, surface);
            &&& 0 <= k < after.len()
            &&& follows(after[k], layers, surface)
            &&& layers_apart(after)
            &&& layers.len() <= after.len() <= layers.len() + 1
            &&& forall|i: int|
                0 <= i < layers.len() && i != k ==> #[trigger] after[i] == layers[i]
            &&& after.len() == layers.len() + 1 ==> k == layers.len()
        }),
{
    let after = with_layer(layers, surface);
    let i = layer_of(layers, surface.compositor_id);
    layer_of_finds(layers, surface.compositor_id);
    let k = if i < 0 {
        layers.len() as int
    } else {
        i
    };
    assert forall|a: int, b: int| 0 <= a < b < after.len() implies (
    #[trigger] after[a]).compositor_id != (#[trigger] after[b]).compositor_id by {
        if b < layers.len() {
            assert(layers[a].compositor_id != layers[b].compositor_id);
        }
    }
    assert forall|j: int|
        0 <= j < layers.len() && (#[trigger] layers[j]).compositor_id
            == surface.compositor_id implies j == i by {
        if j < i {
            assert(layers[j].compositor_id != layers[i].compositor_id);
        } else if i < j {
            assert(layers[i].compositor_id != layers[j].compositor_id);
        }
    }
    k
}

/// Surfaces take over their layers one after the other.
pub proof fn surfaces_take_over_one_by_one(
    layers: Seq<RasterCompositorLayer>,
    surfaces: Seq<RasterCompositorSurface>,
    n: int,
)
    requires
        0 <= n < surfaces.len(),
    ensures
        with_layers(layers, surfaces, 0) == layers,
        with_layers(layers, surfaces, n + 1) == with_layer(
            with_layers(layers, surfaces, n),
            surfaces[n],
        ),
{
}

} // verus!
