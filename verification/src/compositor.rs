//! Layers that the compositor moves on its own: which layers there are, which
//! revision of their transform was applied, and which was seen on the screen.
use vstd::prelude::*;

use crate::compositor_transform::RasterCompositorTransform;
use crate::geometry::Rectangle;
use crate::raster_cache::RasterCompositorPresentationSample;
use crate::scene::{RasterCompositorSurface, Scene};
use crate::time::TimePoint;

verus! {

/// A transform that was applied to a layer.
#[derive(Clone, Copy, Debug, PartialEq, Eq, Structural)]
pub struct AppliedRasterCompositorTransform {
    pub revision: u64,
    pub updated_at: TimePoint,
}

/// A layer of the compositor.
#[derive(Clone, Copy, Debug)]
pub struct RasterCompositorLayer {
    pub compositor_id: u64,
    pub captured_transform: RasterCompositorTransform,
    pub clip_bounds: Rectangle,
    pub raster_bounds: Rectangle,
    pub last_applied: Option<AppliedRasterCompositorTransform>,
    pub last_presented_revision: Option<u64>,
}

impl RasterCompositorLayer {
    /// A layer for a surface, with nothing applied to it yet.
    pub open spec fn spec_new(surface: RasterCompositorSurface) -> RasterCompositorLayer {
        RasterCompositorLayer {
            compositor_id: surface.compositor_id,
            captured_transform: surface.captured_transform,
            clip_bounds: surface.clip_bounds,
            raster_bounds: surface.raster_bounds,
            last_applied: None,
            last_presented_revision: None,
        }
    }

    /// Whether the layer shows the same part of the same capture as a surface.
    pub open spec fn matches(self, surface: RasterCompositorSurface) -> bool {
        &&& self.captured_transform.same_numbers(surface.captured_transform)
        &&& self.clip_bounds.equals(surface.clip_bounds)
        &&& self.raster_bounds.equals(surface.raster_bounds)
    }

    /// The layer with a surface in it: where that shows something else, what was
    /// applied is to be applied anew.
    pub open spec fn with_surface(self, surface: RasterCompositorSurface) -> RasterCompositorLayer {
        RasterCompositorLayer {
            captured_transform: surface.captured_transform,
            clip_bounds: surface.clip_bounds,
            raster_bounds: surface.raster_bounds,
            last_applied: if self.matches(surface) {
                self.last_applied
            } else {
                None
            },
            ..self
        }
    }

    /// Whether something was applied that was not seen on the screen yet.
    pub open spec fn awaits_presentation(self) -> bool {
        self.last_applied is Some && self.last_presented_revision != Some(
            self.last_applied->0.revision,
        )
    }

    /// Whether something was applied that was not seen on the screen yet.
    pub fn needs_observation(&self) -> (needed: bool)
        ensures
            needed == self.awaits_presentation(),
    {
        match (self.last_applied, self.last_presented_revision) {
            (Some(applied), Some(revision)) => applied.revision != revision,
            (Some(_), None) => true,
            _ => false,
        }
    }

    /// Notes what is on the screen: where that is what was applied last, and it was
    /// not seen before, it is a sample.
    pub fn observe(&mut self, on_screen: bool, now: TimePoint) -> (sample: Option<
        RasterCompositorPresentationSample,
    >)
        ensures
            sample is Some <==> old(self).awaits_presentation() && on_screen,
            sample is Some ==> sample->0 == (RasterCompositorPresentationSample {
                compositor_id: old(self).compositor_id,
                revision: old(self).last_applied->0.revision,
                updated_at: old(self).last_applied->0.updated_at,
                presented_at: now,
            }),
            *final(self) == (RasterCompositorLayer {
                last_presented_revision: if sample is Some {
                    Some(old(self).last_applied->0.revision)
                } else {
                    old(self).last_presented_revision
                },
                ..*old(self)
            }),
    {
        if !self.needs_observation() || !on_screen {
            return None;
        }
        match self.last_applied {
            Some(applied) => {
                self.last_presented_revision = Some(applied.revision);
                Some(
                    RasterCompositorPresentationSample {
                        compositor_id: self.compositor_id,
                        revision: applied.revision,
                        updated_at: applied.updated_at,
                        presented_at: now,
                    },
                )
            },
            None => None,
        }
    }

    /// Whether a revision is still to be applied.
    pub open spec fn lacks(self, revision: u64) -> bool {
        !(self.last_applied matches Some(applied) && applied.revision == revision)
    }

    /// Whether a revision is still to be applied.
    pub fn needs_revision(&self, revision: u64) -> (needed: bool)
        ensures
            needed == self.lacks(revision),
    {
        match self.last_applied {
            Some(applied) => applied.revision != revision,
            None => true,
        }
    }

    /// Applies a revision, unless that was done, or the layer moved by it would no
    /// longer cover the part that it is clipped to. Returns whether it was applied
    /// now. Where the time of the update is not remembered any more, the present
    /// time stands for it.
    pub fn apply(
        &mut self,
        revision: u64,
        covers_clip: bool,
        updated_at: Option<TimePoint>,
        now: TimePoint,
    ) -> (applied: bool)
        ensures
            applied == (old(self).lacks(revision) && covers_clip),
            *final(self) == (RasterCompositorLayer {
                last_applied: if applied {
                    Some(
                        AppliedRasterCompositorTransform {
                            revision,
                            updated_at: if updated_at is Some {
                                updated_at->0
                            } else {
                                now
                            },
                        },
                    )
                } else {
                    old(self).last_applied
                },
                ..*old(self)
            }),
    {
        if !self.needs_revision(revision) || !covers_clip {
            return false;
        }
        let updated_at = match updated_at {
            Some(updated_at) => updated_at,
            None => now,
        };
        self.last_applied = Some(AppliedRasterCompositorTransform { revision, updated_at });
        true
    }
}

/// The place of the layer of a transform, or -1.
pub open spec fn layer_of(layers: Seq<RasterCompositorLayer>, compositor_id: u64) -> int
    decreases layers.len(),
{
    if layers.len() == 0 {
        -1
    } else if layers.last().compositor_id == compositor_id {
        layers.len() - 1
    } else {
        layer_of(layers.drop_last(), compositor_id)
    }
}

/// Whether a surface has the transform.
pub open spec fn is_active(surfaces: Seq<RasterCompositorSurface>, compositor_id: u64) -> bool {
    exists|i: int|
        0 <= i < surfaces.len() && (#[trigger] surfaces[i]).compositor_id == compositor_id
}

/// The layers with a surface in its own, a new one where it had none.
pub open spec fn with_layer(
    layers: Seq<RasterCompositorLayer>,
    surface: RasterCompositorSurface,
) -> Seq<RasterCompositorLayer> {
    let i = layer_of(layers, surface.compositor_id);
    if i < 0 {
        layers.push(RasterCompositorLayer::spec_new(surface).with_surface(surface))
    } else {
        layers.update(i, layers[i].with_surface(surface))
    }
}

/// The layers with the first `n` surfaces in their own.
pub open spec fn with_layers(
    layers: Seq<RasterCompositorLayer>,
    surfaces: Seq<RasterCompositorSurface>,
    n: int,
) -> Seq<RasterCompositorLayer>
    decreases n,
{
    if n <= 0 {
        layers
    } else {
        with_layer(with_layers(layers, surfaces, n - 1), surfaces[n - 1])
    }
}

/// The layers that still have a surface.
pub open spec fn active_layers(
    layers: Seq<RasterCompositorLayer>,
    surfaces: Seq<RasterCompositorSurface>,
) -> Seq<RasterCompositorLayer> {
    layers.filter(|layer: RasterCompositorLayer| is_active(surfaces, layer.compositor_id))
}

/// The layers of the compositor.
pub struct RasterCompositorLayers {
    pub layers: Vec<RasterCompositorLayer>,
}

impl RasterCompositorLayers {
    /// The layers.
    pub open spec fn view(&self) -> Seq<RasterCompositorLayer> {
        self.layers@
    }

    /// No layers.
    pub fn new() -> (layers: RasterCompositorLayers)
        ensures
            layers@ == Seq::<RasterCompositorLayer>::empty(),
    {
        RasterCompositorLayers { layers: Vec::new() }
    }

    /// The place of the layer of a transform.
    pub fn find(&self, compositor_id: u64) -> (place: Option<usize>)
        ensures
            place is Some <==> layer_of(self@, compositor_id) >= 0,
            place is Some ==> place->0 as int == layer_of(self@, compositor_id) && place->0
                < self@.len(),
    {
        let mut i: usize = self.layers.len();
        proof {
            assert(self.layers@.take(i as int) =~= self.layers@);
        }
        while i > 0
            invariant
                i <= self.layers@.len(),
                layer_of(self.layers@, compositor_id) == layer_of(
                    self.layers@.take(i as int),
                    compositor_id,
                ),
            decreases i,
        {
            i = i - 1;
            proof {
                let part = self.layers@.take(i + 1);
                assert(part.last() == self.layers@[i as int]);
                assert(part.drop_last() =~= self.layers@.take(i as int));
            }
            if self.layers[i].compositor_id == compositor_id {
                return Some(i);
            }
        }
        None
    }

    fn is_in(scene: &Scene, compositor_id: u64) -> (found: bool)
        ensures
            found == is_active(scene.raster_compositor_surfaces@, compositor_id),
    {
        let mut i: usize = 0;
        while i < scene.raster_compositor_surfaces.len()
            invariant
                i <= scene.raster_compositor_surfaces@.len(),
                forall|k: int|
                    0 <= k < i ==> (
                    #[trigger] scene.raster_compositor_surfaces@[k]).compositor_id
                        != compositor_id,
            decreases scene.raster_compositor_surfaces@.len() - i,
        {
            if scene.raster_compositor_surfaces[i].compositor_id == compositor_id {
                assert(scene.raster_compositor_surfaces@[i as int].compositor_id
                    == compositor_id);
                return true;
            }
            i = i + 1;
        }
        false
    }

    fn put(&mut self, surface: &RasterCompositorSurface)
        ensures
            final(self)@ == with_layer(old(self)@, *surface),
    {
        let place: usize = match self.find(surface.compositor_id) {
            Some(place) => place,
            None => {
                self.layers.push(
                    RasterCompositorLayer {
                        compositor_id: surface.compositor_id,
                        captured_transform: surface.captured_transform,
                        clip_bounds: surface.clip_bounds,
                        raster_bounds: surface.raster_bounds,
                        last_applied: None,
                        last_presented_revision: None,
                    },
                );
                self.layers.len() - 1
            },
        };
        let mut layer = self.layers[place];
        if !layer.captured_transform.is_same(surface.captured_transform) || !layer.clip_bounds.is_equal(
            surface.clip_bounds,
        ) || !layer.raster_bounds.is_equal(surface.raster_bounds) {
            layer.last_applied = None;
        }
        layer.captured_transform = surface.captured_transform;
        layer.clip_bounds = surface.clip_bounds;
        layer.raster_bounds = surface.raster_bounds;
        self.layers.set(place, layer);
        proof {
            let i = layer_of(old(self)@, surface.compositor_id);
            if i < 0 {
                assert(self@ =~= old(self)@.push(
                    RasterCompositorLayer::spec_new(*surface).with_surface(*surface),
                ));
            }
        }
    }

    /// Follows the surfaces of a scene: layers without a surface go, surfaces
    /// without a layer get one, and a layer whose surface has changed is to have its
    /// transform applied anew.
    pub fn synchronize(&mut self, scene: &Scene)
        ensures
            final(self)@ == with_layers(
                active_layers(old(self)@, scene.raster_compositor_surfaces@),
                scene.raster_compositor_surfaces@,
                scene.raster_compositor_surfaces@.len() as int,
            ),
    {
        let ghost surfaces = scene.raster_compositor_surfaces@;
        let ghost keeps = |layer: RasterCompositorLayer| is_active(
            surfaces,
            layer.compositor_id,
        );
        let mut kept: Vec<RasterCompositorLayer> = Vec::new();
        let mut i: usize = 0;
        while i < self.layers.len()
            invariant
                i <= self.layers@.len(),
                surfaces == scene.raster_compositor_surfaces@,
                keeps == (|layer: RasterCompositorLayer| is_active(
                    surfaces,
                    layer.compositor_id,
                )),
                kept@ == self.layers@.take(i as int).filter(keeps),
            decreases self.layers@.len() - i,
        {
            let layer = self.layers[i];
            proof {
                crate::residency::filter_one_more(self.layers@, keeps, i as int);
            }
            if Self::is_in(scene, layer.compositor_id) {
                kept.push(layer);
            }
            i = i + 1;
        }
        proof {
            assert(self.layers@.take(i as int) =~= self.layers@);
        }
        self.layers = kept;
        let ghost active = self@;
        let mut k: usize = 0;
        while k < scene.raster_compositor_surfaces.len()
            invariant
                surfaces == scene.raster_compositor_surfaces@,
                k <= surfaces.len(),
                self@ == with_layers(active, surfaces, k as int),
            decreases surfaces.len() - k,
        {
            self.put(&scene.raster_compositor_surfaces[k]);
            k = k + 1;
        }
    }
}

/// A surface that did not change keeps what was applied to its layer.
pub proof fn an_unchanged_surface_keeps_its_transform(
    layer: RasterCompositorLayer,
    surface: RasterCompositorSurface,
)
    requires
        layer.matches(surface),
    ensures
        layer.with_surface(surface).last_applied == layer.last_applied,
        layer.with_surface(surface).matches(surface),
{
}

/// The place of a layer is that of one with its transform, if there is one.
pub proof fn layer_of_finds(layers: Seq<RasterCompositorLayer>, compositor_id: u64)
    ensures
        -1 <= layer_of(layers, compositor_id) < layers.len(),
        layer_of(layers, compositor_id) >= 0 ==> layers[layer_of(
            layers,
            compositor_id,
        )].compositor_id == compositor_id,
        layer_of(layers, compositor_id) < 0 ==> forall|i: int|
            0 <= i < layers.len() ==> (#[trigger] layers[i]).compositor_id != compositor_id,
    decreases layers.len(),
{
    if layers.len() > 0 && layers.last().compositor_id != compositor_id {
        let rest = layers.drop_last();
        layer_of_finds(rest, compositor_id);
        if layer_of(rest, compositor_id) < 0 {
            assert forall|i: int| 0 <= i < layers.len() implies (
            #[trigger] layers[i]).compositor_id != compositor_id by {
                if i < rest.len() {
                    assert(rest[i].compositor_id != compositor_id);
                }
            }
        }
    }
}

/// After the layers were synchronized every surface of the scene has a layer.
pub proof fn every_surface_has_a_layer(
    layers: Seq<RasterCompositorLayer>,
    surfaces: Seq<RasterCompositorSurface>,
    n: int,
    i: int,
)
    requires
        0 <= i < n <= surfaces.len(),
    ensures
        layer_of(with_layers(layers, surfaces, n), surfaces[i].compositor_id) >= 0,
    decreases n,
{
    let before = with_layers(layers, surfaces, n - 1);
    let after = with_layers(layers, surfaces, n);
    let id = surfaces[i].compositor_id;
    let put = layer_of(before, surfaces[n - 1].compositor_id);
    layer_of_finds(before, surfaces[n - 1].compositor_id);
    layer_of_finds(before, id);
    layer_of_finds(after, id);
    if i == n - 1 {
        if put < 0 {
            assert(after[before.len() as int].compositor_id == id);
        } else {
            assert(after[put].compositor_id == id);
        }
    } else {
        every_surface_has_a_layer(layers, surfaces, n - 1, i);
        let k = layer_of(before, id);
        assert(after[k].compositor_id == id);
    }
}

} // verus!
