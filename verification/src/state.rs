//! The render state: the cached surface image that navigation (zoom, pan)
//! reuses, the debug flags and the background color, and the decisions of
//! when a full render is needed.

use std::collections::HashMap;
use vstd::prelude::*;

use crate::ids::nil_shape_id;
use crate::paint::{ElementDraw, ShapeKind};
use crate::tree::{render_shape_tree, shape_tree_plan, ShapeNode, ShapeTreePlan};

verus! {

/// A snapshot of the final surface, taken after a full render, with the
/// viewbox it was taken at (both in `snapshot`) and whether every shape that
/// the render reached was inside that viewbox.
pub struct CachedSurfaceImage<S> {
    pub snapshot: S,
    pub has_all_shapes: bool,
}

impl<S> CachedSurfaceImage<S> {
    /// The snapshot must be redrawn before showing a zoomed viewbox.
    pub open spec fn dirty_for_zooming(&self, cached_area_contains_viewbox: bool) -> bool {
        !self.has_all_shapes && !cached_area_contains_viewbox
    }

    /// The snapshot must be redrawn before showing a panned viewbox.
    pub open spec fn dirty_for_panning(&self) -> bool {
        !self.has_all_shapes
    }

    pub fn new(snapshot: S, has_all_shapes: bool) -> (cache: Self)
        ensures
            cache.snapshot == snapshot,
            cache.has_all_shapes == has_all_shapes,
    {
        CachedSurfaceImage { snapshot, has_all_shapes }
    }

    pub fn has_all_shapes(&self) -> (all: bool)
        ensures
            all == self.has_all_shapes,
    {
        self.has_all_shapes
    }

    /// Whether the cached image must be rendered anew for a zoomed viewbox:
    /// it misses shapes and its viewbox area does not contain the new one
    /// (`cached_area_contains_viewbox`, computed by the caller).
    pub fn is_dirty_for_zooming(&self, cached_area_contains_viewbox: bool) -> (dirty: bool)
        ensures
            dirty == self.dirty_for_zooming(cached_area_contains_viewbox),
    {
        !self.has_all_shapes && !cached_area_contains_viewbox
    }

    /// Whether the cached image must be rendered anew for a panned viewbox:
    /// it misses shapes.
    pub fn is_dirty_for_panning(&self) -> (dirty: bool)
        ensures
            dirty == self.dirty_for_panning(),
    {
        !self.has_all_shapes
    }
}

/// What navigating to a new viewbox requires.
#[derive(Clone, Copy, Debug, PartialEq, Eq, Structural)]
pub enum Navigation {
    /// There is no cached image yet: nothing is drawn.
    Unchanged,
    /// Render the whole tree anew and cache the result.
    RenderAll,
    /// Draw the cached image, moved and scaled to the new viewbox.
    RenderFromCache,
}

/// The plan of a full render.
pub struct RenderAllPlan {
    /// The traversal of the tree from the root frame.
    pub shapes: ShapeTreePlan,
    /// A snapshot of the final surface must be cached after the traversal.
    pub cache_snapshot: bool,
}

/// The part of the render state that decides what is drawn; the surfaces
/// and the viewbox stay with the caller.
pub struct RenderState<S> {
    pub cached_surface_image: Option<CachedSurfaceImage<S>>,
    pub debug_flags: u32,
    /// The background color as a 32-bit ARGB value.
    pub background_color: u32,
}

/// The message of the error returned when no image has been cached yet.
pub open spec fn uninitialized_cache_message() -> Seq<char> {
    "Uninitialized cached surface image"@
}

impl<S> RenderState<S> {
    pub open spec fn zoom_navigation(&self, cached_area_contains_viewbox: bool) -> Navigation {
        match self.cached_surface_image {
            None => Navigation::Unchanged,
            Some(cache) => if cache.dirty_for_zooming(cached_area_contains_viewbox) {
                Navigation::RenderAll
            } else {
                Navigation::RenderFromCache
            },
        }
    }

    pub open spec fn pan_navigation(&self) -> Navigation {
        match self.cached_surface_image {
            None => Navigation::Unchanged,
            Some(cache) => if cache.dirty_for_panning() {
                Navigation::RenderAll
            } else {
                Navigation::RenderFromCache
            },
        }
    }

    /// The cached image after a full render whose traversal reached
    /// `has_all_shapes`, with `snapshot` taken when the plan asked for it.
    pub open spec fn cache_after_render_all(
        &self,
        generate_cached_surface_image: bool,
        snapshot: S,
        has_all_shapes: bool,
    ) -> Option<CachedSurfaceImage<S>> {
        if generate_cached_surface_image || self.cached_surface_image is None {
            Some(CachedSurfaceImage { snapshot, has_all_shapes })
        } else {
            self.cached_surface_image
        }
    }

    /// A state with no cached image, no debug flags and a fully transparent
    /// background (ARGB value 0).
    pub fn new() -> (state: Self)
        ensures
            state.cached_surface_image is None,
            state.debug_flags == 0,
            state.background_color == 0,
    {
        RenderState { cached_surface_image: None, debug_flags: 0, background_color: 0 }
    }

    pub fn set_debug_flags(&mut self, debug: u32)
        ensures
            final(self).debug_flags == debug,
            final(self).background_color == old(self).background_color,
            final(self).cached_surface_image == old(self).cached_surface_image,
    {
        self.debug_flags = debug;
    }

    pub fn debug_flags(&self) -> (flags: u32)
        ensures
            flags == self.debug_flags,
    {
        self.debug_flags
    }

    /// Sets the background color; the caller then redraws from the cache.
    pub fn set_background_color(&mut self, color: u32)
        ensures
            final(self).background_color == color,
            final(self).debug_flags == old(self).debug_flags,
            final(self).cached_surface_image == old(self).cached_surface_image,
    {
        self.background_color = color;
    }

    pub fn background_color(&self) -> (color: u32)
        ensures
            color == self.background_color,
    {
        self.background_color
    }

    /// What a zoom requires; `cached_area_contains_viewbox` tells whether the
    /// viewbox area of the cached image contains the new viewbox area.
    pub fn zoom(&self, cached_area_contains_viewbox: bool) -> (navigation: Navigation)
        ensures
            navigation == self.zoom_navigation(cached_area_contains_viewbox),
    {
        match &self.cached_surface_image {
            None => Navigation::Unchanged,
            Some(cache) => {
                if cache.is_dirty_for_zooming(cached_area_contains_viewbox) {
                    Navigation::RenderAll
                } else {
                    Navigation::RenderFromCache
                }
            },
        }
    }

    /// What a pan requires.
    pub fn pan(&self) -> (navigation: Navigation)
        ensures
            navigation == self.pan_navigation(),
    {
        match &self.cached_surface_image {
            None => Navigation::Unchanged,
            Some(cache) => {
                if cache.is_dirty_for_panning() {
                    Navigation::RenderAll
                } else {
                    Navigation::RenderFromCache
                }
            },
        }
    }

    /// What drawing a single shape does: raw SVG is rendered from the
    /// document parsed earlier when there is one, and parsed otherwise; every
    /// other kind of shape is drawn through its fills and strokes.
    pub fn render_single_element(&self, kind: ShapeKind, has_cached_svg: bool) -> (draw:
        ElementDraw)
        ensures
            draw == (if kind is SVGRaw {
                if has_cached_svg {
                    ElementDraw::CachedSvg
                } else {
                    ElementDraw::ParseSvg
                }
            } else {
                ElementDraw::FillsAndStrokes
            }),
    {
        match kind {
            ShapeKind::SVGRaw => {
                if has_cached_svg {
                    ElementDraw::CachedSvg
                } else {
                    ElementDraw::ParseSvg
                }
            },
            _ => ElementDraw::FillsAndStrokes,
        }
    }

    /// Plans a full render of `tree` from the root frame (the nil id). The
    /// final surface is to be cached afterwards when a new cache is asked for
    /// or none exists yet. `None` when the traversal of the tree never ends.
    pub fn render_all(&self, tree: &HashMap<u128, ShapeNode>, generate_cached_surface_image: bool) -> (plan:
        Option<RenderAllPlan>)
        ensures
            match shape_tree_plan(tree@, 0) {
                Some(p) => plan matches Some(q) && q.shapes.is_complete == p.0 && q.shapes.steps@
                    == p.1 && q.cache_snapshot == (generate_cached_surface_image
                    || self.cached_surface_image is None),
                None => plan is None,
            },
    {
        let root = nil_shape_id();
        match render_shape_tree(root, tree) {
            Some(shapes) => {
                let cache_snapshot = generate_cached_surface_image
                    || self.cached_surface_image.is_none();
                Some(RenderAllPlan { shapes, cache_snapshot })
            },
            None => None,
        }
    }

    /// Caches `snapshot`, taken after a render whose traversal was complete
    /// when `has_all_shapes`.
    pub fn cache_surface_image(&mut self, snapshot: S, has_all_shapes: bool)
        ensures
            old(self).cache_after_render_all(true, snapshot, has_all_shapes)
                == final(self).cached_surface_image,
            final(self).cached_surface_image == Some(
                CachedSurfaceImage::<S> { snapshot, has_all_shapes },
            ),
            final(self).debug_flags == old(self).debug_flags,
            final(self).background_color == old(self).background_color,
    {
        self.cached_surface_image = Some(CachedSurfaceImage::new(snapshot, has_all_shapes));
    }

    /// The cached image to draw when rendering from the cache, or the error
    /// "Uninitialized cached surface image" when none has been cached yet.
    pub fn render_all_from_cache(&self) -> (cached: Result<&CachedSurfaceImage<S>, String>)
        ensures
            cached is Ok <==> self.cached_surface_image is Some,
            cached matches Ok(c) ==> self.cached_surface_image == Some(*c),
            cached matches Err(message) ==> message@ == uninitialized_cache_message(),
    {
        match &self.cached_surface_image {
            Some(cache) => Ok(cache),
            None => {
                let message = "Uninitialized cached surface image".to_owned();
                proof {
                    reveal_strlit("Uninitialized cached surface image");
                }
                Err(message)
            },
        }
    }
}

/// A cached image is only ever dirty for zooming when it is dirty for
/// panning too: zooming re-renders in fewer cases than panning.
pub proof fn lemma_zoom_dirty_implies_pan_dirty<S>(
    cache: CachedSurfaceImage<S>,
    cached_area_contains_viewbox: bool,
)
    ensures
        cache.dirty_for_zooming(cached_area_contains_viewbox) ==> cache.dirty_for_panning(),
{
}

/// Without a cached image, zooming and panning draw nothing.
pub proof fn lemma_no_cache_no_navigation<S>(state: RenderState<S>, cached_area_contains_viewbox: bool)
    requires
        state.cached_surface_image is None,
    ensures
        state.zoom_navigation(cached_area_contains_viewbox) == Navigation::Unchanged,
        state.pan_navigation() == Navigation::Unchanged,
{
}

/// A cached image that holds every shape it reached is reused by every
/// zoom and every pan, whatever the new viewbox.
pub proof fn lemma_complete_cache_is_reused<S>(state: RenderState<S>, cached_area_contains_viewbox: bool)
    requires
        state.cached_surface_image matches Some(cache) && cache.has_all_shapes,
    ensures
        state.zoom_navigation(cached_area_contains_viewbox) == Navigation::RenderFromCache,
        state.pan_navigation() == Navigation::RenderFromCache,
{
}

/// After a full render whose snapshot is cached as its plan asks, an image
/// is cached, so rendering from the cache succeeds and navigation always
/// draws; a render that asked for a new cache records its own completeness,
/// and when that render was complete every later zoom and pan reuses it.
pub proof fn lemma_render_all_leaves_cache<S>(
    state: RenderState<S>,
    generate_cached_surface_image: bool,
    snapshot: S,
    has_all_shapes: bool,
    cached_area_contains_viewbox: bool,
)
    ensures
        ({
            let after = RenderState::<S> {
                cached_surface_image: state.cache_after_render_all(
                    generate_cached_surface_image,
                    snapshot,
                    has_all_shapes,
                ),
                ..state
            };
            &&& after.cached_surface_image is Some
            &&& after.zoom_navigation(cached_area_contains_viewbox) != Navigation::Unchanged
            &&& after.pan_navigation() != Navigation::Unchanged
            &&& generate_cached_surface_image ==> after.cached_surface_image == Some(
                CachedSurfaceImage::<S> { snapshot, has_all_shapes },
            )
            &&& generate_cached_surface_image && has_all_shapes ==> after.zoom_navigation(
                cached_area_contains_viewbox,
            ) == Navigation::RenderFromCache && after.pan_navigation()
                == Navigation::RenderFromCache
        }),
{
}

/// Navigation decisions: without a cached image, zooming and panning draw
/// nothing. With one, a zoom renders everything anew exactly when the cached
/// image misses shapes and its viewbox area does not contain the new one,
/// and draws from the cache otherwise; a pan renders everything anew exactly
/// when the cached image misses shapes, and draws from the cache otherwise.
pub proof fn lemma_navigation<S>(state: RenderState<S>, cached_area_contains_viewbox: bool)
    ensures
        state.cached_surface_image is None ==> state.zoom_navigation(cached_area_contains_viewbox)
            == Navigation::Unchanged && state.pan_navigation() == Navigation::Unchanged,
        state.cached_surface_image matches Some(cache) ==> {
            &&& (state.zoom_navigation(cached_area_contains_viewbox) == Navigation::RenderAll <==> (
            !cache.has_all_shapes && !cached_area_contains_viewbox))
            &&& (state.zoom_navigation(cached_area_contains_viewbox) == Navigation::RenderFromCache
                <==> (cache.has_all_shapes || cached_area_contains_viewbox))
            &&& (state.pan_navigation() == Navigation::RenderAll <==> !cache.has_all_shapes)
            &&& (state.pan_navigation() == Navigation::RenderFromCache <==> cache.has_all_shapes)
        },
{
}

/// A cached image is dirty for zooming exactly when it misses shapes and its
/// viewbox area does not contain the new one, and dirty for panning exactly
/// when it misses shapes.
pub proof fn lemma_dirtiness<S>(cache: CachedSurfaceImage<S>, cached_area_contains_viewbox: bool)
    ensures
        cache.dirty_for_zooming(cached_area_contains_viewbox) <==> (!cache.has_all_shapes
            && !cached_area_contains_viewbox),
        cache.dirty_for_panning() <==> !cache.has_all_shapes,
{
}

/// After a full render the cached image is the new snapshot with the
/// render's completeness when a new cache was asked for or none existed, and
/// the previous one otherwise; rendering from a missing cache fails with
/// "Uninitialized cached surface image".
pub proof fn lemma_cache_after_render_all<S>(
    state: RenderState<S>,
    generate_cached_surface_image: bool,
    snapshot: S,
    has_all_shapes: bool,
)
    ensures
        (generate_cached_surface_image || state.cached_surface_image is None) ==> (
        state.cache_after_render_all(generate_cached_surface_image, snapshot, has_all_shapes) matches Some(
            cache,
        ) && cache.snapshot == snapshot && cache.has_all_shapes == has_all_shapes),
        !generate_cached_surface_image && state.cached_surface_image is Some
            ==> state.cache_after_render_all(generate_cached_surface_image, snapshot, has_all_shapes)
            == state.cached_surface_image,
        uninitialized_cache_message() == "Uninitialized cached surface image"@,
{
}

} // verus!
