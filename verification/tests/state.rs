use std::collections::HashMap;

use render_wasm::paint::{ElementDraw, ShapeKind};
use render_wasm::state::{CachedSurfaceImage, Navigation, RenderState};
use render_wasm::tree::{RenderStep, ShapeNode};

fn leaf() -> ShapeNode {
    ShapeNode {
        children: vec![],
        hidden: false,
        recursive: false,
        clip: false,
        inside_viewbox: true,
        intersects_viewbox: true,
    }
}

#[test]
fn new_state_has_no_cache() {
    let state: RenderState<u32> = RenderState::new();
    assert!(state.cached_surface_image.is_none());
    assert_eq!(state.debug_flags(), 0);
    assert_eq!(state.background_color(), 0);
    assert_eq!(state.zoom(true), Navigation::Unchanged);
    assert_eq!(state.zoom(false), Navigation::Unchanged);
    assert_eq!(state.pan(), Navigation::Unchanged);
}

#[test]
fn render_from_cache_fails_without_cache() {
    let state: RenderState<u32> = RenderState::new();
    match state.render_all_from_cache() {
        Err(message) => assert_eq!(message, "Uninitialized cached surface image"),
        Ok(_) => panic!("no image was cached"),
    }
}

#[test]
fn incomplete_cache_is_redrawn_unless_it_covers_the_zoom() {
    let mut state: RenderState<u32> = RenderState::new();
    state.cache_surface_image(7, false);
    assert_eq!(state.zoom(false), Navigation::RenderAll);
    assert_eq!(state.zoom(true), Navigation::RenderFromCache);
    assert_eq!(state.pan(), Navigation::RenderAll);
    assert_eq!(state.render_all_from_cache().unwrap().snapshot, 7);
}

#[test]
fn complete_cache_is_always_reused() {
    let mut state: RenderState<u32> = RenderState::new();
    state.cache_surface_image(1, true);
    assert_eq!(state.zoom(false), Navigation::RenderFromCache);
    assert_eq!(state.zoom(true), Navigation::RenderFromCache);
    assert_eq!(state.pan(), Navigation::RenderFromCache);
}

#[test]
fn dirtiness_of_a_cached_image() {
    let cache = CachedSurfaceImage::new((), false);
    assert!(cache.is_dirty_for_zooming(false));
    assert!(!cache.is_dirty_for_zooming(true));
    assert!(cache.is_dirty_for_panning());
    let full = CachedSurfaceImage::new((), true);
    assert!(full.has_all_shapes());
    assert!(!full.is_dirty_for_zooming(false));
    assert!(!full.is_dirty_for_panning());
}

#[test]
fn zoom_dirty_implies_pan_dirty() {
    for all in [false, true] {
        for contains in [false, true] {
            let cache = CachedSurfaceImage::new(0u8, all);
            if cache.is_dirty_for_zooming(contains) {
                assert!(cache.is_dirty_for_panning());
            }
        }
    }
}

#[test]
fn render_all_asks_for_a_snapshot_when_needed() {
    let mut tree = HashMap::new();
    tree.insert(0u128, ShapeNode { children: vec![1], recursive: true, ..leaf() });
    tree.insert(1u128, leaf());
    let mut state: RenderState<u32> = RenderState::new();
    let first = state.render_all(&tree, false).unwrap();
    assert!(first.cache_snapshot);
    assert!(first.shapes.is_complete);
    assert_eq!(first.shapes.steps[0], RenderStep::OpenLayer { id: 0 });
    state.cache_surface_image(11, first.shapes.is_complete);
    let second = state.render_all(&tree, false).unwrap();
    assert!(!second.cache_snapshot);
    let third = state.render_all(&tree, true).unwrap();
    assert!(third.cache_snapshot);
}

#[test]
fn render_all_of_a_cyclic_tree_gives_no_plan() {
    let mut tree = HashMap::new();
    tree.insert(0u128, ShapeNode { children: vec![0], recursive: true, ..leaf() });
    let state: RenderState<u32> = RenderState::new();
    assert!(state.render_all(&tree, true).is_none());
}

#[test]
fn full_render_then_navigation_uses_the_cache() {
    let mut tree = HashMap::new();
    tree.insert(0u128, ShapeNode { children: vec![1], recursive: true, ..leaf() });
    tree.insert(1u128, leaf());
    let mut state: RenderState<u32> = RenderState::new();
    let plan = state.render_all(&tree, true).unwrap();
    if plan.cache_snapshot {
        state.cache_surface_image(5, plan.shapes.is_complete);
    }
    assert!(state.render_all_from_cache().is_ok());
    assert_eq!(state.zoom(false), Navigation::RenderFromCache);
    assert_eq!(state.pan(), Navigation::RenderFromCache);
}

#[test]
fn setters_keep_the_cache() {
    let mut state: RenderState<u32> = RenderState::new();
    state.cache_surface_image(3, false);
    state.set_debug_flags(0x11);
    state.set_background_color(0xff10_2030);
    assert_eq!(state.debug_flags(), 0x11);
    assert_eq!(state.background_color(), 0xff10_2030);
    assert_eq!(state.render_all_from_cache().unwrap().snapshot, 3);
}

#[test]
fn single_element_drawing() {
    let state: RenderState<()> = RenderState::new();
    assert_eq!(state.render_single_element(ShapeKind::SVGRaw, true), ElementDraw::CachedSvg);
    assert_eq!(state.render_single_element(ShapeKind::SVGRaw, false), ElementDraw::ParseSvg);
    assert_eq!(
        state.render_single_element(ShapeKind::Circle, true),
        ElementDraw::FillsAndStrokes
    );
    assert_eq!(
        state.render_single_element(ShapeKind::Rect { rounded: true }, false),
        ElementDraw::FillsAndStrokes
    );
}
