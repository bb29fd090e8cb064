use std::collections::HashMap;

use render_wasm::ids::{nil_shape_id, shape_id_is_nil};
use render_wasm::tree::{render_shape_tree, RenderStep, ShapeNode};

fn node(children: Vec<u128>, recursive: bool) -> ShapeNode {
    ShapeNode {
        children,
        hidden: false,
        recursive,
        clip: false,
        inside_viewbox: true,
        intersects_viewbox: true,
    }
}

fn depth_ok(steps: &[RenderStep]) -> bool {
    let mut depth: i64 = 0;
    for s in steps {
        match s {
            RenderStep::OpenLayer { .. } => depth += 1,
            RenderStep::CloseLayer => depth -= 1,
            _ => {}
        }
        if depth < 0 {
            return false;
        }
    }
    depth == 0
}

#[test]
fn root_frame_children_are_drawn_in_order() {
    let mut tree = HashMap::new();
    tree.insert(0u128, node(vec![1, 2], true));
    tree.insert(1u128, node(vec![], false));
    let mut clipped = node(vec![], false);
    clipped.clip = true;
    tree.insert(2u128, clipped);
    let plan = render_shape_tree(0, &tree).unwrap();
    assert!(plan.is_complete);
    assert_eq!(
        plan.steps,
        vec![
            RenderStep::OpenLayer { id: 0 },
            RenderStep::DebugElement { id: 1, intersected: true },
            RenderStep::OpenLayer { id: 1 },
            RenderStep::RenderElement { id: 1 },
            RenderStep::CloseLayer,
            RenderStep::DebugElement { id: 2, intersected: true },
            RenderStep::OpenLayer { id: 2 },
            RenderStep::RenderElement { id: 2 },
            RenderStep::ClipToBounds { id: 2 },
            RenderStep::CloseLayer,
            RenderStep::CloseLayer,
        ]
    );
}

#[test]
fn hidden_group_is_reported_but_not_drawn_nor_descended() {
    let mut tree = HashMap::new();
    tree.insert(0u128, node(vec![1], true));
    let mut group = node(vec![3], true);
    group.hidden = true;
    tree.insert(1u128, group);
    tree.insert(3u128, node(vec![], false));
    let plan = render_shape_tree(0, &tree).unwrap();
    assert!(plan.is_complete);
    assert_eq!(
        plan.steps,
        vec![
            RenderStep::OpenLayer { id: 0 },
            RenderStep::DebugElement { id: 1, intersected: false },
            RenderStep::CloseLayer,
        ]
    );
}

#[test]
fn shape_off_the_viewbox_is_only_reported() {
    let mut tree = HashMap::new();
    tree.insert(0u128, node(vec![4], true));
    let mut far = node(vec![], false);
    far.inside_viewbox = false;
    far.intersects_viewbox = false;
    tree.insert(4u128, far);
    let plan = render_shape_tree(0, &tree).unwrap();
    assert!(!plan.is_complete);
    assert_eq!(
        plan.steps,
        vec![
            RenderStep::OpenLayer { id: 0 },
            RenderStep::DebugElement { id: 4, intersected: false },
            RenderStep::CloseLayer,
        ]
    );
}

#[test]
fn shape_partly_inside_is_drawn_and_makes_the_plan_incomplete() {
    let mut tree = HashMap::new();
    tree.insert(0u128, node(vec![5], true));
    let mut partly = node(vec![], false);
    partly.inside_viewbox = false;
    tree.insert(5u128, partly);
    let plan = render_shape_tree(0, &tree).unwrap();
    assert!(!plan.is_complete);
    assert!(plan.steps.contains(&RenderStep::RenderElement { id: 5 }));
}

#[test]
fn missing_root_gives_an_incomplete_plan() {
    let tree: HashMap<u128, ShapeNode> = HashMap::new();
    let plan = render_shape_tree(0, &tree).unwrap();
    assert!(!plan.is_complete);
    assert_eq!(plan.steps, vec![RenderStep::Missing { id: 0 }]);
}

#[test]
fn missing_child_makes_the_plan_incomplete() {
    let mut tree = HashMap::new();
    tree.insert(0u128, node(vec![6, 1], true));
    tree.insert(1u128, node(vec![], false));
    let plan = render_shape_tree(0, &tree).unwrap();
    assert!(!plan.is_complete);
    assert_eq!(plan.steps[1], RenderStep::Missing { id: 6 });
    assert!(plan.steps.contains(&RenderStep::RenderElement { id: 1 }));
}

#[test]
fn root_frame_outside_the_viewbox_is_still_traversed() {
    let mut tree = HashMap::new();
    let mut root = node(vec![1], true);
    root.inside_viewbox = false;
    root.intersects_viewbox = false;
    root.hidden = true;
    tree.insert(0u128, root);
    tree.insert(1u128, node(vec![], false));
    let plan = render_shape_tree(0, &tree).unwrap();
    assert!(!plan.is_complete);
    assert_eq!(plan.steps.len(), 6);
    assert_eq!(plan.steps[0], RenderStep::OpenLayer { id: 0 });
}

#[test]
fn other_root_is_checked_and_drawn_itself() {
    let mut tree = HashMap::new();
    tree.insert(9u128, node(vec![], false));
    let plan = render_shape_tree(9, &tree).unwrap();
    assert!(plan.is_complete);
    assert_eq!(
        plan.steps,
        vec![
            RenderStep::DebugElement { id: 9, intersected: true },
            RenderStep::OpenLayer { id: 9 },
            RenderStep::RenderElement { id: 9 },
            RenderStep::CloseLayer,
        ]
    );
}

#[test]
fn group_nested_in_itself_gives_no_plan() {
    let mut tree = HashMap::new();
    tree.insert(0u128, node(vec![1], true));
    tree.insert(1u128, node(vec![2], true));
    tree.insert(2u128, node(vec![1], true));
    assert!(render_shape_tree(0, &tree).is_none());
}

#[test]
fn cycle_through_a_hidden_group_still_ends() {
    let mut tree = HashMap::new();
    tree.insert(0u128, node(vec![1], true));
    tree.insert(1u128, node(vec![2], true));
    let mut hidden = node(vec![1], true);
    hidden.hidden = true;
    tree.insert(2u128, hidden);
    let plan = render_shape_tree(0, &tree).unwrap();
    assert!(plan.is_complete);
    assert!(depth_ok(&plan.steps));
}

#[test]
fn unreachable_cycle_is_ignored() {
    let mut tree = HashMap::new();
    tree.insert(0u128, node(vec![1], true));
    tree.insert(1u128, node(vec![], false));
    tree.insert(7u128, node(vec![8], true));
    tree.insert(8u128, node(vec![7], true));
    assert!(render_shape_tree(0, &tree).is_some());
}

#[test]
fn layers_are_balanced_in_nested_groups() {
    let mut tree = HashMap::new();
    tree.insert(0u128, node(vec![1, 2], true));
    tree.insert(1u128, node(vec![3, 4], true));
    tree.insert(2u128, node(vec![], false));
    let mut clipped = node(vec![5], true);
    clipped.clip = true;
    tree.insert(3u128, clipped);
    tree.insert(4u128, node(vec![], false));
    tree.insert(5u128, node(vec![], false));
    let plan = render_shape_tree(0, &tree).unwrap();
    assert!(plan.is_complete);
    assert!(depth_ok(&plan.steps));
    let opens = plan.steps.iter().filter(|s| matches!(s, RenderStep::OpenLayer { .. })).count();
    assert_eq!(opens, 6);
}

#[test]
fn completeness_matches_the_reached_shapes() {
    let mut tree = HashMap::new();
    tree.insert(0u128, node(vec![1, 2], true));
    tree.insert(1u128, node(vec![], false));
    let mut hidden_outside = node(vec![], false);
    hidden_outside.hidden = true;
    hidden_outside.inside_viewbox = false;
    tree.insert(2u128, hidden_outside);
    let plan = render_shape_tree(0, &tree).unwrap();
    assert!(!plan.is_complete);
    assert!(!plan.steps.iter().any(|s| matches!(s, RenderStep::RenderElement { id: 2 })));
}

#[test]
fn nil_id_is_zero() {
    assert_eq!(nil_shape_id(), 0);
    assert_eq!(nil_shape_id(), uuid::Uuid::nil().as_u128());
    assert!(shape_id_is_nil(0));
    assert!(!shape_id_is_nil(1));
    assert!(!shape_id_is_nil(u128::MAX));
    let id = uuid::Uuid::from_u128(0x67e5_5044_10b1_426f_9247_bb68_0e5f_e0c8).as_u128();
    assert!(!shape_id_is_nil(id));
}
