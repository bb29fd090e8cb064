//! Traversal of a shape tree: which shapes are drawn, in which order, with
//! which layers, and whether everything that was reached lies inside the
//! viewbox.

use std::collections::HashMap;
use vstd::prelude::*;

use crate::ids::shape_id_is_nil;

verus! {

broadcast use vstd::std_specs::hash::group_hash_axioms;

/// What the traversal reads of a shape. The two viewbox facts are computed
/// by the caller from the shape's bounds and the current viewbox area.
pub struct ShapeNode {
    /// Ids of the child shapes, in drawing order.
    pub children: Vec<u128>,
    /// The shape is hidden.
    pub hidden: bool,
    /// The shape has children that are drawn with it (groups, frames, bools).
    pub recursive: bool,
    /// The children of the shape are clipped to its bounds.
    pub clip: bool,
    /// The viewbox area contains the bounds of the shape.
    pub inside_viewbox: bool,
    /// The bounds of the shape intersect the viewbox area.
    pub intersects_viewbox: bool,
}

/// One step of a shape tree rendering, to be performed in order.
#[derive(Clone, Copy, Debug, PartialEq, Eq, Structural)]
pub enum RenderStep {
    /// Draw the outline of the shape on the debug surface; `intersected`
    /// tells whether it lies (partly) in the viewbox.
    DebugElement { id: u128, intersected: bool },
    /// Save a layer painted with the shape's blend mode, opacity and filter.
    OpenLayer { id: u128 },
    /// Draw the shape itself (its fills, strokes or SVG content).
    RenderElement { id: u128 },
    /// Clip what follows to the bounds of the shape.
    ClipToBounds { id: u128 },
    /// Restore the layer opened last.
    CloseLayer,
    /// The id is not in the tree (reported as an error).
    Missing { id: u128 },
}

/// The result of traversing a shape tree.
pub struct ShapeTreePlan {
    /// Every shape that was reached is in the tree and inside the viewbox.
    pub is_complete: bool,
    /// The drawing steps, in order.
    pub steps: Vec<RenderStep>,
}

/// A shape whose children are visited: it is recursive and either the root
/// or a visible shape that intersects the viewbox.
pub open spec fn expands(id: u128, node: ShapeNode) -> bool {
    node.recursive && (id == 0 || (node.intersects_viewbox && !node.hidden))
}

/// The shapes of the tree that are not on `path`.
pub open spec fn unvisited(tree: Map<u128, ShapeNode>, path: Seq<u128>) -> nat {
    (tree.dom() - path.to_set()).len()
}

/// Visiting a new shape of the tree leaves fewer shapes unvisited.
pub proof fn lemma_unvisited_shrinks(tree: Map<u128, ShapeNode>, path: Seq<u128>, id: u128)
    requires
        tree.dom().finite(),
        tree.contains_key(id),
        !path.contains(id),
    ensures
        unvisited(tree, path.push(id)) < unvisited(tree, path),
{
    broadcast use vstd::set::group_set_axioms;

    path.lemma_push_to_set_commute(id);
    assert(tree.dom() - path.push(id).to_set() =~= (tree.dom() - path.to_set()).remove(id));
    assert((tree.dom() - path.to_set()).contains(id));
}

/// The steps that precede the children of a visited shape.
pub open spec fn opening_steps(id: u128, node: ShapeNode) -> Seq<RenderStep> {
    if id == 0 {
        seq![RenderStep::OpenLayer { id }]
    } else {
        seq![
            RenderStep::DebugElement { id, intersected: true },
            RenderStep::OpenLayer { id },
            RenderStep::RenderElement { id },
        ] + if node.clip {
            seq![RenderStep::ClipToBounds { id }]
        } else {
            Seq::<RenderStep>::empty()
        }
    }
}

/// Completeness and steps of the traversal that reaches `id` below the
/// shapes of `path` (whose children are being visited), or `None` when the
/// traversal reaches a shape again below itself and so never ends.
pub open spec fn visit(tree: Map<u128, ShapeNode>, id: u128, path: Seq<u128>) -> Option<
    (bool, Seq<RenderStep>),
>
    decreases unvisited(tree, path), 0nat, 0nat,
    when tree.dom().finite()
{
    if !tree.contains_key(id) {
        Some((false, seq![RenderStep::Missing { id }]))
    } else {
        let node = tree[id];
        if id != 0 && (!node.intersects_viewbox || node.hidden) {
            Some((node.inside_viewbox, seq![RenderStep::DebugElement { id, intersected: false }]))
        } else if !node.recursive {
            Some((node.inside_viewbox, opening_steps(id, node) + seq![RenderStep::CloseLayer]))
        } else if path.contains(id) {
            None
        } else {
            proof {
                lemma_unvisited_shrinks(tree, path, id);
            }
            match visit_children(tree, id, path.push(id), node.children@.len()) {
                None => None,
                Some(children) => Some(
                    (
                        node.inside_viewbox && children.0,
                        opening_steps(id, node) + children.1 + seq![RenderStep::CloseLayer],
                    ),
                ),
            }
        }
    }
}

/// The traversals of the first `k` children of `parent`, one after the
/// other, below the shapes of `path`.
pub open spec fn visit_children(
    tree: Map<u128, ShapeNode>,
    parent: u128,
    path: Seq<u128>,
    k: nat,
) -> Option<(bool, Seq<RenderStep>)>
    decreases unvisited(tree, path), 1nat, k,
    when tree.dom().finite()
{
    if k == 0 || !tree.contains_key(parent) || k > tree[parent].children@.len() {
        Some((true, Seq::<RenderStep>::empty()))
    } else {
        match visit_children(tree, parent, path, (k - 1) as nat) {
            None => None,
            Some(prev) => match visit(tree, tree[parent].children@[k - 1], path) {
                None => None,
                Some(here) => Some((here.0 && prev.0, prev.1 + here.1)),
            },
        }
    }
}

/// The traversal of the whole tree from `root_id`.
pub open spec fn shape_tree_plan(tree: Map<u128, ShapeNode>, root_id: u128) -> Option<
    (bool, Seq<RenderStep>),
> {
    visit(tree, root_id, Seq::<u128>::empty())
}

proof fn lemma_children_none_persists(
    tree: Map<u128, ShapeNode>,
    parent: u128,
    path: Seq<u128>,
    k: nat,
    k2: nat,
)
    requires
        tree.dom().finite(),
        tree.contains_key(parent),
        k <= k2 <= tree[parent].children@.len(),
        visit_children(tree, parent, path, k) is None,
    ensures
        visit_children(tree, parent, path, k2) is None,
    decreases k2 - k,
{
    if k < k2 {
        lemma_children_none_persists(tree, parent, path, k, (k2 - 1) as nat);
    }
}

fn on_path(path: &Vec<u128>, id: u128) -> (found: bool)
    ensures
        found == path@.contains(id),
{
    let mut i: usize = 0;
    while i < path.len()
        invariant
            i <= path@.len(),
            forall|j: int| 0 <= j < i ==> path@[j] != id,
        decreases path@.len() - i,
    {
        if path[i] == id {
            assert(path@[i as int] == id);
            return true;
        }
        i = i + 1;
    }
    false
}

fn plan_node(
    tree: &HashMap<u128, ShapeNode>,
    id: u128,
    path: &mut Vec<u128>,
    steps: &mut Vec<RenderStep>,
) -> (complete: Option<bool>)
    ensures
        final(path)@ == old(path)@,
        match visit(tree@, id, old(path)@) {
            Some(p) => complete == Some(p.0) && final(steps)@ == old(steps)@ + p.1,
            None => complete is None,
        },
    decreases unvisited(tree@, old(path)@), 0nat, 0nat,
{
    match tree.get(&id) {
        None => {
            steps.push(RenderStep::Missing { id });
            Some(false)
        },
        Some(node) => {
            let root = shape_id_is_nil(id);
            if !root {
                if !node.intersects_viewbox || node.hidden {
                    steps.push(RenderStep::DebugElement { id, intersected: false });
                    return Some(node.inside_viewbox);
                }
                steps.push(RenderStep::DebugElement { id, intersected: true });
            }
            steps.push(RenderStep::OpenLayer { id });
            if !root {
                steps.push(RenderStep::RenderElement { id });
                if node.clip {
                    steps.push(RenderStep::ClipToBounds { id });
                }
            }
            let ghost opened = steps@;
            assert(opened == old(steps)@ + opening_steps(id, *node));
            let mut is_complete = node.inside_viewbox;
            if node.recursive {
                if on_path(path, id) {
                    return None;
                }
                let ghost above = path@;
                proof {
                    lemma_unvisited_shrinks(tree@, above, id);
                }
                path.push(id);
                let mut j: usize = 0;
                while j < node.children.len()
                    invariant
                        tree@.dom().finite(),
                        tree@.contains_key(id),
                        tree@[id] == *node,
                        above == old(path)@,
                        path@ == above.push(id),
                        unvisited(tree@, above.push(id)) < unvisited(tree@, above),
                        !above.contains(id),
                        node.recursive,
                        id == 0 || (node.intersects_viewbox && !node.hidden),
                        j <= node.children@.len(),
                        visit_children(tree@, id, above.push(id), j as nat) is Some,
                        is_complete == (node.inside_viewbox && visit_children(
                            tree@,
                            id,
                            above.push(id),
                            j as nat,
                        ).unwrap().0),
                        steps@ == opened + visit_children(
                            tree@,
                            id,
                            above.push(id),
                            j as nat,
                        ).unwrap().1,
                    decreases node.children@.len() - j,
                {
                    let child = node.children[j];
                    assert(tree@[id].children@[j as int] == child);
                    let child_complete = plan_node(tree, child, path, steps);
                    match child_complete {
                        None => {
                            proof {
                                assert(visit_children(tree@, id, above.push(id), (j + 1) as nat)
                                    is None);
                                lemma_children_none_persists(
                                    tree@,
                                    id,
                                    above.push(id),
                                    (j + 1) as nat,
                                    node.children@.len(),
                                );
                                assert(!above.contains(id));
                                assert(visit(tree@, id, above) is None);
                            }
                            path.pop();
                            return None;
                        },
                        Some(c) => {
                            is_complete = c && is_complete;
                        },
                    }
                    j = j + 1;
                }
                path.pop();
                assert(path@ =~= above);
            }
            steps.push(RenderStep::CloseLayer);
            Some(is_complete)
        },
    }
}

/// Plans the rendering of the shape tree `tree` from the shape `root_id`
/// down. The shape with the nil id is the root frame: it is neither checked
/// against the viewbox nor drawn itself, but its children are. `None` when
/// the traversal reaches a shape again below itself, so that it would never
/// end.
pub fn render_shape_tree(root_id: u128, tree: &HashMap<u128, ShapeNode>) -> (plan: Option<
    ShapeTreePlan,
>)
    ensures
        match shape_tree_plan(tree@, root_id) {
            Some(p) => plan matches Some(q) && q.is_complete == p.0 && q.steps@ == p.1,
            None => plan is None,
        },
{
    let mut steps: Vec<RenderStep> = Vec::new();
    let mut path: Vec<u128> = Vec::new();
    assert(path@ =~= Seq::<u128>::empty());
    match plan_node(tree, root_id, &mut path, &mut steps) {
        Some(is_complete) => {
            assert(steps@ =~= shape_tree_plan(tree@, root_id).unwrap().1);
            Some(ShapeTreePlan { is_complete, steps })
        },
        None => None,
    }
}

/// How a step changes the number of open layers.
pub open spec fn layer_delta(step: RenderStep) -> int {
    match step {
        RenderStep::OpenLayer { .. } => 1,
        RenderStep::CloseLayer => -1,
        _ => 0,
    }
}

/// The number of layers left open after performing `steps`.
pub open spec fn layer_depth(steps: Seq<RenderStep>) -> int
    decreases steps.len(),
{
    if steps.len() == 0 {
        0
    } else {
        layer_depth(steps.drop_last()) + layer_delta(steps.last())
    }
}

/// No step closes a layer that was not opened, and every opened layer is
/// closed at the end.
pub open spec fn layers_balanced(steps: Seq<RenderStep>) -> bool {
    &&& layer_depth(steps) == 0
    &&& forall|i: int| 0 <= i <= steps.len() ==> layer_depth(#[trigger] steps.take(i)) >= 0
}

/// A step that keeps a traversal complete: the id it reaches is in the tree
/// and, for the steps that mark a reached shape, inside the viewbox.
pub open spec fn keeps_complete(tree: Map<u128, ShapeNode>, step: RenderStep) -> bool {
    match step {
        RenderStep::Missing { .. } => false,
        RenderStep::DebugElement { id, .. } => tree.contains_key(id) && tree[id].inside_viewbox,
        RenderStep::OpenLayer { id } => tree.contains_key(id) && tree[id].inside_viewbox,
        _ => true,
    }
}

/// A step that draws or clips to a shape only does so for a visible shape
/// that intersects the viewbox and is not the root frame.
pub open spec fn draws_visible_only(tree: Map<u128, ShapeNode>, step: RenderStep) -> bool {
    match step {
        RenderStep::RenderElement { id } => id != 0 && tree.contains_key(id) && !tree[id].hidden
            && tree[id].intersects_viewbox,
        RenderStep::ClipToBounds { id } => id != 0 && tree.contains_key(id) && !tree[id].hidden
            && tree[id].intersects_viewbox && tree[id].clip,
        _ => true,
    }
}

proof fn lemma_depth_concat(a: Seq<RenderStep>, b: Seq<RenderStep>)
    ensures
        layer_depth(a + b) == layer_depth(a) + layer_depth(b),
    decreases b.len(),
{
    if b.len() == 0 {
        assert(a + b =~= a);
    } else {
        lemma_depth_concat(a, b.drop_last());
        assert((a + b).drop_last() =~= a + b.drop_last());
        assert((a + b).last() == b.last());
    }
}

proof fn lemma_prefixes_concat(a: Seq<RenderStep>, b: Seq<RenderStep>)
    requires
        forall|i: int| 0 <= i <= a.len() ==> layer_depth(#[trigger] a.take(i)) >= 0,
        forall|j: int| 0 <= j <= b.len() ==> layer_depth(a) + layer_depth(#[trigger] b.take(j)) >= 0,
    ensures
        forall|i: int| 0 <= i <= (a + b).len() ==> layer_depth(#[trigger] (a + b).take(i)) >= 0,
{
    assert forall|i: int| 0 <= i <= (a + b).len() implies layer_depth(#[trigger] (a + b).take(i))
        >= 0 by {
        if i <= a.len() {
            assert((a + b).take(i) =~= a.take(i));
        } else {
            assert((a + b).take(i) =~= a + b.take(i - a.len()));
            lemma_depth_concat(a, b.take(i - a.len()));
        }
    }
}

proof fn lemma_opening_steps(id: u128, node: ShapeNode)
    ensures
        layer_depth(opening_steps(id, node)) == 1,
        forall|i: int|
            0 <= i <= opening_steps(id, node).len() ==> layer_depth(
                #[trigger] opening_steps(id, node).take(i),
            ) >= 0,
{
    let s = opening_steps(id, node);
    reveal_with_fuel(layer_depth, 5);
    assert forall|i: int| 0 <= i <= s.len() implies layer_depth(#[trigger] s.take(i)) >= 0 by {
        if id == 0 {
            if i == 0 {
                assert(s.take(i) =~= Seq::<RenderStep>::empty());
            } else {
                assert(s.take(i) =~= s);
            }
        } else {
            if i == 0 {
                assert(s.take(i) =~= Seq::<RenderStep>::empty());
            } else if i == 1 {
                assert(s.take(i) =~= seq![RenderStep::DebugElement { id, intersected: true }]);
            } else if i == 2 {
                assert(s.take(i) =~= seq![
                    RenderStep::DebugElement { id, intersected: true },
                    RenderStep::OpenLayer { id },
                ]);
            } else if i == 3 {
                assert(s.take(i) =~= seq![
                    RenderStep::DebugElement { id, intersected: true },
                    RenderStep::OpenLayer { id },
                    RenderStep::RenderElement { id },
                ]);
            } else {
                assert(s.take(i) =~= s);
            }
        }
    }
    if id == 0 {
        assert(s.drop_last() =~= Seq::<RenderStep>::empty());
    } else if node.clip {
        assert(s.take(4) =~= s);
    } else {
        assert(s.take(3) =~= s);
    }
}

/// The children part of the traversal of a visited shape `id` (visible, or
/// the root frame): the traversals of its children when it is recursive.
pub open spec fn children_part(tree: Map<u128, ShapeNode>, id: u128, path: Seq<u128>) -> (
    bool,
    Seq<RenderStep>,
) {
    if tree[id].recursive {
        visit_children(tree, id, path.push(id), tree[id].children@.len()).unwrap()
    } else {
        (true, Seq::<RenderStep>::empty())
    }
}

/// The traversal of a visited shape is its opening steps, the traversals of
/// its children and the closing of its layer.
proof fn lemma_visit_shape(tree: Map<u128, ShapeNode>, id: u128, path: Seq<u128>)
    requires
        tree.dom().finite(),
        tree.contains_key(id),
        id == 0 || (tree[id].intersects_viewbox && !tree[id].hidden),
        visit(tree, id, path) is Some,
    ensures
        tree[id].recursive ==> !path.contains(id) && visit_children(
            tree,
            id,
            path.push(id),
            tree[id].children@.len(),
        ) is Some,
        visit(tree, id, path).unwrap().0 == (tree[id].inside_viewbox && children_part(
            tree,
            id,
            path,
        ).0),
        visit(tree, id, path).unwrap().1 == opening_steps(id, tree[id]) + children_part(
            tree,
            id,
            path,
        ).1 + seq![RenderStep::CloseLayer],
{
    if !tree[id].recursive {
        assert(opening_steps(id, tree[id]) + seq![RenderStep::CloseLayer] =~= opening_steps(
            id,
            tree[id],
        ) + Seq::<RenderStep>::empty() + seq![RenderStep::CloseLayer]);
    }
}

/// Every traversal opens and closes its layers in a balanced way: no layer
/// is closed that was not opened, and all of them are closed at the end, so
/// the next shape drawn never carries the transform or clip of another.
pub proof fn lemma_visit_layers_balanced(tree: Map<u128, ShapeNode>, id: u128, path: Seq<u128>)
    requires
        tree.dom().finite(),
        visit(tree, id, path) is Some,
    ensures
        layers_balanced(visit(tree, id, path).unwrap().1),
    decreases unvisited(tree, path), 0nat, 0nat,
{
    let steps = visit(tree, id, path).unwrap().1;
    if !tree.contains_key(id) || (id != 0 && (!tree[id].intersects_viewbox || tree[id].hidden)) {
        reveal_with_fuel(layer_depth, 2);
        assert forall|i: int| 0 <= i <= steps.len() implies layer_depth(#[trigger] steps.take(i))
            >= 0 by {
            if i == 0 {
                assert(steps.take(i) =~= Seq::<RenderStep>::empty());
            } else {
                assert(steps.take(i) =~= steps);
                assert(steps.drop_last() =~= Seq::<RenderStep>::empty());
            }
        }
        assert(steps.drop_last() =~= Seq::<RenderStep>::empty());
    } else {
        let node = tree[id];
        lemma_visit_shape(tree, id, path);
        let children = children_part(tree, id, path);
        if node.recursive {
            lemma_unvisited_shrinks(tree, path, id);
            lemma_children_layers_balanced(tree, id, path.push(id), node.children@.len());
        } else {
            assert forall|i: int| 0 <= i <= children.1.len() implies layer_depth(
                #[trigger] children.1.take(i),
            ) >= 0 by {
                assert(children.1.take(i) =~= Seq::<RenderStep>::empty());
            }
        }
        let open = opening_steps(id, node);
        let close = seq![RenderStep::CloseLayer];
        lemma_opening_steps(id, node);
        lemma_prefixes_concat(open, children.1);
        lemma_depth_concat(open, children.1);
        reveal_with_fuel(layer_depth, 2);
        assert(close.drop_last() =~= Seq::<RenderStep>::empty());
        assert forall|j: int| 0 <= j <= close.len() implies layer_depth(open + children.1)
            + layer_depth(#[trigger] close.take(j)) >= 0 by {
            if j == 0 {
                assert(close.take(j) =~= Seq::<RenderStep>::empty());
            } else {
                assert(close.take(j) =~= close);
            }
        }
        lemma_prefixes_concat(open + children.1, close);
        lemma_depth_concat(open + children.1, close);
    }
}

/// The traversals of the children of a shape, one after the other, are
/// balanced too.
pub proof fn lemma_children_layers_balanced(
    tree: Map<u128, ShapeNode>,
    parent: u128,
    path: Seq<u128>,
    k: nat,
)
    requires
        tree.dom().finite(),
        visit_children(tree, parent, path, k) is Some,
    ensures
        layers_balanced(visit_children(tree, parent, path, k).unwrap().1),
    decreases unvisited(tree, path), 1nat, k,
{
    let steps = visit_children(tree, parent, path, k).unwrap().1;
    if k == 0 || !tree.contains_key(parent) || k > tree[parent].children@.len() {
        assert forall|i: int| 0 <= i <= steps.len() implies layer_depth(#[trigger] steps.take(i))
            >= 0 by {
            assert(steps.take(i) =~= Seq::<RenderStep>::empty());
        }
    } else {
        let prev = visit_children(tree, parent, path, (k - 1) as nat).unwrap().1;
        let child = tree[parent].children@[k - 1];
        lemma_children_layers_balanced(tree, parent, path, (k - 1) as nat);
        lemma_visit_layers_balanced(tree, child, path);
        let here = visit(tree, child, path).unwrap().1;
        lemma_prefixes_concat(prev, here);
        lemma_depth_concat(prev, here);
    }
}

/// A traversal is complete exactly when every id it reaches is in the tree
/// and every shape it reaches lies inside the viewbox.
pub proof fn lemma_visit_complete_iff(tree: Map<u128, ShapeNode>, id: u128, path: Seq<u128>)
    requires
        tree.dom().finite(),
        visit(tree, id, path) is Some,
    ensures
        visit(tree, id, path).unwrap().0 <==> forall|i: int|
            0 <= i < visit(tree, id, path).unwrap().1.len() ==> keeps_complete(
                tree,
                #[trigger] visit(tree, id, path).unwrap().1[i],
            ),
    decreases unvisited(tree, path), 0nat, 0nat,
{
    let steps = visit(tree, id, path).unwrap().1;
    if !tree.contains_key(id) || (id != 0 && (!tree[id].intersects_viewbox || tree[id].hidden)) {
        assert(steps.len() == 1);
        if !visit(tree, id, path).unwrap().0 {
            assert(!keeps_complete(tree, steps[0]));
        }
    } else {
        let node = tree[id];
        lemma_visit_shape(tree, id, path);
        let children = children_part(tree, id, path);
        if node.recursive {
            lemma_unvisited_shrinks(tree, path, id);
            lemma_children_complete_iff(tree, id, path.push(id), node.children@.len());
        }
        let open = opening_steps(id, node);
        let open_at = if id == 0 {
            0int
        } else {
            1int
        };
        assert(open[open_at] == RenderStep::OpenLayer { id });
        assert(steps[open_at] == open[open_at]);
        if visit(tree, id, path).unwrap().0 {
            assert forall|i: int| 0 <= i < steps.len() implies keeps_complete(
                tree,
                #[trigger] steps[i],
            ) by {
                if i < open.len() {
                    assert(steps[i] == open[i]);
                } else if i < open.len() + children.1.len() {
                    assert(steps[i] == children.1[i - open.len()]);
                } else {
                    assert(steps[i] == RenderStep::CloseLayer);
                }
            }
        }
        if forall|i: int| 0 <= i < steps.len() ==> keeps_complete(tree, #[trigger] steps[i]) {
            assert(keeps_complete(tree, steps[open_at]));
            assert forall|i: int| 0 <= i < children.1.len() implies keeps_complete(
                tree,
                #[trigger] children.1[i],
            ) by {
                assert(steps[i + open.len()] == children.1[i]);
            }
        }
    }
}

/// The traversals of the children of a shape are all complete exactly when
/// each of their steps keeps them complete.
pub proof fn lemma_children_complete_iff(
    tree: Map<u128, ShapeNode>,
    parent: u128,
    path: Seq<u128>,
    k: nat,
)
    requires
        tree.dom().finite(),
        visit_children(tree, parent, path, k) is Some,
    ensures
        visit_children(tree, parent, path, k).unwrap().0 <==> forall|i: int|
            0 <= i < visit_children(tree, parent, path, k).unwrap().1.len() ==> keeps_complete(
                tree,
                #[trigger] visit_children(tree, parent, path, k).unwrap().1[i],
            ),
    decreases unvisited(tree, path), 1nat, k,
{
    if k == 0 || !tree.contains_key(parent) || k > tree[parent].children@.len() {
    } else {
        let prev = visit_children(tree, parent, path, (k - 1) as nat).unwrap();
        let child = tree[parent].children@[k - 1];
        lemma_children_complete_iff(tree, parent, path, (k - 1) as nat);
        lemma_visit_complete_iff(tree, child, path);
        let here = visit(tree, child, path).unwrap();
        let steps = visit_children(tree, parent, path, k).unwrap().1;
        assert(steps == prev.1 + here.1);
        if forall|i: int| 0 <= i < steps.len() ==> keeps_complete(tree, #[trigger] steps[i]) {
            assert forall|i: int| 0 <= i < prev.1.len() implies keeps_complete(
                tree,
                #[trigger] prev.1[i],
            ) by {
                assert(steps[i] == prev.1[i]);
            }
            assert forall|i: int| 0 <= i < here.1.len() implies keeps_complete(
                tree,
                #[trigger] here.1[i],
            ) by {
                assert(steps[i + prev.1.len()] == here.1[i]);
            }
        }
        if visit_children(tree, parent, path, k).unwrap().0 {
            assert forall|i: int| 0 <= i < steps.len() implies keeps_complete(
                tree,
                #[trigger] steps[i],
            ) by {
                if i < prev.1.len() {
                    assert(steps[i] == prev.1[i]);
                } else {
                    assert(steps[i] == here.1[i - prev.1.len()]);
                }
            }
        }
    }
}

/// Only visible shapes that intersect the viewbox are ever drawn or used as
/// a clip, and the root frame never is.
pub proof fn lemma_visit_draws_visible_only(tree: Map<u128, ShapeNode>, id: u128, path: Seq<u128>)
    requires
        tree.dom().finite(),
        visit(tree, id, path) is Some,
    ensures
        forall|i: int|
            0 <= i < visit(tree, id, path).unwrap().1.len() ==> draws_visible_only(
                tree,
                #[trigger] visit(tree, id, path).unwrap().1[i],
            ),
    decreases unvisited(tree, path), 0nat, 0nat,
{
    let steps = visit(tree, id, path).unwrap().1;
    if !tree.contains_key(id) || (id != 0 && (!tree[id].intersects_viewbox || tree[id].hidden)) {
    } else {
        let node = tree[id];
        lemma_visit_shape(tree, id, path);
        let children = children_part(tree, id, path);
        if node.recursive {
            lemma_unvisited_shrinks(tree, path, id);
            lemma_children_draw_visible_only(tree, id, path.push(id), node.children@.len());
        }
        let open = opening_steps(id, node);
        assert forall|i: int| 0 <= i < steps.len() implies draws_visible_only(
            tree,
            #[trigger] steps[i],
        ) by {
            if i < open.len() {
                assert(steps[i] == open[i]);
            } else if i < open.len() + children.1.len() {
                assert(steps[i] == children.1[i - open.len()]);
            } else {
                assert(steps[i] == RenderStep::CloseLayer);
            }
        }
    }
}

/// The traversals of the children of a shape draw only visible shapes too.
pub proof fn lemma_children_draw_visible_only(
    tree: Map<u128, ShapeNode>,
    parent: u128,
    path: Seq<u128>,
    k: nat,
)
    requires
        tree.dom().finite(),
        visit_children(tree, parent, path, k) is Some,
    ensures
        forall|i: int|
            0 <= i < visit_children(tree, parent, path, k).unwrap().1.len() ==> draws_visible_only(
                tree,
                #[trigger] visit_children(tree, parent, path, k).unwrap().1[i],
            ),
    decreases unvisited(tree, path), 1nat, k,
{
    if k == 0 || !tree.contains_key(parent) || k > tree[parent].children@.len() {
    } else {
        let prev = visit_children(tree, parent, path, (k - 1) as nat).unwrap();
        let child = tree[parent].children@[k - 1];
        lemma_children_draw_visible_only(tree, parent, path, (k - 1) as nat);
        lemma_visit_draws_visible_only(tree, child, path);
        let here = visit(tree, child, path).unwrap();
        let steps = visit_children(tree, parent, path, k).unwrap().1;
        assert(steps == prev.1 + here.1);
        assert forall|i: int| 0 <= i < steps.len() implies draws_visible_only(
            tree,
            #[trigger] steps[i],
        ) by {
            if i < prev.1.len() {
                assert(steps[i] == prev.1[i]);
            } else {
                assert(steps[i] == here.1[i - prev.1.len()]);
            }
        }
    }
}

/// `rank` strictly decreases from each visited shape to each of its children
/// that is in the tree.
pub open spec fn ranked_by(tree: Map<u128, ShapeNode>, rank: spec_fn(u128) -> nat) -> bool {
    forall|parent: u128, i: int|
        #![trigger tree[parent].children@[i]]
        tree.contains_key(parent) && expands(parent, tree[parent]) && 0 <= i
            < tree[parent].children@.len() && tree.contains_key(tree[parent].children@[i])
            ==> rank(tree[parent].children@[i]) < rank(parent)
}

/// When a rank decreases from every visited shape to each of its children,
/// and the shapes above `id` on `path` all rank above it, the traversal
/// ends.
pub proof fn lemma_ranked_visit_ends(
    tree: Map<u128, ShapeNode>,
    rank: spec_fn(u128) -> nat,
    id: u128,
    path: Seq<u128>,
)
    requires
        tree.dom().finite(),
        ranked_by(tree, rank),
        forall|i: int|
            0 <= i < path.len() ==> tree.contains_key(#[trigger] path[i]) && (tree.contains_key(id)
                ==> rank(id) < rank(path[i])),
    ensures
        visit(tree, id, path) is Some,
    decreases unvisited(tree, path), 0nat, 0nat,
{
    if tree.contains_key(id) && expands(id, tree[id]) {
        if path.contains(id) {
            let i = choose|i: int| 0 <= i < path.len() && path[i] == id;
            assert(rank(id) < rank(path[i]));
        }
        lemma_unvisited_shrinks(tree, path, id);
        lemma_ranked_children_end(tree, rank, id, path.push(id), tree[id].children@.len());
    }
}

/// The traversals of the children of a ranked shape end too.
pub proof fn lemma_ranked_children_end(
    tree: Map<u128, ShapeNode>,
    rank: spec_fn(u128) -> nat,
    parent: u128,
    path: Seq<u128>,
    k: nat,
)
    requires
        tree.dom().finite(),
        ranked_by(tree, rank),
        tree.contains_key(parent),
        expands(parent, tree[parent]),
        forall|i: int|
            0 <= i < path.len() ==> tree.contains_key(#[trigger] path[i]) && rank(parent) <= rank(
                path[i],
            ),
    ensures
        visit_children(tree, parent, path, k) is Some,
    decreases unvisited(tree, path), 1nat, k,
{
    if k == 0 || k > tree[parent].children@.len() {
    } else {
        lemma_ranked_children_end(tree, rank, parent, path, (k - 1) as nat);
        let child = tree[parent].children@[k - 1];
        assert(tree.contains_key(child) ==> rank(child) < rank(parent));
        lemma_ranked_visit_ends(tree, rank, child, path);
    }
}

/// A tree in which no shape is reached again below itself (some rank
/// decreases from every visited shape to its children) always yields a
/// plan.
pub proof fn lemma_ranked_tree_is_planned(
    tree: Map<u128, ShapeNode>,
    rank: spec_fn(u128) -> nat,
    root_id: u128,
)
    requires
        tree.dom().finite(),
        ranked_by(tree, rank),
    ensures
        shape_tree_plan(tree, root_id) is Some,
{
    lemma_ranked_visit_ends(tree, rank, root_id, Seq::<u128>::empty());
}

/// A shape that the traversal visits: visible and intersecting the viewbox.
pub open spec fn visible_in_viewbox(node: ShapeNode) -> bool {
    node.intersects_viewbox && !node.hidden
}

/// What each step says of the tree: a debug outline is drawn for a non-root
/// shape of the tree, marked intersected exactly when the shape is visible
/// and intersects the viewbox; a layer is opened for the root frame or a
/// visible shape of the tree; a missing id is not in the tree.
pub open spec fn step_fits_tree(tree: Map<u128, ShapeNode>, step: RenderStep) -> bool {
    match step {
        RenderStep::DebugElement { id, intersected } => id != 0 && tree.contains_key(id) && (
        intersected <==> visible_in_viewbox(tree[id])),
        RenderStep::OpenLayer { id } => tree.contains_key(id) && (id == 0 || visible_in_viewbox(
            tree[id],
        )),
        RenderStep::Missing { id } => !tree.contains_key(id),
        _ => true,
    }
}

/// Every step of a traversal fits the tree (see `step_fits_tree`).
pub proof fn lemma_visit_steps_fit_tree(tree: Map<u128, ShapeNode>, id: u128, path: Seq<u128>)
    requires
        tree.dom().finite(),
        visit(tree, id, path) is Some,
    ensures
        forall|i: int|
            0 <= i < visit(tree, id, path).unwrap().1.len() ==> step_fits_tree(
                tree,
                #[trigger] visit(tree, id, path).unwrap().1[i],
            ),
    decreases unvisited(tree, path), 0nat, 0nat,
{
    let steps = visit(tree, id, path).unwrap().1;
    if !tree.contains_key(id) || (id != 0 && (!tree[id].intersects_viewbox || tree[id].hidden)) {
    } else {
        let node = tree[id];
        lemma_visit_shape(tree, id, path);
        let children = children_part(tree, id, path);
        if node.recursive {
            lemma_unvisited_shrinks(tree, path, id);
            lemma_children_steps_fit_tree(tree, id, path.push(id), node.children@.len());
        }
        let open = opening_steps(id, node);
        assert forall|i: int| 0 <= i < steps.len() implies step_fits_tree(
            tree,
            #[trigger] steps[i],
        ) by {
            if i < open.len() {
                assert(steps[i] == open[i]);
            } else if i < open.len() + children.1.len() {
                assert(steps[i] == children.1[i - open.len()]);
            } else {
                assert(steps[i] == RenderStep::CloseLayer);
            }
        }
    }
}

/// The steps of the traversals of the children of a shape fit the tree.
pub proof fn lemma_children_steps_fit_tree(
    tree: Map<u128, ShapeNode>,
    parent: u128,
    path: Seq<u128>,
    k: nat,
)
    requires
        tree.dom().finite(),
        visit_children(tree, parent, path, k) is Some,
    ensures
        forall|i: int|
            0 <= i < visit_children(tree, parent, path, k).unwrap().1.len() ==> step_fits_tree(
                tree,
                #[trigger] visit_children(tree, parent, path, k).unwrap().1[i],
            ),
    decreases unvisited(tree, path), 1nat, k,
{
    if k == 0 || !tree.contains_key(parent) || k > tree[parent].children@.len() {
    } else {
        let prev = visit_children(tree, parent, path, (k - 1) as nat).unwrap();
        let child = tree[parent].children@[k - 1];
        lemma_children_steps_fit_tree(tree, parent, path, (k - 1) as nat);
        lemma_visit_steps_fit_tree(tree, child, path);
        let here = visit(tree, child, path).unwrap();
        let steps = visit_children(tree, parent, path, k).unwrap().1;
        assert(steps == prev.1 + here.1);
        assert forall|i: int| 0 <= i < steps.len() implies step_fits_tree(
            tree,
            #[trigger] steps[i],
        ) by {
            if i < prev.1.len() {
                assert(steps[i] == prev.1[i]);
            } else {
                assert(steps[i] == here.1[i - prev.1.len()]);
            }
        }
    }
}

/// A traversal has at least one step, and its first step is a missing id,
/// a debug outline or an opened layer: never a draw, a clip or a close.
pub proof fn lemma_visit_first_step(tree: Map<u128, ShapeNode>, id: u128, path: Seq<u128>)
    requires
        tree.dom().finite(),
        visit(tree, id, path) is Some,
    ensures
        visit(tree, id, path).unwrap().1.len() >= 1,
        visit(tree, id, path).unwrap().1[0] is Missing || visit(tree, id, path).unwrap().1[0] is DebugElement
            || visit(tree, id, path).unwrap().1[0] is OpenLayer,
{
    if tree.contains_key(id) && !(id != 0 && (!tree[id].intersects_viewbox || tree[id].hidden)) {
        lemma_visit_shape(tree, id, path);
        let open = opening_steps(id, tree[id]);
        assert(visit(tree, id, path).unwrap().1[0] == open[0]);
    }
}

/// The traversals of the first `k >= 1` children of a shape start with the
/// whole traversal of its first child.
proof fn lemma_children_start_with_first(
    tree: Map<u128, ShapeNode>,
    parent: u128,
    path: Seq<u128>,
    k: nat,
)
    requires
        tree.dom().finite(),
        tree.contains_key(parent),
        1 <= k <= tree[parent].children@.len(),
        visit_children(tree, parent, path, k) is Some,
    ensures
        visit(tree, tree[parent].children@[0], path) is Some,
        visit(tree, tree[parent].children@[0], path).unwrap().1.len() <= visit_children(
            tree,
            parent,
            path,
            k,
        ).unwrap().1.len(),
        visit_children(tree, parent, path, k).unwrap().1.take(
            visit(tree, tree[parent].children@[0], path).unwrap().1.len() as int,
        ) == visit(tree, tree[parent].children@[0], path).unwrap().1,
    decreases k,
{
    let first = tree[parent].children@[0];
    if k == 1 {
        let steps = visit_children(tree, parent, path, 1).unwrap().1;
        assert(visit_children(tree, parent, path, 0) == Some((true, Seq::<RenderStep>::empty())));
        assert(steps =~= visit(tree, first, path).unwrap().1);
        assert(steps.take(steps.len() as int) =~= steps);
    } else {
        lemma_children_start_with_first(tree, parent, path, (k - 1) as nat);
        let prev = visit_children(tree, parent, path, (k - 1) as nat).unwrap().1;
        let here = visit(tree, tree[parent].children@[k - 1], path).unwrap().1;
        let steps = visit_children(tree, parent, path, k).unwrap().1;
        let n = visit(tree, first, path).unwrap().1.len() as int;
        assert(steps == prev + here);
        assert(steps.take(n) =~= prev.take(n));
    }
}

/// The traversal of a visible non-root shape starts with its debug outline
/// (marked intersected), its layer and its own drawing, then, exactly when
/// the shape clips, a clip to its bounds, before anything of its children;
/// it ends by closing its layer. Its children are traversed in the order of
/// the children list: the steps of the first child follow right after these
/// opening steps, and the steps of the last child come right before the
/// closing step.
pub proof fn lemma_visible_shape_steps(tree: Map<u128, ShapeNode>, id: u128, path: Seq<u128>)
    requires
        tree.dom().finite(),
        tree.contains_key(id),
        id != 0,
        tree[id].intersects_viewbox,
        !tree[id].hidden,
        visit(tree, id, path) is Some,
    ensures
        ({
            let steps = visit(tree, id, path).unwrap().1;
            let node = tree[id];
            let opened: int = if node.clip {
                4
            } else {
                3
            };
            &&& steps.len() >= opened + 1
            &&& steps[0] == RenderStep::DebugElement { id, intersected: true }
            &&& steps[1] == RenderStep::OpenLayer { id }
            &&& steps[2] == RenderStep::RenderElement { id }
            &&& (steps[3] == RenderStep::ClipToBounds { id } <==> node.clip)
            &&& steps.last() == RenderStep::CloseLayer
            &&& node.recursive && node.children@.len() >= 1 ==> {
                let first = visit(tree, node.children@[0], path.push(id)).unwrap().1;
                let last = visit(
                    tree,
                    node.children@[node.children@.len() - 1],
                    path.push(id),
                ).unwrap().1;
                &&& opened + first.len() < steps.len()
                &&& steps.subrange(opened, opened + first.len()) == first
                &&& last.len() + opened < steps.len()
                &&& steps.subrange(steps.len() - 1 - last.len(), steps.len() - 1) == last
            }
        }),
{
    lemma_steps_of_visited_shape(tree, id, path);
}

/// The traversal of the root frame opens its layer first, without a debug
/// outline or a drawing of its own, and closes it last; its children are
/// traversed in the order of the children list.
pub proof fn lemma_root_frame_steps(tree: Map<u128, ShapeNode>, path: Seq<u128>)
    requires
        tree.dom().finite(),
        tree.contains_key(0),
        visit(tree, 0, path) is Some,
    ensures
        ({
            let steps = visit(tree, 0, path).unwrap().1;
            let node = tree[0];
            &&& steps.len() >= 2
            &&& steps[0] == RenderStep::OpenLayer { id: 0 }
            &&& steps.last() == RenderStep::CloseLayer
            &&& visit(tree, 0, path).unwrap().0 ==> node.inside_viewbox
            &&& node.recursive && node.children@.len() >= 1 ==> {
                let first = visit(tree, node.children@[0], path.push(0)).unwrap().1;
                let last = visit(
                    tree,
                    node.children@[node.children@.len() - 1],
                    path.push(0),
                ).unwrap().1;
                &&& 1 + first.len() < steps.len()
                &&& steps.subrange(1int, 1int + first.len()) == first
                &&& last.len() + 1 < steps.len()
                &&& steps.subrange(steps.len() - 1 - last.len(), steps.len() - 1) == last
            }
        }),
{
    lemma_steps_of_visited_shape(tree, 0, path);
}

/// A shape that is hidden or off the viewbox, other than the root frame, is
/// only outlined on the debug surface (not intersected), and is complete
/// exactly when it lies inside the viewbox; an id missing from the tree is
/// reported, and makes the traversal incomplete.
pub proof fn lemma_unvisited_shape_steps(tree: Map<u128, ShapeNode>, id: u128, path: Seq<u128>)
    requires
        tree.dom().finite(),
    ensures
        !tree.contains_key(id) ==> visit(tree, id, path) == Some(
            (false, seq![RenderStep::Missing { id }]),
        ),
        tree.contains_key(id) && id != 0 && !visible_in_viewbox(tree[id]) ==> visit(tree, id, path)
            == Some(
            (tree[id].inside_viewbox, seq![RenderStep::DebugElement { id, intersected: false }]),
        ),
{
}

proof fn lemma_steps_of_visited_shape(tree: Map<u128, ShapeNode>, id: u128, path: Seq<u128>)
    requires
        tree.dom().finite(),
        tree.contains_key(id),
        id == 0 || visible_in_viewbox(tree[id]),
        visit(tree, id, path) is Some,
    ensures
        ({
            let steps = visit(tree, id, path).unwrap().1;
            let node = tree[id];
            let opened: int = if id == 0 {
                1
            } else if node.clip {
                4
            } else {
                3
            };
            &&& steps.len() >= opened + 1
            &&& steps.subrange(0, opened) == opening_steps(id, node)
            &&& id != 0 ==> (steps[3] == RenderStep::ClipToBounds { id } <==> node.clip)
            &&& steps[0] == (if id == 0 {
                RenderStep::OpenLayer { id }
            } else {
                RenderStep::DebugElement { id, intersected: true }
            })
            &&& id != 0 ==> steps[1] == RenderStep::OpenLayer { id } && steps[2]
                == RenderStep::RenderElement { id }
            &&& steps.last() == RenderStep::CloseLayer
            &&& visit(tree, id, path).unwrap().0 ==> node.inside_viewbox
            &&& node.recursive && node.children@.len() >= 1 ==> {
                let first = visit(tree, node.children@[0], path.push(id)).unwrap().1;
                let last = visit(
                    tree,
                    node.children@[node.children@.len() - 1],
                    path.push(id),
                ).unwrap().1;
                &&& opened + first.len() < steps.len()
                &&& steps.subrange(opened, opened + first.len()) == first
                &&& last.len() + opened < steps.len()
                &&& steps.subrange(steps.len() - 1 - last.len(), steps.len() - 1) == last
            }
        }),
{
    let node = tree[id];
    lemma_visit_shape(tree, id, path);
    let open = opening_steps(id, node);
    let children = children_part(tree, id, path);
    let steps = visit(tree, id, path).unwrap().1;
    assert(steps == open + children.1 + seq![RenderStep::CloseLayer]);
    let opened: int = open.len() as int;
    assert(steps.subrange(0, opened) =~= open);
    assert(steps[steps.len() - 1] == RenderStep::CloseLayer);
    if id != 0 && !node.clip {
        if children.1.len() > 0 {
            assert(node.recursive);
            let n = node.children@.len();
            if n == 0 {
                assert(visit_children(tree, id, path.push(id), 0) == Some(
                    (true, Seq::<RenderStep>::empty()),
                ));
            }
            lemma_unvisited_shrinks(tree, path, id);
            lemma_children_start_with_first(tree, id, path.push(id), n);
            lemma_visit_first_step(tree, node.children@[0], path.push(id));
            let first = visit(tree, node.children@[0], path.push(id)).unwrap().1;
            assert(children.1[0] == children.1.take(first.len() as int)[0]);
            assert(steps[3] == children.1[0]);
        } else {
            assert(steps[3] == RenderStep::CloseLayer);
        }
    }
    if node.recursive && node.children@.len() >= 1 {
        let n = node.children@.len();
        lemma_unvisited_shrinks(tree, path, id);
        lemma_children_start_with_first(tree, id, path.push(id), n);
        let first = visit(tree, node.children@[0], path.push(id)).unwrap().1;
        lemma_visit_first_step(tree, node.children@[0], path.push(id));
        assert(steps.subrange(opened, opened + first.len()) =~= children.1.take(
            first.len() as int,
        ));
        let prev = visit_children(tree, id, path.push(id), (n - 1) as nat).unwrap().1;
        let last = visit(tree, node.children@[n - 1], path.push(id)).unwrap().1;
        lemma_visit_first_step(tree, node.children@[n - 1], path.push(id));
        assert(children.1 == prev + last);
        assert(steps.subrange(steps.len() - 1 - last.len(), steps.len() - 1) =~= last);
    }
}

} // verus!
