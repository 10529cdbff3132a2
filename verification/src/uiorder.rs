//! The order laid-out UI nodes paint in.
//!
//! Each camera's node forest is walked once, depth first: roots by entity,
//! siblings by their z-index and then entity, every node before its
//! children. A node's global z-index re-keys its whole subtree, and the
//! walk is then sorted by global z-index, stably, so traversal order
//! survives among equal keys. Nothing downstream has to reason about the
//! tree.

use vstd::prelude::*;

use crate::camera::Entity;
use crate::order::{sort_order, stable_order, stable_sort_indices};

verus! {

/// A laid-out UI node in an arena: its entity, its z-index among its
/// siblings, the global z-index it sets for its subtree if any, whether
/// it paints anything, and the arena indices of its children.
#[derive(Debug)]
pub struct UiTreeNode {
    /// The node's entity.
    pub entity: Entity,
    /// Its z-index among its siblings; zero when unset.
    pub z_index: i32,
    /// The global z-index it sets for itself and its subtree.
    pub global_z: Option<i32>,
    /// Whether the node has anything to paint.
    pub paints: bool,
    /// Its children, as arena indices.
    pub children: Vec<usize>,
}

/// Every child lies in the arena after its parent, as an arena filled
/// parents first has it; so no node is its own ancestor.
pub open spec fn forest_wf(nodes: Seq<UiTreeNode>) -> bool {
    forall|i: int, k: int|
        0 <= i < nodes.len() && 0 <= k < nodes[i].children@.len() ==> i < #[trigger] nodes[i].children@[k]
            < nodes.len()
}

/// The keys siblings paint by: z-index, then entity.
pub open spec fn sibling_keys(nodes: Seq<UiTreeNode>, children: Seq<usize>) -> Seq<(i64, u64)> {
    children.map_values(|c: usize| (nodes[c as int].z_index as i64, nodes[c as int].entity.0))
}

/// `children` in the order they are visited.
pub open spec fn sorted_children(nodes: Seq<UiTreeNode>, children: Seq<usize>) -> Seq<usize> {
    sort_order(sibling_keys(nodes, children)).map_values(|j: usize| children[j as int])
}

/// The global z-index a node paints at: its own, or the one it inherits.
pub open spec fn node_z(node: UiTreeNode, inherited: i32) -> i32 {
    match node.global_z {
        Some(z) => z,
        None => inherited,
    }
}

/// The walk of the subtree at `i` inheriting global z-index `inherited`:
/// the node itself if it paints, with its global z-index, then its
/// children's subtrees in sibling order.
pub open spec fn visit_spec(nodes: Seq<UiTreeNode>, i: int, inherited: i32) -> Seq<(usize, i32)>
    decreases nodes.len() - i, 1int, 0int,
{
    if 0 <= i < nodes.len() {
        let z = node_z(nodes[i], inherited);
        let me = if nodes[i].paints {
            seq![(i as usize, z)]
        } else {
            Seq::empty()
        };
        let kids = sorted_children(nodes, nodes[i].children@);
        me + visit_kids(nodes, i, kids, kids.len() as int, z)
    } else {
        Seq::empty()
    }
}

/// The walks of the first `k` of `kids`, children of `parent`, in order.
pub open spec fn visit_kids(nodes: Seq<UiTreeNode>, parent: int, kids: Seq<usize>, k: int, z: i32) -> Seq<
    (usize, i32),
>
    decreases nodes.len() - parent, 0int, k,
{
    if k <= 0 || k > kids.len() {
        Seq::empty()
    } else {
        let earlier = visit_kids(nodes, parent, kids, k - 1, z);
        let c = kids[k - 1] as int;
        if parent < c < nodes.len() {
            earlier + visit_spec(nodes, c, z)
        } else {
            earlier
        }
    }
}

/// The keys roots are walked by: entity.
pub open spec fn root_keys(nodes: Seq<UiTreeNode>, roots: Seq<usize>) -> Seq<(i64, u64)> {
    roots.map_values(|r: usize| (0i64, nodes[r as int].entity.0))
}

/// `roots` in the order they are walked.
pub open spec fn sorted_roots(nodes: Seq<UiTreeNode>, roots: Seq<usize>) -> Seq<usize> {
    sort_order(root_keys(nodes, roots)).map_values(|j: usize| roots[j as int])
}

/// The walks of the first `k` of `roots`, in order, each inheriting
/// global z-index zero.
pub open spec fn visit_roots(nodes: Seq<UiTreeNode>, roots: Seq<usize>, k: int) -> Seq<(usize, i32)>
    decreases k,
{
    if k <= 0 || k > roots.len() {
        Seq::empty()
    } else {
        visit_roots(nodes, roots, k - 1) + visit_spec(nodes, roots[k - 1] as int, 0)
    }
}

/// The whole walk: every root's subtree, roots by entity.
pub open spec fn traversal(nodes: Seq<UiTreeNode>, roots: Seq<usize>) -> Seq<(usize, i32)> {
    let sorted = sorted_roots(nodes, roots);
    visit_roots(nodes, sorted, sorted.len() as int)
}

/// The keys the walk is sorted by: global z-index alone, so ties keep
/// their walk order.
pub open spec fn walk_keys(walk: Seq<(usize, i32)>) -> Seq<(i64, u64)> {
    walk.map_values(|p: (usize, i32)| (p.1 as i64, 0u64))
}

/// The arena indices of the nodes that paint, in paint order: the walk
/// sorted by global z-index, stably.
pub open spec fn paint_order_spec(nodes: Seq<UiTreeNode>, roots: Seq<usize>) -> Seq<usize> {
    let walk = traversal(nodes, roots);
    sort_order(walk_keys(walk)).map_values(|j: usize| walk[j as int].0)
}

/// Keys and the stable order they sort into, as arena positions.
fn sorted_by(keys: &Vec<(i64, u64)>, items: &[usize]) -> (sorted: Vec<usize>)
    requires
        keys@.len() == items@.len(),
    ensures
        stable_order(keys@, sort_order(keys@)),
        sorted@ == sort_order(keys@).map_values(|j: usize| items@[j as int]),
{
    let order = stable_sort_indices(keys.as_slice());
    let mut sorted: Vec<usize> = Vec::new();
    let mut k: usize = 0;
    while k < order.len()
        invariant
            k <= order@.len(),
            stable_order(keys@, order@),
            order@ == sort_order(keys@),
            keys@.len() == items@.len(),
            sorted@ == order@.take(k as int).map_values(|j: usize| items@[j as int]),
        decreases order@.len() - k,
    {
        proof {
            assert(order@.take(k as int + 1) =~= order@.take(k as int).push(order@[k as int]));
        }
        sorted.push(items[order[k]]);
        proof {
            assert(sorted@ =~= order@.take(k as int + 1).map_values(|j: usize| items@[j as int]));
        }
        k = k + 1;
    }
    proof {
        assert(order@.take(k as int) =~= order@);
    }
    sorted
}

/// Appends the walk of the subtree at `i` to `out`; see [`visit_spec`].
fn visit(nodes: &[UiTreeNode], i: usize, inherited: i32, out: &mut Vec<(usize, i32)>)
    requires
        forest_wf(nodes@),
        i < nodes@.len(),
    ensures
        final(out)@ == old(out)@ + visit_spec(nodes@, i as int, inherited),
    decreases nodes@.len() - i,
{
    let node = &nodes[i];
    let z = match node.global_z {
        Some(z) => z,
        None => inherited,
    };
    let ghost base = out@;
    if node.paints {
        out.push((i, z));
    }
    let ghost me = if node.paints {
        seq![(i, z)]
    } else {
        Seq::empty()
    };
    let mut keys: Vec<(i64, u64)> = Vec::new();
    let mut j: usize = 0;
    while j < node.children.len()
        invariant
            j <= node.children@.len(),
            forest_wf(nodes@),
            i < nodes@.len(),
            node == nodes@[i as int],
            keys@ == sibling_keys(nodes@, node.children@).take(j as int),
        decreases node.children@.len() - j,
    {
        let c = node.children[j];
        proof {
            assert(i < nodes@[i as int].children@[j as int] < nodes@.len());
            assert(sibling_keys(nodes@, node.children@).take(j as int + 1) =~= sibling_keys(
                nodes@,
                node.children@,
            ).take(j as int).push((nodes@[c as int].z_index as i64, nodes@[c as int].entity.0)));
        }
        keys.push((nodes[c].z_index as i64, nodes[c].entity.0));
        j = j + 1;
    }
    proof {
        assert(sibling_keys(nodes@, node.children@).take(j as int) =~= sibling_keys(nodes@, node.children@));
    }
    let kids = sorted_by(&keys, node.children.as_slice());
    proof {
        let order = sort_order(keys@);
        assert forall|m: int| 0 <= m < kids@.len() implies i < #[trigger] kids@[m] < nodes@.len() by {
            assert(order[m] < keys@.len());
            assert(kids@[m] == node.children@[order[m] as int]);
        }
    }
    let mut k: usize = 0;
    while k < kids.len()
        invariant
            k <= kids@.len(),
            forest_wf(nodes@),
            i < nodes@.len(),
            node == nodes@[i as int],
            kids@ == sorted_children(nodes@, node.children@),
            forall|m: int| 0 <= m < kids@.len() ==> i < #[trigger] kids@[m] < nodes@.len(),
            out@ == base + me + visit_kids(nodes@, i as int, kids@, k as int, z),
        decreases kids@.len() - k,
    {
        let c = kids[k];
        visit(nodes, c, z, out);
        proof {
            assert(base + me + visit_kids(nodes@, i as int, kids@, k as int + 1, z) =~= base + me
                + visit_kids(nodes@, i as int, kids@, k as int, z) + visit_spec(nodes@, c as int, z));
        }
        k = k + 1;
    }
    proof {
        assert(out@ =~= base + visit_spec(nodes@, i as int, inherited));
    }
}

/// The nodes that paint, as arena indices, in the order they paint:
/// the forest walked depth first from `roots` (roots by entity, siblings
/// by z-index then entity, each node before its children), then sorted
/// by global z-index, stably, so nodes with equal global z-index keep
/// their walk order.
pub fn paint_order(nodes: &[UiTreeNode], roots: &[usize]) -> (order: Vec<usize>)
    requires
        forest_wf(nodes@),
        forall|k: int| 0 <= k < roots@.len() ==> #[trigger] roots@[k] < nodes@.len(),
    ensures
        order@ == paint_order_spec(nodes@, roots@),
        stable_order(
            walk_keys(traversal(nodes@, roots@)),
            sort_order(walk_keys(traversal(nodes@, roots@))),
        ),
{
    let mut keys: Vec<(i64, u64)> = Vec::new();
    let mut j: usize = 0;
    while j < roots.len()
        invariant
            j <= roots@.len(),
            forall|k: int| 0 <= k < roots@.len() ==> #[trigger] roots@[k] < nodes@.len(),
            keys@ == root_keys(nodes@, roots@).take(j as int),
        decreases roots@.len() - j,
    {
        proof {
            assert(root_keys(nodes@, roots@).take(j as int + 1) =~= root_keys(nodes@, roots@).take(
                j as int,
            ).push((0i64, nodes@[roots@[j as int] as int].entity.0)));
        }
        keys.push((0, nodes[roots[j]].entity.0));
        j = j + 1;
    }
    proof {
        assert(root_keys(nodes@, roots@).take(j as int) =~= root_keys(nodes@, roots@));
    }
    let sorted = sorted_by(&keys, roots);
    proof {
        let order = sort_order(keys@);
        assert forall|m: int| 0 <= m < sorted@.len() implies #[trigger] sorted@[m] < nodes@.len() by {
            assert(order[m] < keys@.len());
        }
    }
    let mut walk: Vec<(usize, i32)> = Vec::new();
    let mut k: usize = 0;
    while k < sorted.len()
        invariant
            k <= sorted@.len(),
            forest_wf(nodes@),
            sorted@ == sorted_roots(nodes@, roots@),
            forall|m: int| 0 <= m < sorted@.len() ==> #[trigger] sorted@[m] < nodes@.len(),
            walk@ == visit_roots(nodes@, sorted@, k as int),
        decreases sorted@.len() - k,
    {
        visit(nodes, sorted[k], 0, &mut walk);
        k = k + 1;
    }
    let mut walk_key: Vec<(i64, u64)> = Vec::new();
    let mut indices: Vec<usize> = Vec::new();
    let mut m: usize = 0;
    while m < walk.len()
        invariant
            m <= walk@.len(),
            walk_key@ == walk_keys(walk@).take(m as int),
            indices@.len() == m,
            forall|q: int| 0 <= q < m ==> #[trigger] indices@[q] == walk@[q].0,
        decreases walk@.len() - m,
    {
        proof {
            assert(walk_keys(walk@).take(m as int + 1) =~= walk_keys(walk@).take(m as int).push(
                (walk@[m as int].1 as i64, 0u64),
            ));
        }
        walk_key.push((walk[m].1 as i64, 0));
        indices.push(walk[m].0);
        m = m + 1;
    }
    proof {
        assert(walk_keys(walk@).take(m as int) =~= walk_keys(walk@));
    }
    let order = sorted_by(&walk_key, indices.as_slice());
    proof {
        let o = sort_order(walk_key@);
        assert(order@ =~= o.map_values(|j: usize| walk@[j as int].0)) by {
            assert forall|q: int| 0 <= q < o.len() implies #[trigger] indices@[o[q] as int] == walk@[o[q] as int].0 by {
                assert(o[q] < walk_key@.len());
            }
        }
    }
    order
}

} // verus!
