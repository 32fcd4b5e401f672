//! Bounding-volume hierarchy: node storage and construction.
//!
//! Nodes live in a flat vector; a child is either a primitive (an arena
//! index) or another node (an index into the node vector, always smaller
//! than its parent's). Construction sorts each range by the bounding-box
//! minimum along the widest axis and splits at the midpoint.

use vstd::prelude::*;
use crate::aabb::{Aabb, merge_spec, axis_iv, aabb_wf, aabb_finite};
use crate::hittable::{Surface, surface_bounding_box, World, surf_bbox, box_covers,
    bvh_child_box, bvh_child_ref_ok, bvh_nd_wf, arena_wf, surf_wf};
use crate::hittable_list::HittableList;

verus! {

/// A child of a BVH node.
#[derive(Clone, Copy, Debug)]
pub enum BvhChild {
    /// An arena surface index (a leaf).
    Prim(usize),
    /// Another node, by index into the node vector.
    Node(usize),
}

#[derive(Clone, Copy, Debug)]
pub struct BvhNd {
    pub left: BvhChild,
    pub right: BvhChild,
    pub aabb: Aabb,
}

/// A built hierarchy: its node pool, the root child (absent when built
/// over nothing), and the root bounding box.
#[derive(Clone, Debug)]
pub struct BvhNode {
    pub nodes: Vec<BvhNd>,
    pub root: Option<BvhChild>,
    pub aabb: Aabb,
}

/// Node-pool shape: every node's node-children point strictly below it.
pub open spec fn bvh_nodes_acyclic(nodes: Seq<BvhNd>) -> bool {
    forall|j: int| 0 <= j < nodes.len() ==> child_measure(#[trigger] nodes[j].left) <= j
        && child_measure(nodes[j].right) <= j
}

/// Structural measure of a child: primitives are leaves, node children
/// are measured by their index plus one.
pub open spec fn child_measure(c: BvhChild) -> int {
    match c {
        BvhChild::Prim(_) => 0,
        BvhChild::Node(k) => k as int + 1,
    }
}

/// Whether a child reference is in range for the node pool.
pub open spec fn child_in_range(nodes: Seq<BvhNd>, c: BvhChild) -> bool {
    match c {
        BvhChild::Prim(_) => true,
        BvhChild::Node(k) => 0 <= k < nodes.len(),
    }
}



/// A box covers itself.
pub proof fn lemma_covers_refl(b: Aabb)
    ensures
        box_covers(b, b),
{
}

/// The bounding union covers whatever either operand covers.
pub proof fn lemma_merge_covers(a: Aabb, b: Aabb, x: Aabb)
    requires
        box_covers(a, x) || box_covers(b, x),
    ensures
        box_covers(merge_spec(a, b), x),
{
    assert forall|i: int| 0 <= i < 3 implies
        (#[trigger] axis_iv(merge_spec(a, b), i)).min <= axis_iv(x, i).min && axis_iv(x,
            i).max <= axis_iv(merge_spec(a, b), i).max by {
        if box_covers(a, x) {
            assert(axis_iv(a, i).min <= axis_iv(x, i).min && axis_iv(x, i).max
                <= axis_iv(a, i).max);
        } else {
            assert(axis_iv(b, i).min <= axis_iv(x, i).min && axis_iv(x, i).max
                <= axis_iv(b, i).max);
        }
        if i == 0 {
        } else if i == 1 {
        } else {
        }
    }
}

/// The bounding union stays within the sentinel bounds of its operands.
pub proof fn lemma_merge_wf(a: Aabb, b: Aabb)
    requires
        aabb_wf(a),
        aabb_wf(b),
    ensures
        aabb_wf(merge_spec(a, b)),
{
    assert forall|i: int| 0 <= i < 3 implies
        -(crate::fx::INF as int) - 4 <= (#[trigger] axis_iv(merge_spec(a, b), i)).min
            <= (crate::fx::INF as int) + 4 && -(crate::fx::INF as int) - 4 <= axis_iv(
            merge_spec(a, b), i).max <= (crate::fx::INF as int) + 4 by {
        assert(-(crate::fx::INF as int) - 4 <= axis_iv(a, i).min <= (crate::fx::INF as int)
            + 4);
        assert(-(crate::fx::INF as int) - 4 <= axis_iv(b, i).min <= (crate::fx::INF as int)
            + 4);
        if i == 0 {
        } else if i == 1 {
        } else {
        }
    }
}

/// A well-formed arena has well-formed stored boxes everywhere.
pub proof fn lemma_arena_boxes_wf(arena: Seq<Surface>, i: int)
    requires
        arena_wf(arena),
        0 <= i < arena.len(),
    ensures
        aabb_wf(surf_bbox(arena[i])),
{
    assert(surf_wf(arena, i));
    match arena[i] {
        Surface::Sphere(sp) => {
            assert forall|k: int| 0 <= k < 3 implies
                -(crate::fx::INF as int) - 4 <= (#[trigger] axis_iv(sp.aabb, k)).min
                    <= (crate::fx::INF as int) + 4 && -(crate::fx::INF as int) - 4
                    <= axis_iv(sp.aabb, k).max <= (crate::fx::INF as int) + 4 by {
                assert(-0x4000_0000 <= axis_iv(sp.aabb, k).min <= 0x4000_0000);
            }
        },
        Surface::Quad(q) => {
            assert forall|k: int| 0 <= k < 3 implies
                -(crate::fx::INF as int) - 4 <= (#[trigger] axis_iv(q.aabb, k)).min
                    <= (crate::fx::INF as int) + 4 && -(crate::fx::INF as int) - 4
                    <= axis_iv(q.aabb, k).max <= (crate::fx::INF as int) + 4 by {
                assert(-0x4000_0000 <= axis_iv(q.aabb, k).min <= 0x4000_0000);
            }
        },
        Surface::Translate(_) => {
        },
        Surface::RotateY(_) => {
        },
        Surface::Medium(_) => {
        },
        Surface::List(_) => {
        },
        Surface::Bvh(_) => {
        },
    }
}

/// Child boxes are unchanged when the node pool grows at the end.
proof fn lemma_child_box_extend(arena: Seq<Surface>, nodes1: Seq<BvhNd>, nodes2: Seq<BvhNd>,
    c: BvhChild)
    requires
        nodes1.len() <= nodes2.len(),
        forall|j: int| 0 <= j < nodes1.len() ==> #[trigger] nodes2[j] == nodes1[j],
        child_in_range(nodes1, c),
    ensures
        bvh_child_box(arena, nodes2, c) == bvh_child_box(arena, nodes1, c),
{
}

/// Node facts are unchanged when the node pool grows at the end.
proof fn lemma_nd_wf_extend(arena: Seq<Surface>, i: int, nodes1: Seq<BvhNd>,
    nodes2: Seq<BvhNd>, nd: BvhNd)
    requires
        nodes1.len() <= nodes2.len(),
        forall|j: int| 0 <= j < nodes1.len() ==> #[trigger] nodes2[j] == nodes1[j],
        bvh_nd_wf(arena, i, nodes1, nd),
        child_in_range(nodes1, nd.left),
        child_in_range(nodes1, nd.right),
    ensures
        bvh_nd_wf(arena, i, nodes2, nd),
{
    lemma_child_box_extend(arena, nodes1, nodes2, nd.left);
    lemma_child_box_extend(arena, nodes1, nodes2, nd.right);
}

/// Lower bound of a surface's box along `axis` (the BVH sort key).
fn box_axis_min(arena: &Vec<Surface>, id: usize, axis: usize) -> (r: i64)
    requires
        id < arena@.len(),
        axis < 3,
    ensures
        r == axis_iv(surf_bbox(arena@[id as int]), axis as int).min,
{
    let b = surface_bounding_box(arena, id);
    let iv = b.axis_interval(axis);
    iv.min
}

/// Insertion sort of `ids[lo..hi)` by box minimum along `axis`. Leaves
/// the rest of the vector untouched and permutes only that range.
fn sort_range(arena: &Vec<Surface>, ids: &mut Vec<usize>, lo: usize, hi: usize, axis: usize)
    requires
        lo <= hi <= old(ids)@.len(),
        axis < 3,
        forall|j: int| 0 <= j < old(ids)@.len() ==> #[trigger] old(ids)@[j] < arena@.len(),
    ensures
        final(ids)@.len() == old(ids)@.len(),
        final(ids)@.to_multiset() == old(ids)@.to_multiset(),
        forall|j: int| 0 <= j < final(ids)@.len() ==> #[trigger] final(ids)@[j]
            < arena@.len(),
        forall|j: int| (0 <= j < lo || hi <= j < final(ids)@.len()) ==>
            #[trigger] final(ids)@[j] == old(ids)@[j],
{
    let mut i: usize = lo;
    while i < hi
        invariant
            lo <= i <= hi <= ids@.len(),
            axis < 3,
            ids@.len() == old(ids)@.len(),
            ids@.to_multiset() == old(ids)@.to_multiset(),
            forall|j: int| 0 <= j < ids@.len() ==> #[trigger] ids@[j] < arena@.len(),
            forall|j: int| (0 <= j < lo || hi <= j < ids@.len()) ==>
                #[trigger] ids@[j] == old(ids)@[j],
        decreases hi - i,
    {
        let mut k: usize = i;
        while k > lo
            invariant
                lo <= k <= i < hi <= ids@.len(),
                axis < 3,
                ids@.len() == old(ids)@.len(),
                ids@.to_multiset() == old(ids)@.to_multiset(),
                forall|j: int| 0 <= j < ids@.len() ==> #[trigger] ids@[j] < arena@.len(),
                forall|j: int| (0 <= j < lo || hi <= j < ids@.len()) ==>
                    #[trigger] ids@[j] == old(ids)@[j],
            decreases k,
        {
            let a = ids[k - 1];
            let b = ids[k];
            if box_axis_min(arena, a, axis) > box_axis_min(arena, b, axis) {
                proof {
                    broadcast use vstd::seq_lib::group_to_multiset_ensures;
                    let sq = ids@;
                    let va = sq[k - 1int];
                    let vb = sq[k as int];
                    vstd::seq_lib::lemma_update_is_remove_insert(sq, k - 1int, vb);
                    vstd::seq_lib::lemma_update_is_remove_insert(sq.update(k - 1int, vb),
                        k as int, va);
                    assert(sq.update(k - 1int, vb)[k as int] == vb);
                    assert(sq.contains(va)) by {
                        assert(sq[k - 1int] == va);
                    }
                    assert(sq.to_multiset().count(va) > 0);
                    assert(sq.update(k - 1int, vb).update(k as int, va).to_multiset()
                        =~= sq.to_multiset());
                }
                let tmp = ids[k - 1];
                ids.set(k - 1, b);
                ids.set(k, tmp);
                k = k - 1;
            } else {
                break;
            }
        }
        i = i + 1;
    }
}

impl BvhNode {
    /// Build over the members of a list, reordering the list in place
    /// exactly as the recursive construction sorts its ranges.
    pub fn new_from_list(world: &World, list: &mut HittableList) -> (r: BvhNode)
        requires
            world.wf(),
        ensures
            final(list).objects@.len() == old(list).objects@.len(),
            final(list).aabb == old(list).aabb,
            r.root is Some ==> final(list).objects@.to_multiset()
                == old(list).objects@.to_multiset(),
            r.root is None ==> final(list).objects@ == old(list).objects@,
            bvh_built_ok(world.surfaces@, r),
            r.root is Some ==> (forall|k: int| 0 <= k < final(list).objects@.len() ==>
                box_covers(r.aabb, surf_bbox(world.surfaces@[
                    #[trigger] final(list).objects@[k] as int]))),
            (old(list).objects@.len() > 0 && (forall|j: int|
                0 <= j < old(list).objects@.len() ==> #[trigger] old(list).objects@[j]
                < world.surfaces@.len())) ==> r.root is Some,
    {
        Self::build(&world.surfaces, &mut list.objects)
    }

    /// Build a hierarchy over the given arena indices (reordered in
    /// place). An empty or out-of-range index set yields the empty
    /// hierarchy; otherwise the returned pool is acyclic and well formed,
    /// every node's box covers its children, and the root box covers the
    /// box of every member.
    pub fn build(arena: &Vec<Surface>, ids: &mut Vec<usize>) -> (r: BvhNode)
        requires
            arena_wf(arena@),
        ensures
            final(ids)@.len() == old(ids)@.len(),
            r.root is Some ==> final(ids)@.to_multiset() == old(ids)@.to_multiset(),
            r.root is None ==> final(ids)@ == old(ids)@,
            bvh_built_ok(arena@, r),
            r.root is Some ==> (forall|k: int| 0 <= k < final(ids)@.len() ==>
                box_covers(r.aabb, surf_bbox(arena@[#[trigger] final(ids)@[k] as int]))),
            (old(ids)@.len() > 0 && (forall|j: int| 0 <= j < old(ids)@.len() ==>
                #[trigger] old(ids)@[j] < arena@.len())) ==> r.root is Some,
    {
        let n = ids.len();
        let mut valid = true;
        let mut k: usize = 0;
        while k < n
            invariant
                n == ids@.len(),
                k <= n,
                ids@ == old(ids)@,
                valid ==> (forall|j: int| 0 <= j < k ==> #[trigger] ids@[j] < arena@.len()),
                !valid ==> !(forall|j: int| 0 <= j < ids@.len() ==> #[trigger] ids@[j]
                    < arena@.len()),
            decreases n - k,
        {
            if ids[k] >= arena.len() {
                proof {
                    assert(!(forall|j: int| 0 <= j < ids@.len() ==> #[trigger] ids@[j]
                        < arena@.len())) by {
                        if forall|j: int| 0 <= j < ids@.len() ==> #[trigger] ids@[j]
                            < arena@.len() {
                            assert(ids@[k as int] < arena@.len());
                        }
                    }
                }
                valid = false;
            }
            k = k + 1;
        }
        if n == 0 || !valid {
            return BvhNode { nodes: Vec::new(), root: None, aabb: Aabb::empty() };
        }
        let mut nodes: Vec<BvhNd> = Vec::new();
        let root = build_range(arena, ids, 0, n, &mut nodes);
        let aabb = match root {
            BvhChild::Prim(p) => surface_bounding_box(arena, p),
            BvhChild::Node(j) => nodes[j].aabb,
        };
        proof {
            assert(aabb == bvh_child_box(arena@, nodes@, root));
            lemma_covers_refl(aabb);
        }
        BvhNode { nodes, root: Some(root), aabb }
    }
}

/// The structural promises of a built hierarchy: acyclic well-formed
/// nodes whose boxes cover their children, a valid root whose box the
/// stored box covers.
pub open spec fn bvh_built_ok(arena: Seq<Surface>, b: BvhNode) -> bool {
    &&& bvh_nodes_acyclic(b.nodes@)
    &&& (forall|j: int| 0 <= j < b.nodes@.len() ==> bvh_nd_wf(arena, arena.len() as int,
        b.nodes@, #[trigger] b.nodes@[j]))
    &&& aabb_wf(b.aabb)
    &&& match b.root {
        Some(c) => {
            &&& child_in_range(b.nodes@, c)
            &&& bvh_child_ref_ok(arena, arena.len() as int, b.nodes@, c)
            &&& box_covers(b.aabb, bvh_child_box(arena, b.nodes@, c))
        },
        None => true,
    }
}


/// A hierarchy the builder produced is a well-formed arena entry: pushing
/// it onto the very arena it was built over always validates, so
/// `World::add` is guaranteed to accept it.
pub proof fn lemma_built_bvh_wf(arena: Seq<Surface>, b: BvhNode)
    requires
        bvh_built_ok(arena, b),
    ensures
        surf_wf(arena.push(Surface::Bvh(b)), arena.len() as int),
{
    let a2 = arena.push(Surface::Bvh(b));
    let n = arena.len() as int;
    assert(a2[n] == Surface::Bvh(b));
    assert forall|j: int| 0 <= j < b.nodes@.len() implies bvh_nd_wf(a2, n, b.nodes@,
        #[trigger] b.nodes@[j]) by {
        crate::hittable::lemma_bvh_nd_wf_push(arena, Surface::Bvh(b), n, b.nodes@,
            b.nodes@[j]);
    }
    match b.root {
        Some(c) => {
            crate::hittable::lemma_child_box_push(arena, Surface::Bvh(b), b.nodes@, c);
            assert(child_in_range(b.nodes@, c));
            assert(bvh_child_ref_ok(a2, n, b.nodes@, c));
            assert(box_covers(b.aabb, bvh_child_box(a2, b.nodes@, c)));
            assert(aabb_wf(b.aabb));
        },
        None => {
        },
    }
    assert(surf_wf(a2, n));
}

/// Recursive median-split construction over `ids[lo..hi)`.
fn build_range(arena: &Vec<Surface>, ids: &mut Vec<usize>, lo: usize, hi: usize,
    nodes: &mut Vec<BvhNd>) -> (c: BvhChild)
    requires
        arena_wf(arena@),
        lo < hi <= old(ids)@.len(),
        forall|j: int| 0 <= j < old(ids)@.len() ==> #[trigger] old(ids)@[j] < arena@.len(),
        bvh_nodes_acyclic(old(nodes)@),
        forall|j: int| 0 <= j < old(nodes)@.len() ==> bvh_nd_wf(arena@, arena@.len() as int,
            old(nodes)@, #[trigger] old(nodes)@[j]),
    ensures
        final(ids)@.len() == old(ids)@.len(),
        final(ids)@.to_multiset() == old(ids)@.to_multiset(),
        forall|j: int| 0 <= j < final(ids)@.len() ==> #[trigger] final(ids)@[j]
            < arena@.len(),
        forall|j: int| (0 <= j < lo || hi <= j < final(ids)@.len()) ==>
            #[trigger] final(ids)@[j] == old(ids)@[j],
        final(nodes)@.len() >= old(nodes)@.len(),
        forall|j: int| 0 <= j < old(nodes)@.len() ==> #[trigger] final(nodes)@[j]
            == old(nodes)@[j],
        bvh_nodes_acyclic(final(nodes)@),
        forall|j: int| 0 <= j < final(nodes)@.len() ==> bvh_nd_wf(arena@,
            arena@.len() as int, final(nodes)@, #[trigger] final(nodes)@[j]),
        child_in_range(final(nodes)@, c),
        bvh_child_ref_ok(arena@, arena@.len() as int, final(nodes)@, c),
        aabb_wf(bvh_child_box(arena@, final(nodes)@, c)),
        forall|k: int| lo <= k < hi ==> box_covers(bvh_child_box(arena@, final(nodes)@, c),
            surf_bbox(arena@[#[trigger] final(ids)@[k] as int])),
    decreases hi - lo,
{
    let n = hi - lo;
    // Bounding box of the whole range, to pick the split axis.
    let mut range_box = Aabb::empty();
    let mut k: usize = lo;
    while k < hi
        invariant
            lo <= k <= hi <= ids@.len(),
            forall|j: int| 0 <= j < ids@.len() ==> #[trigger] ids@[j] < arena@.len(),
        decreases hi - k,
    {
        let b = surface_bounding_box(arena, ids[k]);
        range_box = range_box.merge(&b);
        k = k + 1;
    }
    let sx: i128 = (range_box.x.max as i128) - (range_box.x.min as i128);
    let sy: i128 = (range_box.y.max as i128) - (range_box.y.min as i128);
    let sz: i128 = (range_box.z.max as i128) - (range_box.z.min as i128);
    let axis: usize = if sx >= sy && sx >= sz {
        0
    } else if sy >= sz {
        1
    } else {
        2
    };
    if n == 1 {
        let p = ids[lo];
        let pb = surface_bounding_box(arena, p);
        proof {
            lemma_arena_boxes_wf(arena@, p as int);
            lemma_covers_refl(pb);
        }
        let nd = BvhNd { left: BvhChild::Prim(p), right: BvhChild::Prim(p), aabb: pb };
        let idx = nodes.len();
        let ghost before = nodes@;
        nodes.push(nd);
        proof {
            assert forall|j: int| 0 <= j < nodes@.len() implies bvh_nd_wf(arena@,
                arena@.len() as int, nodes@, #[trigger] nodes@[j]) by {
                if j < before.len() {
                    lemma_nd_wf_extend(arena@, arena@.len() as int, before, nodes@,
                        nodes@[j]);
                }
            }
        }
        return BvhChild::Node(idx);
    }
    if n == 2 {
        let p0 = ids[lo];
        let p1 = ids[lo + 1];
        let b0 = surface_bounding_box(arena, p0);
        let b1 = surface_bounding_box(arena, p1);
        proof {
            lemma_arena_boxes_wf(arena@, p0 as int);
            lemma_arena_boxes_wf(arena@, p1 as int);
            lemma_covers_refl(b0);
            lemma_covers_refl(b1);
            lemma_merge_covers(b0, b1, b0);
            lemma_merge_covers(b0, b1, b1);
            lemma_merge_wf(b0, b1);
        }
        let nd = BvhNd {
            left: BvhChild::Prim(p0),
            right: BvhChild::Prim(p1),
            aabb: b0.merge(&b1),
        };
        let idx = nodes.len();
        let ghost before = nodes@;
        nodes.push(nd);
        proof {
            assert forall|j: int| 0 <= j < nodes@.len() implies bvh_nd_wf(arena@,
                arena@.len() as int, nodes@, #[trigger] nodes@[j]) by {
                if j < before.len() {
                    lemma_nd_wf_extend(arena@, arena@.len() as int, before, nodes@,
                        nodes@[j]);
                }
            }
        }
        return BvhChild::Node(idx);
    }
    sort_range(arena, ids, lo, hi, axis);
    let mid = lo + n / 2;
    let left = build_range(arena, ids, lo, mid, nodes);
    let ghost nodes_l = nodes@;
    let ghost ids_l = ids@;
    let right = build_range(arena, ids, mid, hi, nodes);
    proof {
        lemma_child_box_extend(arena@, nodes_l, nodes@, left);
        assert forall|k: int| lo <= k < mid implies box_covers(bvh_child_box(arena@,
            nodes@, left), surf_bbox(arena@[#[trigger] ids@[k] as int])) by {
            assert(ids@[k] == ids_l[k]);
            assert(box_covers(bvh_child_box(arena@, nodes_l, left),
                surf_bbox(arena@[ids_l[k] as int])));
        }
    }
    let lb = match left {
        BvhChild::Prim(p) => surface_bounding_box(arena, p),
        BvhChild::Node(j) => nodes[j].aabb,
    };
    let rb = match right {
        BvhChild::Prim(p) => surface_bounding_box(arena, p),
        BvhChild::Node(j) => nodes[j].aabb,
    };
    proof {
        assert(lb == bvh_child_box(arena@, nodes@, left));
        assert(rb == bvh_child_box(arena@, nodes@, right));
        lemma_merge_wf(lb, rb);
        assert forall|k: int| lo <= k < hi implies box_covers(merge_spec(lb, rb),
            surf_bbox(arena@[#[trigger] ids@[k] as int])) by {
            if k < mid {
                lemma_merge_covers(lb, rb, surf_bbox(arena@[ids@[k] as int]));
            } else {
                lemma_merge_covers(lb, rb, surf_bbox(arena@[ids@[k] as int]));
            }
        }
        lemma_merge_covers(lb, rb, lb);
        lemma_merge_covers(lb, rb, rb);
    }
    let nd = BvhNd { left, right, aabb: lb.merge(&rb) };
    let idx = nodes.len();
    let ghost before = nodes@;
    nodes.push(nd);
    proof {
        assert forall|j: int| 0 <= j < nodes@.len() implies bvh_nd_wf(arena@,
            arena@.len() as int, nodes@, #[trigger] nodes@[j]) by {
            if j < before.len() {
                lemma_nd_wf_extend(arena@, arena@.len() as int, before, nodes@, nodes@[j]);
            } else {
                lemma_child_box_extend(arena@, before, nodes@, left);
                lemma_child_box_extend(arena@, before, nodes@, right);
            }
        }
        assert forall|k: int| lo <= k < hi implies box_covers(bvh_child_box(arena@, nodes@,
            BvhChild::Node(idx)), surf_bbox(arena@[#[trigger] ids@[k] as int])) by {
        }
    }
    BvhChild::Node(idx)
}

} // verus!
