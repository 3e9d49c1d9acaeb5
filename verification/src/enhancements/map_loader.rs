//! The level's collision mesh: triangles under a bounding volume hierarchy
//! that is laid out as one array of nodes.
//!
//! The root is node 0. A node with `count == 0` is a branch: its left child
//! is the next node of the array and `offset` is the index of its right
//! child. A node with `count > 0` is a leaf: `offset` is the index of its
//! first triangle and `count` triangles follow.

use vstd::prelude::*;
use crate::enhancements::geometry::Aabb;
use crate::enhancements::geometry::Point;
use crate::enhancements::geometry::Triangle;
use crate::enhancements::geometry::bounds_of;
use crate::enhancements::geometry::bounds_of_range;
use crate::enhancements::geometry::centroid;
use crate::enhancements::geometry::lemma_bounds_hold_part;
use crate::enhancements::geometry::lemma_bounds_hold_triangle;
use crate::enhancements::geometry::lemma_bounds_of_frame;
use crate::enhancements::geometry::lemma_bounds_of_one;
use crate::enhancements::geometry::lemma_bounds_of_permutation;
use crate::enhancements::geometry::lemma_same_members;
use crate::enhancements::geometry::occurs_in;

verus! {

/// The most triangles that a leaf holds.
pub const LEAF_SIZE: usize = 8;

/// One node of the hierarchy.
#[derive(Clone, Copy, PartialEq, Eq, Structural, Debug)]
pub struct LinearNode {
    pub aabb: Aabb,
    pub offset: u32,
    pub count: u16,
}

impl LinearNode {
    /// The node is a leaf: it names triangles.
    pub open spec fn is_leaf(self) -> bool {
        self.count > 0
    }
}

/// Along `axis`, no triangle of `tris[lo..mid]` lies after one of
/// `tris[mid..hi]`.
pub open spec fn is_split(tris: Seq<Triangle>, lo: int, mid: int, hi: int, axis: int) -> bool {
    forall|a: int, b: int|
        lo <= a < mid && mid <= b < hi ==> #[trigger] tris[a].key(axis) <= #[trigger] tris[b].key(
            axis,
        )
}

/// Where a run of triangles is cut in two: at its median.
pub open spec fn median(lo: int, hi: int) -> int {
    lo + (hi - lo) / 2
}

/// `nodes[at..end]` is the hierarchy over `tris[lo..hi]`, root first.
///
/// The root's box is the exact box of the run. A run of at most eight
/// triangles is a single leaf. A longer run is a branch: the run is cut at
/// its median along the widest axis of the root's box, the hierarchy over
/// the first half follows the root at once, and the one over the second
/// half starts at the root's `offset`.
pub open spec fn is_subtree(
    nodes: Seq<LinearNode>,
    tris: Seq<Triangle>,
    at: int,
    end: int,
    lo: int,
    hi: int,
) -> bool
    decreases end - at,
{
    &&& 0 <= at < end <= nodes.len()
    &&& 0 <= lo < hi <= tris.len()
    &&& nodes[at].aabb == bounds_of(tris, lo, hi)
    &&& if hi - lo <= LEAF_SIZE {
        &&& end == at + 1
        &&& nodes[at].offset == lo
        &&& nodes[at].count == hi - lo
    } else {
        let right = nodes[at].offset as int;
        &&& nodes[at].count == 0
        &&& at + 1 < right < end
        &&& is_subtree(nodes, tris, at + 1, right, lo, median(lo, hi))
        &&& is_subtree(nodes, tris, right, end, median(lo, hi), hi)
        &&& is_split(tris, lo, median(lo, hi), hi, nodes[at].aabb.widest_axis())
    }
}

/// The most nodes that a hierarchy over `k` triangles has.
pub open spec fn node_limit(k: int) -> int {
    if k <= 1 {
        1
    } else {
        k - 1
    }
}

/// Whether `nodes[at..end]` is the hierarchy over `tris[lo..hi]` depends on
/// those nodes and those triangles alone.
pub proof fn lemma_subtree_frame(
    n1: Seq<LinearNode>,
    t1: Seq<Triangle>,
    n2: Seq<LinearNode>,
    t2: Seq<Triangle>,
    at: int,
    end: int,
    lo: int,
    hi: int,
)
    requires
        is_subtree(n1, t1, at, end, lo, hi),
        end <= n2.len(),
        hi <= t2.len(),
        forall|i: int| at <= i < end ==> n1[i] == n2[i],
        forall|k: int| lo <= k < hi ==> t1[k] == t2[k],
    ensures
        is_subtree(n2, t2, at, end, lo, hi),
    decreases end - at,
{
    lemma_bounds_of_frame(t1, t2, lo, hi);
    if hi - lo > LEAF_SIZE {
        let right = n1[at].offset as int;
        let mid = median(lo, hi);
        lemma_subtree_frame(n1, t1, n2, t2, at + 1, right, lo, mid);
        lemma_subtree_frame(n1, t1, n2, t2, right, end, mid, hi);
        let axis = n1[at].aabb.widest_axis();
        assert forall|a: int, b: int| lo <= a < mid && mid <= b < hi implies #[trigger] t2[a].key(
            axis,
        ) <= #[trigger] t2[b].key(axis) by {
            assert(t1[a].key(axis) <= t1[b].key(axis));
        }
    }
}

/// Reordering each half of a split run within itself keeps the run split.
pub proof fn lemma_split_permuted(
    t1: Seq<Triangle>,
    t2: Seq<Triangle>,
    lo: int,
    mid: int,
    hi: int,
    axis: int,
)
    requires
        0 <= lo <= mid <= hi <= t1.len(),
        hi <= t2.len(),
        is_split(t1, lo, mid, hi, axis),
        t1.subrange(lo, mid).to_multiset() == t2.subrange(lo, mid).to_multiset(),
        t1.subrange(mid, hi).to_multiset() == t2.subrange(mid, hi).to_multiset(),
    ensures
        is_split(t2, lo, mid, hi, axis),
{
    lemma_same_members(t1, t2, lo, mid);
    lemma_same_members(t1, t2, mid, hi);
    assert forall|a: int, b: int| lo <= a < mid && mid <= b < hi implies #[trigger] t2[a].key(
        axis,
    ) <= #[trigger] t2[b].key(axis) by {
        assert(occurs_in(t1, lo, mid, t2[a]));
        assert(occurs_in(t1, mid, hi, t2[b]));
        let a1 = choose|j: int| lo <= j < mid && t1[j] == t2[a];
        let b1 = choose|j: int| mid <= j < hi && t1[j] == t2[b];
        assert(t1[a1].key(axis) <= t1[b1].key(axis));
    }
}

/// A run keeps its triangles where each of its two parts keeps its own.
pub proof fn lemma_multiset_of_parts(
    t1: Seq<Triangle>,
    t2: Seq<Triangle>,
    lo: int,
    mid: int,
    hi: int,
)
    requires
        0 <= lo <= mid <= hi <= t1.len(),
        hi <= t2.len(),
        t1.subrange(lo, mid).to_multiset() == t2.subrange(lo, mid).to_multiset(),
        t1.subrange(mid, hi).to_multiset() == t2.subrange(mid, hi).to_multiset(),
    ensures
        t1.subrange(lo, hi).to_multiset() == t2.subrange(lo, hi).to_multiset(),
{
    assert(t1.subrange(lo, hi) =~= t1.subrange(lo, mid) + t1.subrange(mid, hi));
    assert(t2.subrange(lo, hi) =~= t2.subrange(lo, mid) + t2.subrange(mid, hi));
    vstd::seq_lib::lemma_multiset_commutative(t1.subrange(lo, mid), t1.subrange(mid, hi));
    vstd::seq_lib::lemma_multiset_commutative(t2.subrange(lo, mid), t2.subrange(mid, hi));
}

/// Reorders `tris[lo..hi]` so that the triangle at `lo + nth` is the one
/// that a sort by the centre's coordinate on `axis` would put there.
///
/// This is `select_nth_unstable_by_key` of the standard library's slices.
/// The contract says what its documentation promises: the run keeps its
/// triangles, no triangle before the chosen position has a greater key than
/// the one there, and none after it a lesser. Which of the orders that meet
/// this comes out is left open. Everything outside the run stays.
#[verifier::external_body]
fn select_nth_by_center(tris: &mut Vec<Triangle>, lo: usize, hi: usize, nth: usize, axis: u8)
    requires
        lo <= hi <= old(tris)@.len(),
        nth < hi - lo,
    ensures
        final(tris)@.len() == old(tris)@.len(),
        forall|k: int|
            0 <= k < lo || hi <= k < old(tris)@.len() ==> final(tris)@[k] == old(tris)@[k],
        final(tris)@.subrange(lo as int, hi as int).to_multiset() == old(tris)@.subrange(
            lo as int,
            hi as int,
        ).to_multiset(),
        forall|k: int|
            lo <= k < lo + nth ==> (#[trigger] final(tris)@[k]).key(axis as int)
                <= final(tris)@[lo + nth].key(axis as int),
        forall|k: int|
            lo + nth < k < hi ==> final(tris)@[lo + nth].key(axis as int)
                <= (#[trigger] final(tris)@[k]).key(axis as int),
{
    tris[lo..hi].select_nth_unstable_by_key(nth, |t| t.center_on(axis));
}

/// Appends to `nodes` the hierarchy over `tris[lo..hi]`, reordering that
/// run as the splits require.
#[verifier::rlimit(40)]
fn build_range(tris: &mut Vec<Triangle>, lo: usize, hi: usize, nodes: &mut Vec<LinearNode>)
    requires
        lo < hi <= old(tris)@.len() <= u32::MAX,
        old(nodes)@.len() + (hi - lo) <= u32::MAX,
    ensures
        final(tris)@.len() == old(tris)@.len(),
        forall|k: int|
            0 <= k < lo || hi <= k < old(tris)@.len() ==> final(tris)@[k] == old(tris)@[k],
        final(tris)@.subrange(lo as int, hi as int).to_multiset() == old(tris)@.subrange(
            lo as int,
            hi as int,
        ).to_multiset(),
        old(nodes)@.len() < final(nodes)@.len() <= old(nodes)@.len() + node_limit(hi - lo),
        final(nodes)@.subrange(0, old(nodes)@.len() as int) == old(nodes)@,
        is_subtree(
            final(nodes)@,
            final(tris)@,
            old(nodes)@.len() as int,
            final(nodes)@.len() as int,
            lo as int,
            hi as int,
        ),
    decreases hi - lo,
{
    let ghost t0 = tris@;
    let ghost n0 = nodes@;
    let at = nodes.len();
    let aabb = bounds_of_range(tris, lo, hi);
    if hi - lo <= LEAF_SIZE {
        nodes.push(LinearNode { aabb, offset: lo as u32, count: (hi - lo) as u16 });
        assert(nodes@.subrange(0, at as int) =~= n0);
        return ;
    }
    nodes.push(LinearNode { aabb, offset: 0, count: 0 });
    let ghost n1 = nodes@;
    let axis = aabb.split_axis();
    let mid = lo + (hi - lo) / 2;
    select_nth_by_center(tris, lo, hi, mid - lo, axis);
    let ghost t1 = tris@;
    proof {
        assert forall|a: int, b: int| lo <= a < mid && mid <= b < hi implies #[trigger] t1[a].key(
            axis as int,
        ) <= #[trigger] t1[b].key(axis as int) by {
            assert(t1[a].key(axis as int) <= t1[mid as int].key(axis as int));
        }
        assert(is_split(t1, lo as int, mid as int, hi as int, axis as int));
    }
    build_range(tris, lo, mid, nodes);
    let ghost t2 = tris@;
    let ghost n2 = nodes@;
    let right = nodes.len();
    proof {
        assert(t1.subrange(mid as int, hi as int) =~= t2.subrange(mid as int, hi as int));
    }
    build_range(tris, mid, hi, nodes);
    let ghost t3 = tris@;
    let ghost n3 = nodes@;
    nodes.set(at, LinearNode { aabb, offset: right as u32, count: 0 });
    proof {
        let n4 = nodes@;
        let end = n4.len() as int;
        assert(t2.subrange(lo as int, mid as int) =~= t3.subrange(lo as int, mid as int));
        // the run keeps its triangles through the three steps
        lemma_multiset_of_parts(t1, t2, lo as int, mid as int, hi as int);
        lemma_multiset_of_parts(t2, t3, lo as int, mid as int, hi as int);
        // the halves stay split
        lemma_split_permuted(t1, t2, lo as int, mid as int, hi as int, axis as int);
        lemma_split_permuted(t2, t3, lo as int, mid as int, hi as int, axis as int);
        // the root's box is still exact
        lemma_bounds_of_permutation(t0, t3, lo as int, hi as int);
        // the two subtrees are untouched by what followed them
        assert forall|i: int| at + 1 <= i < right implies n2[i] == n4[i] by {
            assert(n3.subrange(0, n2.len() as int)[i] == n3[i]);
        }
        lemma_subtree_frame(n2, t2, n4, t3, at as int + 1, right as int, lo as int, mid as int);
        lemma_subtree_frame(n3, t3, n4, t3, right as int, end, mid as int, hi as int);
        assert forall|i: int| 0 <= i < at implies n4[i] == n0[i] by {
            assert(n3.subrange(0, n2.len() as int)[i] == n3[i]);
            assert(n2.subrange(0, n1.len() as int)[i] == n2[i]);
        }
        assert(n4.subrange(0, at as int) =~= n0);
        assert(median(lo as int, hi as int) == mid);
    }
}

/// `nodes` is the hierarchy over all of `tris`: empty where there is no
/// triangle, else rooted at node 0.
pub open spec fn is_hierarchy(nodes: Seq<LinearNode>, tris: Seq<Triangle>) -> bool {
    if tris.len() == 0 {
        nodes.len() == 0
    } else {
        is_subtree(nodes, tris, 0, nodes.len() as int, 0, tris.len() as int)
    }
}

/// The indices `lo`, `lo + 1`, and so on up to `hi - 1`.
pub open spec fn ascending(lo: int, hi: int) -> Seq<int> {
    Seq::new((hi - lo) as nat, |k: int| lo + k)
}

/// The indices of the triangles that a node names as a leaf; none for a
/// branch.
pub open spec fn leaf_span(node: LinearNode) -> Seq<int> {
    ascending(node.offset as int, node.offset + node.count)
}

/// The indices of the triangles met when the leaves among `nodes[at..end]`
/// are visited one after the other.
pub open spec fn leaf_run(nodes: Seq<LinearNode>, at: int, end: int) -> Seq<int>
    decreases end - at,
{
    if end <= at {
        Seq::empty()
    } else {
        leaf_run(nodes, at, end - 1) + leaf_span(nodes[end - 1])
    }
}

/// Visiting the leaves of a run of nodes is visiting those of its first
/// part and then those of the rest.
pub proof fn lemma_leaf_run_parts(nodes: Seq<LinearNode>, at: int, mid: int, end: int)
    requires
        at <= mid <= end,
    ensures
        leaf_run(nodes, at, end) == leaf_run(nodes, at, mid) + leaf_run(nodes, mid, end),
    decreases end - mid,
{
    if end == mid {
        assert(leaf_run(nodes, at, mid) + Seq::<int>::empty() =~= leaf_run(nodes, at, mid));
    } else {
        lemma_leaf_run_parts(nodes, at, mid, end - 1);
        assert((leaf_run(nodes, at, mid) + leaf_run(nodes, mid, end - 1)) + leaf_span(
            nodes[end - 1],
        ) =~= leaf_run(nodes, at, mid) + (leaf_run(nodes, mid, end - 1) + leaf_span(
            nodes[end - 1],
        )));
    }
}

/// The leaves of a hierarchy name every triangle of its run exactly once,
/// and in the order of the triangle array: none is left out and none is
/// named twice.
pub proof fn lemma_leaves_cover(
    nodes: Seq<LinearNode>,
    tris: Seq<Triangle>,
    at: int,
    end: int,
    lo: int,
    hi: int,
)
    requires
        is_subtree(nodes, tris, at, end, lo, hi),
    ensures
        leaf_run(nodes, at, end) == ascending(lo, hi),
    decreases end - at,
{
    assert(leaf_run(nodes, at, at) =~= Seq::<int>::empty());
    if hi - lo <= LEAF_SIZE {
        assert(leaf_run(nodes, at, end) =~= leaf_span(nodes[at]));
        assert(leaf_span(nodes[at]) =~= ascending(lo, hi));
    } else {
        let right = nodes[at].offset as int;
        let mid = median(lo, hi);
        lemma_leaves_cover(nodes, tris, at + 1, right, lo, mid);
        lemma_leaves_cover(nodes, tris, right, end, mid, hi);
        lemma_leaf_run_parts(nodes, at, at + 1, end);
        lemma_leaf_run_parts(nodes, at + 1, right, end);
        assert(leaf_span(nodes[at]) =~= Seq::<int>::empty());
        assert(leaf_run(nodes, at, at + 1) =~= Seq::<int>::empty());
        assert(ascending(lo, mid) + ascending(mid, hi) =~= ascending(lo, hi));
        assert(leaf_run(nodes, at, end) =~= ascending(lo, hi));
    }
}

/// The leaves of the hierarchy over a mesh, visited in the order of the
/// node array, name the triangles of the mesh from the first to the last,
/// each once.
pub proof fn lemma_hierarchy_covers(nodes: Seq<LinearNode>, tris: Seq<Triangle>)
    requires
        is_hierarchy(nodes, tris),
    ensures
        leaf_run(nodes, 0, nodes.len() as int) == ascending(0, tris.len() as int),
{
    if tris.len() > 0 {
        lemma_leaves_cover(nodes, tris, 0, nodes.len() as int, 0, tris.len() as int);
    } else {
        assert(ascending(0, 0) =~= Seq::<int>::empty());
    }
}

/// Every node of a hierarchy is itself the root of the hierarchy over some
/// run of the triangles. The result is where that hierarchy ends in the
/// node array and the run that it is over.
pub proof fn lemma_node_roots_subtree(
    nodes: Seq<LinearNode>,
    tris: Seq<Triangle>,
    at: int,
    end: int,
    lo: int,
    hi: int,
    i: int,
) -> (r: (int, int, int))
    requires
        is_subtree(nodes, tris, at, end, lo, hi),
        at <= i < end,
    ensures
        is_subtree(nodes, tris, i, r.0, r.1, r.2),
        i < r.0 <= end,
        lo <= r.1 < r.2 <= hi,
    decreases end - at,
{
    if i == at {
        (end, lo, hi)
    } else {
        let right = nodes[at].offset as int;
        let mid = median(lo, hi);
        if i < right {
            lemma_node_roots_subtree(nodes, tris, at + 1, right, lo, mid, i)
        } else {
            lemma_node_roots_subtree(nodes, tris, right, end, mid, hi, i)
        }
    }
}

/// What a node's box holds: the box of a branch holds the boxes of both
/// its children, and the box of a leaf holds every vertex of each of its
/// triangles.
pub open spec fn node_holds_its_own(nodes: Seq<LinearNode>, tris: Seq<Triangle>, i: int) -> bool {
    let node = nodes[i];
    if node.is_leaf() {
        &&& node.offset + node.count <= tris.len()
        &&& forall|k: int|
            node.offset <= k < node.offset + node.count ==> node.aabb.contains_triangle(
                #[trigger] tris[k],
            )
    } else {
        &&& i + 1 < nodes.len()
        &&& i + 1 < node.offset < nodes.len()
        &&& node.aabb.contains_box(nodes[i + 1].aabb)
        &&& node.aabb.contains_box(nodes[node.offset as int].aabb)
    }
}

/// In a hierarchy every node's box holds what lies below the node.
pub proof fn lemma_every_node_bounds(nodes: Seq<LinearNode>, tris: Seq<Triangle>, i: int)
    requires
        is_hierarchy(nodes, tris),
        0 <= i < nodes.len(),
    ensures
        node_holds_its_own(nodes, tris, i),
{
    let r = lemma_node_roots_subtree(nodes, tris, 0, nodes.len() as int, 0, tris.len() as int, i);
    let (end, lo, hi) = r;
    let node = nodes[i];
    if hi - lo <= LEAF_SIZE {
        assert forall|k: int|
            node.offset <= k < node.offset + node.count implies node.aabb.contains_triangle(
            #[trigger] tris[k],
        ) by {
            lemma_bounds_hold_triangle(tris, lo, hi, k);
        }
    } else {
        let mid = median(lo, hi);
        reveal_with_fuel(is_subtree, 2);
        lemma_bounds_hold_part(tris, lo, hi, lo, mid);
        lemma_bounds_hold_part(tris, lo, hi, mid, hi);
    }
}

/// The hierarchy over a single triangle is one leaf that names it, and the
/// leaf's box is the triangle's own.
pub proof fn lemma_single_triangle(nodes: Seq<LinearNode>, tris: Seq<Triangle>)
    requires
        is_hierarchy(nodes, tris),
        tris.len() == 1,
    ensures
        nodes.len() == 1,
        nodes[0].offset == 0,
        nodes[0].count == 1,
        nodes[0].aabb == tris[0].bounds(),
{
    lemma_bounds_of_one(tris, 0);
}

/// The collision mesh of a level: the triangles in the order in which the
/// leaves name them, and the nodes of the hierarchy over them.
pub struct MapMesh {
    pub triangles: Vec<Triangle>,
    pub nodes: Vec<LinearNode>,
}

impl MapMesh {
    /// The nodes are the hierarchy over the triangles.
    pub open spec fn well_formed(self) -> bool {
        &&& self.triangles@.len() <= u32::MAX
        &&& is_hierarchy(self.nodes@, self.triangles@)
    }

    /// Orders the triangles for the hierarchy and lays out its nodes.
    ///
    /// What comes back holds exactly the triangles that went in. Without a
    /// triangle there is no node.
    pub fn build_linear_bvh(triangles: Vec<Triangle>) -> (out: (Vec<Triangle>, Vec<LinearNode>))
        requires
            triangles@.len() <= u32::MAX,
        ensures
            out.0@.to_multiset() == triangles@.to_multiset(),
            out.0@.len() == triangles@.len(),
            is_hierarchy(out.1@, out.0@),
            out.1@.len() <= node_limit(triangles@.len() as int),
    {
        let mut tris = triangles;
        let mut nodes: Vec<LinearNode> = Vec::new();
        let n = tris.len();
        if n > 0 {
            let ghost t0 = tris@;
            build_range(&mut tris, 0, n, &mut nodes);
            proof {
                assert(t0.subrange(0, n as int) =~= t0);
                assert(tris@.subrange(0, n as int) =~= tris@);
            }
        } else {
            assert(tris@ =~= triangles@);
        }
        (tris, nodes)
    }

    /// The mesh over the given triangles.
    pub fn from_triangles(triangles: Vec<Triangle>) -> (mesh: MapMesh)
        requires
            triangles@.len() <= u32::MAX,
        ensures
            mesh.well_formed(),
            mesh.triangles@.to_multiset() == triangles@.to_multiset(),
            mesh.triangles@.len() == triangles@.len(),
            mesh.nodes@.len() <= node_limit(triangles@.len() as int),
    {
        let (tris, nodes) = MapMesh::build_linear_bvh(triangles);
        MapMesh { triangles: tris, nodes }
    }
}

/// How many branches lie between the root of the hierarchy over `k`
/// triangles and its deepest leaf.
pub open spec fn tree_height(k: int) -> nat
    decreases k,
{
    if k <= LEAF_SIZE {
        0
    } else {
        let left = tree_height(k / 2);
        let right = tree_height(k - k / 2);
        if left >= right {
            1 + left
        } else {
            1 + right
        }
    }
}

/// The most triangles that a hierarchy of the given height is over.
pub open spec fn capacity(height: nat) -> int
    decreases height,
{
    if height == 0 {
        LEAF_SIZE as int
    } else {
        2 * capacity((height - 1) as nat)
    }
}

/// A hierarchy over no more triangles than a height has room for is no
/// higher than that.
pub proof fn lemma_height_within(k: int, height: nat)
    requires
        k <= capacity(height),
    ensures
        tree_height(k) <= height,
    decreases height,
{
    if k > LEAF_SIZE {
        if height == 0 {
            assert(false);
        } else {
            lemma_height_within(k / 2, (height - 1) as nat);
            lemma_height_within(k - k / 2, (height - 1) as nat);
        }
    }
}

/// The greatest height of a hierarchy: the one over as many triangles as a
/// mesh can hold.
pub const MAX_HEIGHT: usize = 29;

/// No mesh has a hierarchy higher than `MAX_HEIGHT`.
pub proof fn lemma_height_limit(k: int)
    requires
        k <= u32::MAX,
    ensures
        tree_height(k) <= MAX_HEIGHT,
{
    reveal_with_fuel(capacity, 30);
    assert(capacity(29) == 4294967296);
    lemma_height_within(k, 29);
}

/// Why the triangles of a part of the level could not be taken.
#[derive(Clone, Copy, PartialEq, Eq, Structural, Debug)]
pub enum MapError {
    /// An index names no position of the part.
    StrayIndex,
    /// The level has more triangles than a mesh can hold.
    TooManyTriangles,
}

/// A point of the scene file in the axes of the level: the file's third
/// axis is the level's first, its first the level's second, and its
/// second, which points up, the level's third.
pub open spec fn in_level_axes(p: Point) -> Point {
    Point { x: p.z, y: p.x, z: p.y }
}

/// A point of the scene file in the axes of the level.
pub fn to_source2(p: Point) -> (q: Point)
    ensures
        q == in_level_axes(p),
{
    Point { x: p.z, y: p.x, z: p.y }
}

/// The triangle of the `k`-th triple of indices, numbered `source`.
pub open spec fn triangle_at(positions: Seq<Point>, indices: Seq<u32>, k: int, source: u32) -> Triangle {
    let v0 = positions[indices[3 * k] as int];
    let v1 = positions[indices[3 * k + 1] as int];
    let v2 = positions[indices[3 * k + 2] as int];
    Triangle { v0, v1, v2, center: centroid(v0, v1, v2), source }
}

/// The triangles of the first `count` triples of indices, numbered from
/// `first` on.
pub open spec fn triangles_at(positions: Seq<Point>, indices: Seq<u32>, first: int, count: int) -> Seq<
    Triangle,
> {
    Seq::new(count as nat, |k: int| triangle_at(positions, indices, k, (first + k) as u32))
}

/// An index among the whole triples names no position.
pub open spec fn has_stray_index(positions: Seq<Point>, indices: Seq<u32>) -> bool {
    exists|i: int| 0 <= i < indices.len() / 3 * 3 && #[trigger] indices[i] >= positions.len()
}

impl MapMesh {
    /// Takes the triangles of one part of the level into `raw`: one for
    /// each whole triple of indices, with the face winding of the triple,
    /// numbered on from the triangles that `raw` holds. Indices that are
    /// left over after the last whole triple are passed over.
    ///
    /// Where an index names no position, or the level would have more
    /// triangles than a mesh can hold, nothing is taken.
    #[verifier::rlimit(40)]
    pub fn add_triangles(raw: &mut Vec<Triangle>, positions: &Vec<Point>, indices: &Vec<u32>) -> (done:
        Result<(), MapError>)
        ensures
            if has_stray_index(positions@, indices@) {
                done == Err::<(), MapError>(MapError::StrayIndex) && final(raw)@ == old(raw)@
            } else if old(raw)@.len() + indices@.len() / 3 > u32::MAX {
                done == Err::<(), MapError>(MapError::TooManyTriangles) && final(raw)@ == old(raw)@
            } else {
                done is Ok && final(raw)@ == old(raw)@ + triangles_at(
                    positions@,
                    indices@,
                    old(raw)@.len() as int,
                    indices@.len() as int / 3,
                )
            },
    {
        let count = indices.len() / 3;
        let mut i: usize = 0;
        while i < 3 * count
            invariant
                0 <= i <= 3 * count,
                count == indices@.len() / 3,
                3 * count <= indices@.len() <= usize::MAX,
                forall|j: int| 0 <= j < i ==> #[trigger] indices@[j] < positions@.len(),
            decreases 3 * count - i,
        {
            if indices[i] as usize >= positions.len() {
                assert(indices@[i as int] >= positions@.len());
                return Err(MapError::StrayIndex);
            }
            i = i + 1;
        }
        let first = raw.len();
        if first > u32::MAX as usize || count > u32::MAX as usize - first {
            return Err(MapError::TooManyTriangles);
        }
        let mut k: usize = 0;
        while k < count
            invariant
                0 <= k <= count,
                first == old(raw)@.len(),
                first + count <= u32::MAX,
                count == indices@.len() / 3,
                3 * count <= indices@.len() <= usize::MAX,
                forall|j: int| 0 <= j < 3 * count ==> #[trigger] indices@[j] < positions@.len(),
                raw@ == old(raw)@ + triangles_at(positions@, indices@, first as int, k as int),
            decreases count - k,
        {
            let v0 = positions[indices[3 * k] as usize];
            let v1 = positions[indices[3 * k + 1] as usize];
            let v2 = positions[indices[3 * k + 2] as usize];
            raw.push(Triangle::new(v0, v1, v2, (first + k) as u32));
            k = k + 1;
            assert(raw@ =~= old(raw)@ + triangles_at(positions@, indices@, first as int, k as int));
        }
        Ok(())
    }
}

} // verus!
