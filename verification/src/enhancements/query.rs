//! Queries against the collision mesh: the walk through the hierarchy that
//! finds the first triangle a segment meets.

use vstd::prelude::*;
use crate::enhancements::collision::Found;
use crate::enhancements::collision::Fraction;
use crate::enhancements::collision::Hit;
use crate::enhancements::collision::first_hit;
use crate::enhancements::collision::lemma_bounds_in_grid;
use crate::enhancements::collision::lemma_pruned_run_is_idle;
use crate::enhancements::collision::lemma_sweep_finds_first;
use crate::enhancements::collision::lemma_sweep_parts;
use crate::enhancements::collision::meets;
use crate::enhancements::collision::point_along;
use crate::enhancements::collision::point_at;
use crate::enhancements::collision::segment_hits;
use crate::enhancements::collision::sweep;
use crate::enhancements::geometry::Point;
use crate::enhancements::geometry::Triangle;
use crate::enhancements::map_loader::LinearNode;
use crate::enhancements::map_loader::MAX_HEIGHT;
use crate::enhancements::map_loader::MapMesh;
use crate::enhancements::map_loader::is_subtree;
use crate::enhancements::map_loader::lemma_height_limit;
use crate::enhancements::map_loader::median;
use crate::enhancements::map_loader::tree_height;

verus! {

/// The most node indices that a query keeps waiting at a time.
pub const STACK_SIZE: usize = 64;

/// What a query answers for what the triangles give: nothing where the
/// segment meets no triangle, else the first hit with the point there.
pub open spec fn answers(hit: Option<Hit>, found: Option<Found>, start: Point, end: Point) -> bool {
    match found {
        None => hit is None,
        Some(f) => hit == Some(
            Hit { triangle: f.index as u32, place: f.place, position: point_at(start, end, f.place) },
        ),
    }
}

/// The best hit so far as a query holds it.
#[derive(Clone, Copy)]
struct Nearest {
    index: u32,
    place: Fraction,
}

/// What a query holds, as what a sweep finds.
spec fn held(best: Option<Nearest>) -> Option<Found> {
    match best {
        None => None,
        Some(b) => Some(Found { index: b.index as int, place: b.place }),
    }
}

/// Where in the node array the subtree of the waiting entry `j` ends: at
/// the entry that waits below it, or at the end of the array.
spec fn waiting_end(stack: Seq<u32>, j: int, node_count: int) -> int {
    if j == 0 {
        node_count
    } else {
        stack[j - 1] as int
    }
}

/// Where the run of the waiting entry `j` ends: where the run of the entry
/// below it starts, or at the end of the triangles.
spec fn waiting_hi(los: Seq<int>, j: int, triangle_count: int) -> int {
    if j == 0 {
        triangle_count
    } else {
        los[j - 1]
    }
}

/// The first `sp` entries of the stack are roots of subtrees that, from
/// the top entry down, follow each other in the node array and cover the
/// triangles from `los[sp - 1]` to the last; and the higher an entry is in
/// the stack, the lower is its subtree.
#[verifier::opaque]
spec fn waiting_ok(
    nodes: Seq<LinearNode>,
    tris: Seq<Triangle>,
    stack: Seq<u32>,
    los: Seq<int>,
    sp: int,
) -> bool {
    &&& 0 <= sp <= stack.len()
    &&& los.len() == sp
    &&& forall|j: int|
        0 <= j < sp ==> {
            &&& is_subtree(
                nodes,
                tris,
                stack[j] as int,
                waiting_end(stack, j, nodes.len() as int),
                #[trigger] los[j],
                waiting_hi(los, j, tris.len() as int),
            )
            &&& tree_height(waiting_hi(los, j, tris.len() as int) - los[j]) + j <= MAX_HEIGHT
        }
}

/// The stack that holds the root alone is in order.
proof fn lemma_waiting_start(nodes: Seq<LinearNode>, tris: Seq<Triangle>, stack: Seq<u32>)
    requires
        stack.len() == STACK_SIZE,
        stack[0] == 0,
        0 < tris.len() <= u32::MAX,
        is_subtree(nodes, tris, 0, nodes.len() as int, 0, tris.len() as int),
    ensures
        waiting_ok(nodes, tris, stack, seq![0int], 1),
{
    reveal(waiting_ok);
    lemma_height_limit(tris.len() as int);
}

/// What the top entry of the stack stands for.
proof fn lemma_waiting_top(
    nodes: Seq<LinearNode>,
    tris: Seq<Triangle>,
    stack: Seq<u32>,
    los: Seq<int>,
    sp: int,
)
    requires
        waiting_ok(nodes, tris, stack, los, sp),
        sp > 0,
    ensures
        sp <= stack.len(),
        los.len() == sp,
        is_subtree(
            nodes,
            tris,
            stack[sp - 1] as int,
            waiting_end(stack, sp - 1, nodes.len() as int),
            los[sp - 1],
            waiting_hi(los, sp - 1, tris.len() as int),
        ),
{
    reveal(waiting_ok);
}

/// Taking the top entry off leaves the entries below it as they were.
proof fn lemma_waiting_pop(
    nodes: Seq<LinearNode>,
    tris: Seq<Triangle>,
    stack: Seq<u32>,
    los: Seq<int>,
    sp: int,
)
    requires
        waiting_ok(nodes, tris, stack, los, sp),
        sp > 0,
    ensures
        waiting_ok(nodes, tris, stack, los.take(sp - 1), sp - 1),
        sp > 1 ==> los.take(sp - 1)[sp - 2] == waiting_hi(los, sp - 1, tris.len() as int),
        sp == 1 ==> tris.len() == waiting_hi(los, sp - 1, tris.len() as int),
{
    reveal(waiting_ok);
    let shorter = los.take(sp - 1);
    assert forall|j: int| 0 <= j < sp - 1 implies {
        &&& is_subtree(
            nodes,
            tris,
            stack[j] as int,
            waiting_end(stack, j, nodes.len() as int),
            #[trigger] shorter[j],
            waiting_hi(shorter, j, tris.len() as int),
        )
        &&& tree_height(waiting_hi(shorter, j, tris.len() as int) - shorter[j]) + j <= MAX_HEIGHT
    } by {
        assert(shorter[j] == los[j]);
        assert(waiting_hi(shorter, j, tris.len() as int) == waiting_hi(los, j, tris.len() as int));
    }
}

/// Putting the two children of the top entry in its place, the left one
/// on top, keeps the stack in order; and the stack has room for them.
proof fn lemma_waiting_push(
    nodes: Seq<LinearNode>,
    tris: Seq<Triangle>,
    stack: Seq<u32>,
    los: Seq<int>,
    sp: int,
    after: Seq<u32>,
)
    requires
        waiting_ok(nodes, tris, stack, los, sp),
        sp > 0,
        !nodes[stack[sp - 1] as int].is_leaf(),
        stack.len() == STACK_SIZE,
        after.len() == stack.len(),
        sp + 1 <= after.len(),
        forall|j: int| 0 <= j < sp - 1 ==> after[j] == stack[j],
        after[sp - 1] == nodes[stack[sp - 1] as int].offset,
        after[sp] == stack[sp - 1] + 1,
    ensures
        waiting_ok(
            nodes,
            tris,
            after,
            los.take(sp - 1).push(
                median(los[sp - 1], waiting_hi(los, sp - 1, tris.len() as int)),
            ).push(los[sp - 1]),
            sp + 1,
        ),
{
    reveal(waiting_ok);
    let n = tris.len() as int;
    let k = sp - 1;
    let at = stack[k] as int;
    let lo = los[k];
    let hi = waiting_hi(los, k, n);
    let e = waiting_end(stack, k, nodes.len() as int);
    let mid = median(lo, hi);
    let grown = los.take(k).push(mid).push(lo);
    assert(is_subtree(nodes, tris, at, e, lo, hi));
    assert(is_subtree(nodes, tris, at + 1, nodes[at].offset as int, lo, mid));
    assert(is_subtree(nodes, tris, nodes[at].offset as int, e, mid, hi));
    assert(tree_height(hi - lo) + k <= MAX_HEIGHT);
    assert(tree_height(hi - lo) >= 1 + tree_height(mid - lo));
    assert(tree_height(hi - lo) >= 1 + tree_height(hi - mid));
    assert forall|j: int| 0 <= j < sp + 1 implies {
        &&& is_subtree(
            nodes,
            tris,
            after[j] as int,
            waiting_end(after, j, nodes.len() as int),
            #[trigger] grown[j],
            waiting_hi(grown, j, n),
        )
        &&& tree_height(waiting_hi(grown, j, n) - grown[j]) + j <= MAX_HEIGHT
    } by {
        if j < k {
            assert(grown[j] == los[j]);
            assert(waiting_hi(grown, j, n) == waiting_hi(los, j, n));
            assert(waiting_end(after, j, nodes.len() as int) == waiting_end(
                stack,
                j,
                nodes.len() as int,
            ));
        } else if j == k {
            assert(grown[j] == mid);
            assert(waiting_hi(grown, j, n) == hi);
            assert(waiting_end(after, j, nodes.len() as int) == e);
        } else {
            assert(grown[j] == lo);
            assert(waiting_hi(grown, j, n) == mid);
            assert(waiting_end(after, j, nodes.len() as int) == nodes[at].offset);
        }
    }
}

/// A branch is never so deep in the stack that its children would not fit.
proof fn lemma_waiting_room(
    nodes: Seq<LinearNode>,
    tris: Seq<Triangle>,
    stack: Seq<u32>,
    los: Seq<int>,
    sp: int,
)
    requires
        waiting_ok(nodes, tris, stack, los, sp),
        sp > 0,
        !nodes[stack[sp - 1] as int].is_leaf(),
    ensures
        sp - 1 < MAX_HEIGHT,
{
    reveal(waiting_ok);
    let n = tris.len() as int;
    let k = sp - 1;
    let lo = los[k];
    let hi = waiting_hi(los, k, n);
    assert(is_subtree(nodes, tris, stack[k] as int, waiting_end(stack, k, nodes.len() as int), lo, hi));
    assert(tree_height(hi - lo) >= 1);
}

impl MapMesh {
    /// Every vertex of every triangle is within the grid limit.
    pub open spec fn in_grid(self) -> bool {
        forall|k: int| 0 <= k < self.triangles@.len() ==> (#[trigger] self.triangles@[k]).in_grid()
    }

    /// Whether every vertex of every triangle is within the grid limit.
    pub fn fits_grid(&self) -> (ok: bool)
        ensures
            ok == self.in_grid(),
    {
        let mut k: usize = 0;
        while k < self.triangles.len()
            invariant
                0 <= k <= self.triangles@.len(),
                forall|j: int| 0 <= j < k ==> (#[trigger] self.triangles@[j]).in_grid(),
            decreases self.triangles@.len() - k,
        {
            if !self.triangles[k].is_in_grid() {
                return false;
            }
            k = k + 1;
        }
        true
    }

    /// Tests the triangles `first..last` in order against the segment and
    /// keeps the first hit.
    fn scan_run(
        &self,
        first: usize,
        last: usize,
        start: &Point,
        end: &Point,
        best: Option<Nearest>,
    ) -> (out: Option<Nearest>)
        requires
            self.in_grid(),
            start.in_grid(),
            end.in_grid(),
            first <= last <= self.triangles@.len() <= u32::MAX,
            best is Some ==> best->0.place.is_proper(),
        ensures
            held(out) == sweep(
                self.triangles@,
                *start,
                *end,
                first as int,
                last as int,
                held(best),
            ),
            out is Some ==> out->0.place.is_proper(),
    {
        let mut best = best;
        let ghost init = held(best);
        let mut i: usize = first;
        while i < last
            invariant
                self.in_grid(),
                start.in_grid(),
                end.in_grid(),
                first <= i <= last <= self.triangles@.len() <= u32::MAX,
                held(best) == sweep(self.triangles@, *start, *end, first as int, i as int, init),
                best is Some ==> best->0.place.is_proper(),
            decreases last - i,
        {
            let tri = self.triangles[i];
            let place = segment_hits(&tri, start, end);
            match place {
                Some(p) => {
                    let closer = match best {
                        Some(b) => p.is_before(&b.place),
                        None => true,
                    };
                    if closer {
                        best = Some(Nearest { index: i as u32, place: p });
                    }
                },
                None => {},
            }
            i = i + 1;
        }
        best
    }

    /// The first triangle that the segment from `start` to `end` meets
    /// from its front, strictly between the two ends.
    ///
    /// The hierarchy only saves work: the answer is the one that testing
    /// every triangle in order would give.
    #[verifier::rlimit(40)]
    pub fn check_collision_ray(&self, start: Point, end: Point) -> (hit: Option<Hit>)
        requires
            self.well_formed(),
            self.in_grid(),
            start.in_grid(),
            end.in_grid(),
        ensures
            answers(hit, first_hit(self.triangles@, start, end), start, end),
            hit is Some ==> {
                &&& hit->0.place.is_proper()
                &&& hit->0.position.in_grid()
                &&& hit->0.triangle < self.triangles@.len()
                &&& first_hit(self.triangles@, start, end)->0.index == hit->0.triangle
                &&& meets(self.triangles@[hit->0.triangle as int], start, end)
            },
    {
        let ghost tris = self.triangles@;
        let ghost nodes = self.nodes@;
        let ghost n = tris.len() as int;
        if self.nodes.len() == 0 {
            return None;
        }
        let mut stack: [u32; STACK_SIZE] = [0;STACK_SIZE];
        let mut sp: usize = 1;
        let ghost mut los: Seq<int> = seq![0int];
        let ghost mut done: int = 0;
        let mut best: Option<Nearest> = None;
        proof {
            lemma_waiting_start(nodes, tris, stack@);
        }
        while sp > 0
            invariant
                nodes == self.nodes@,
                tris == self.triangles@,
                n == tris.len(),
                n <= u32::MAX,
                self.in_grid(),
                start.in_grid(),
                end.in_grid(),
                waiting_ok(nodes, tris, stack@, los, sp as int),
                0 <= done <= n,
                sp > 0 ==> los[sp - 1] == done,
                sp == 0 ==> done == n,
                held(best) == sweep(tris, start, end, 0, done, None),
                best is Some ==> best->0.place.is_proper(),
            decreases
                    nodes.len() - (if sp > 0 {
                        stack@[sp - 1] as int
                    } else {
                        nodes.len() as int
                    }),
        {
            proof {
                lemma_waiting_top(nodes, tris, stack@, los, sp as int);
            }
            let at = stack[sp - 1] as usize;
            let ghost lo = los[sp - 1];
            let ghost hi = waiting_hi(los, sp - 1, n);
            let ghost e = waiting_end(stack@, sp - 1, nodes.len() as int);
            assert(is_subtree(nodes, tris, at as int, e, lo, hi));
            let node = self.nodes[at];
            let bound = match best {
                Some(b) => b.place,
                None => Fraction { num: 1, den: 1 },
            };
            proof {
                assert forall|k: int| lo <= k < hi implies (#[trigger] tris[k]).in_grid() by {}
                lemma_bounds_in_grid(tris, lo, hi);
                lemma_sweep_parts(tris, start, end, 0, lo, hi, None);
            }
            if !node.aabb.intersect(&start, &end, &bound) {
                proof {
                    lemma_pruned_run_is_idle(tris, start, end, lo, hi, held(best));
                    lemma_waiting_pop(nodes, tris, stack@, los, sp as int);
                    done = hi;
                    los = los.take(sp - 1);
                }
                sp = sp - 1;
            } else if node.count > 0 {
                let first = node.offset as usize;
                let last = first + node.count as usize;
                best = self.scan_run(first, last, &start, &end, best);
                proof {
                    lemma_waiting_pop(nodes, tris, stack@, los, sp as int);
                    done = hi;
                    los = los.take(sp - 1);
                }
                sp = sp - 1;
            } else {
                proof {
                    lemma_waiting_room(nodes, tris, stack@, los, sp as int);
                }
                if sp < STACK_SIZE {
                    let ghost before = stack@;
                    stack[sp - 1] = node.offset;
                    stack[sp] = (at + 1) as u32;
                    proof {
                        lemma_waiting_push(nodes, tris, before, los, sp as int, stack@);
                        los = los.take(sp - 1).push(median(lo, hi)).push(lo);
                    }
                    sp = sp + 1;
                } else {
                    sp = sp - 1;
                }
            }
        }
        proof {
            lemma_sweep_finds_first(tris, start, end, n);
        }
        match best {
            Some(b) => Some(
                Hit {
                    triangle: b.index,
                    place: b.place,
                    position: point_along(&start, &end, &b.place),
                },
            ),
            None => None,
        }
    }
}

} // verus!
