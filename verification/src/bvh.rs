//! The bounding-volume hierarchy.
//!
//! The tree is a flat, append-only array of nodes; children precede their
//! parent, and the root sits at the end. A leaf holds an index into the
//! scene's shape list; an internal node holds a box that contains the
//! padded bounding box of every shape below it. Building reorders only an
//! index array, never the shapes. The traversal provably returns a nearest
//! hit: the same parameter the brute-force linear scan finds.

use vstd::prelude::*;
use vstd::seq_lib::to_multiset_update;
use vstd::multiset::Multiset;
use crate::aabb::{AABB, contains_box, covers, strictly_inside};
use crate::hittable::{
    Hit, Shape, ids_upto, scene_wf, shape_box_s, shape_hit_s, best_over, lemma_shape_hit_covers,
};
use crate::ray::{Ray, T_LIMIT, TIME_LIMIT};
use crate::rng::rng_axis;
use crate::vec3::Vec3;

verus! {

/// One node of the flat tree.
pub enum BVHMember {
    Node { bounds: AABB, left: Option<usize>, right: Option<usize> },
    Leaf(usize),
}

impl BVHMember {
    /// The box of an internal node; a leaf has none of its own.
    pub fn bounds(&self) -> (r: Option<&AABB>)
        ensures
            match *self {
                BVHMember::Node { bounds, .. } => r matches Some(b) && *b == bounds,
                BVHMember::Leaf(_) => r is None,
            },
    {
        match self {
            BVHMember::Node { bounds, .. } => Some(bounds),
            BVHMember::Leaf(_) => None,
        }
    }
}

/// The shape indices of the leaves below node `i`, left subtree first.
/// Out-of-range child references contribute nothing; well-formed trees
/// (see `node_wf`) never produce them.
pub open spec fn subtree_ids(nodes: Seq<BVHMember>, i: int) -> Seq<usize>
    decreases i when 0 <= i
{
    if i < 0 || i >= nodes.len() {
        Seq::empty()
    } else {
        match nodes[i] {
            BVHMember::Leaf(k) => seq![k],
            BVHMember::Node { left, right, .. } => {
                let ls = match left {
                    Some(l) => {
                        if l < i {
                            subtree_ids(nodes, l as int)
                        } else {
                            Seq::empty()
                        }
                    },
                    None => Seq::empty(),
                };
                let rs = match right {
                    Some(r) => {
                        if r < i {
                            subtree_ids(nodes, r as int)
                        } else {
                            Seq::empty()
                        }
                    },
                    None => Seq::empty(),
                };
                ls + rs
            },
        }
    }
}

/// Every box of a list of shapes is inside `b`.
pub open spec fn bounds_contain(
    shapes: Seq<Shape>,
    b: AABB,
    ids: Seq<usize>,
    t0: i64,
    t1: i64,
) -> bool {
    forall|j: int|
        0 <= j < ids.len() ==> contains_box(
            b,
            #[trigger] shape_box_s(shapes[ids[j] as int], t0, t1),
        )
}

/// Structural validity of the subtree rooted at `i`: strictly binary,
/// children stored before parents, leaves in range, and every internal
/// box containing all the shape boxes below it.
pub open spec fn node_wf(shapes: Seq<Shape>, nodes: Seq<BVHMember>, i: int, t0: i64, t1: i64) -> bool
    decreases i when 0 <= i
{
    &&& 0 <= i < nodes.len()
    &&& match nodes[i] {
        BVHMember::Leaf(k) => k < shapes.len(),
        BVHMember::Node { bounds, left, right } => {
            &&& left matches Some(l) && l < i && node_wf(shapes, nodes, l as int, t0, t1)
            &&& right matches Some(r) && r < i && node_wf(shapes, nodes, r as int, t0, t1)
            &&& bounds.wf()
            &&& bounds_contain(shapes, bounds, subtree_ids(nodes, i), t0, t1)
        },
    }
}

/// Appending nodes never changes an existing subtree.
proof fn lemma_subtree_prefix(
    shapes: Seq<Shape>,
    nodes1: Seq<BVHMember>,
    nodes2: Seq<BVHMember>,
    i: int,
    t0: i64,
    t1: i64,
)
    requires
        nodes1.len() <= nodes2.len(),
        forall|k: int| 0 <= k < nodes1.len() ==> nodes2[k] == nodes1[k],
        0 <= i < nodes1.len(),
    ensures
        subtree_ids(nodes2, i) == subtree_ids(nodes1, i),
        node_wf(shapes, nodes1, i, t0, t1) ==> node_wf(shapes, nodes2, i, t0, t1),
    decreases i,
{
    match nodes1[i] {
        BVHMember::Leaf(_) => {},
        BVHMember::Node { left, right, .. } => {
            match left {
                Some(l) => {
                    if l < i {
                        lemma_subtree_prefix(shapes, nodes1, nodes2, l as int, t0, t1);
                    }
                },
                None => {},
            }
            match right {
                Some(r) => {
                    if r < i {
                        lemma_subtree_prefix(shapes, nodes1, nodes2, r as int, t0, t1);
                    }
                },
                None => {},
            }
        },
    }
}

/// In a well-formed subtree every leaf id indexes a scene shape.
proof fn lemma_subtree_ids_in_range(
    shapes: Seq<Shape>,
    nodes: Seq<BVHMember>,
    i: int,
    t0: i64,
    t1: i64,
)
    requires
        0 <= i,
        node_wf(shapes, nodes, i, t0, t1),
    ensures
        forall|j: int|
            0 <= j < subtree_ids(nodes, i).len() ==> #[trigger] subtree_ids(nodes, i)[j]
                < shapes.len(),
    decreases i,
{
    match nodes[i] {
        BVHMember::Leaf(_) => {},
        BVHMember::Node { left, right, .. } => {
            let l = left.unwrap() as int;
            let r = right.unwrap() as int;
            lemma_subtree_ids_in_range(shapes, nodes, l, t0, t1);
            lemma_subtree_ids_in_range(shapes, nodes, r, t0, t1);
            assert(subtree_ids(nodes, i) == subtree_ids(nodes, l) + subtree_ids(nodes, r));
        },
    }
}

/// Exchanging two elements of a sequence keeps its multiset.
proof fn lemma_swap_multiset<A>(s: Seq<A>, i: int, j: int)
    requires
        0 <= i < s.len(),
        0 <= j < s.len(),
    ensures
        s.update(i, s[j]).update(j, s[i]).to_multiset() == s.to_multiset(),
{
    broadcast use vstd::seq_lib::group_to_multiset_ensures;

    if i == j {
        assert(s.update(i, s[j]).update(j, s[i]) =~= s);
    } else {
        let s1 = s.update(i, s[j]);
        to_multiset_update(s, i, s[j]);
        to_multiset_update(s1, j, s[i]);
        assert(s1[j] == s[j]);
        assert(s.contains(s[i]));
        assert(s.to_multiset().count(s[i]) > 0);
        assert(s1.update(j, s[i]).to_multiset() =~= s.to_multiset());
    }
}

/// The leaf ids a member would govern, resolving its children against the
/// current node array.
pub open spec fn osub(nodes: Seq<BVHMember>, o: Option<usize>) -> Seq<usize> {
    match o {
        Some(j) => {
            if j < nodes.len() {
                subtree_ids(nodes, j as int)
            } else {
                Seq::empty()
            }
        },
        None => Seq::empty(),
    }
}

pub open spec fn member_ids(nodes: Seq<BVHMember>, m: BVHMember) -> Seq<usize> {
    match m {
        BVHMember::Leaf(k) => seq![k],
        BVHMember::Node { left, right, .. } => osub(nodes, left) + osub(nodes, right),
    }
}

/// Validity of a member not yet stored, against the current node array.
pub open spec fn member_wf(
    shapes: Seq<Shape>,
    nodes: Seq<BVHMember>,
    m: BVHMember,
    t0: i64,
    t1: i64,
) -> bool {
    match m {
        BVHMember::Leaf(k) => k < shapes.len(),
        BVHMember::Node { bounds, left, right } => {
            &&& left matches Some(l) && l < nodes.len() && node_wf(shapes, nodes, l as int, t0, t1)
            &&& right matches Some(r) && r < nodes.len() && node_wf(shapes, nodes, r as int, t0, t1)
            &&& bounds.wf()
            &&& bounds_contain(shapes, bounds, member_ids(nodes, m), t0, t1)
        },
    }
}

/// Pushing a well-formed member produces a well-formed stored node with
/// the same leaf ids.
proof fn lemma_push_member(
    shapes: Seq<Shape>,
    nodes: Seq<BVHMember>,
    m: BVHMember,
    t0: i64,
    t1: i64,
)
    requires
        member_wf(shapes, nodes, m, t0, t1),
    ensures
        node_wf(shapes, nodes.push(m), nodes.len() as int, t0, t1),
        subtree_ids(nodes.push(m), nodes.len() as int) == member_ids(nodes, m),
{
    let nodes2 = nodes.push(m);
    let i = nodes.len() as int;
    assert(nodes2[i] == m);
    match m {
        BVHMember::Leaf(_) => {},
        BVHMember::Node { bounds, left, right } => {
            let l = left.unwrap() as int;
            let r = right.unwrap() as int;
            lemma_subtree_prefix(shapes, nodes, nodes2, l, t0, t1);
            lemma_subtree_prefix(shapes, nodes, nodes2, r, t0, t1);
            assert(subtree_ids(nodes2, i) == member_ids(nodes, m));
        },
    }
}

/// A member's leaf ids are unchanged when the node array only grows.
proof fn lemma_member_ids_stable(
    shapes: Seq<Shape>,
    nodes1: Seq<BVHMember>,
    nodes2: Seq<BVHMember>,
    m: BVHMember,
    t0: i64,
    t1: i64,
)
    requires
        nodes1.len() <= nodes2.len(),
        forall|k: int| 0 <= k < nodes1.len() ==> nodes2[k] == nodes1[k],
        member_wf(shapes, nodes1, m, t0, t1),
    ensures
        member_ids(nodes2, m) == member_ids(nodes1, m),
        member_wf(shapes, nodes2, m, t0, t1),
{
    match m {
        BVHMember::Leaf(_) => {},
        BVHMember::Node { bounds, left, right } => {
            let l = left.unwrap() as int;
            let r = right.unwrap() as int;
            lemma_subtree_prefix(shapes, nodes1, nodes2, l, t0, t1);
            lemma_subtree_prefix(shapes, nodes1, nodes2, r, t0, t1);
        },
    }
}

/// The sort key of a shape id: the chosen component of its box minimum.
pub open spec fn key_s(mins: Seq<Vec3>, id: usize, axis: usize) -> int {
    if axis == 0 {
        mins[id as int].x as int
    } else if axis == 1 {
        mins[id as int].y as int
    } else {
        mins[id as int].z as int
    }
}

fn key(mins: &Vec<Vec3>, id: usize, axis: usize) -> (r: i64)
    requires
        id < mins.len(),
        axis < 3,
    ensures
        r == key_s(mins@, id, axis),
{
    if axis == 0 {
        mins[id].x
    } else if axis == 1 {
        mins[id].y
    } else {
        mins[id].z
    }
}

/// Insertion sort of the id range [lo, hi) by box minimum along `axis`.
/// Keeps the whole array's multiset and leaves everything outside the
/// range untouched.
fn sort_range(ids: &mut Vec<usize>, mins: &Vec<Vec3>, axis: usize, lo: usize, hi: usize)
    requires
        axis < 3,
        lo <= hi <= old(ids).len(),
        forall|k: int| 0 <= k < old(ids).len() ==> #[trigger] old(ids)@[k] < mins.len(),
    ensures
        final(ids).len() == old(ids).len(),
        final(ids)@.to_multiset() == old(ids)@.to_multiset(),
        forall|k: int|
            0 <= k < old(ids).len() && !(lo <= k < hi) ==> final(ids)@[k] == old(ids)@[k],
        forall|k: int| 0 <= k < old(ids).len() ==> #[trigger] final(ids)@[k] < mins.len(),
        forall|p: int, q: int|
            lo <= p <= q < hi ==> key_s(mins@, #[trigger] final(ids)@[p], axis) <= key_s(
                mins@,
                #[trigger] final(ids)@[q],
                axis,
            ),
{
    if lo == hi {
        return ;
    }
    let mut i: usize = lo + 1;
    while i < hi
        invariant
            axis < 3,
            lo < hi <= ids.len(),
            lo < i <= hi,
            ids.len() == old(ids).len(),
            ids@.to_multiset() == old(ids)@.to_multiset(),
            forall|k: int|
                0 <= k < old(ids).len() && !(lo <= k < hi) ==> ids@[k] == old(ids)@[k],
            forall|k: int| 0 <= k < old(ids).len() ==> #[trigger] ids@[k] < mins.len(),
            forall|p: int, q: int|
                lo <= p <= q < i ==> key_s(mins@, #[trigger] ids@[p], axis) <= key_s(
                    mins@,
                    #[trigger] ids@[q],
                    axis,
                ),
        decreases hi - i,
    {
        let mut j: usize = i;
        while j > lo && key(mins, ids[j - 1], axis) > key(mins, ids[j], axis)
            invariant
                axis < 3,
                lo < hi <= ids.len(),
                lo <= j <= i < hi,
                ids.len() == old(ids).len(),
                ids@.to_multiset() == old(ids)@.to_multiset(),
                forall|k: int|
                    0 <= k < old(ids).len() && !(lo <= k < hi) ==> ids@[k] == old(ids)@[k],
                forall|k: int| 0 <= k < old(ids).len() ==> #[trigger] ids@[k] < mins.len(),
                forall|p: int, q: int|
                    lo <= p <= q <= i && p != j && q != j ==> key_s(mins@, #[trigger] ids@[p], axis)
                        <= key_s(mins@, #[trigger] ids@[q], axis),
                forall|q: int|
                    j < q <= i ==> key_s(mins@, #[trigger] ids@[j as int], axis) < key_s(
                        mins@,
                        #[trigger] ids@[q],
                        axis,
                    ),
            decreases j,
        {
            let ghost sold = ids@;
            let a = ids[j - 1];
            let b = ids[j];
            ids.set(j - 1, b);
            ids.set(j, a);
            proof {
                assert(ids@ =~= sold.update(j - 1, sold[j as int]).update(j as int, sold[j - 1]));
                lemma_swap_multiset(sold, j - 1, j as int);
            }
            j = j - 1;
        }
        i = i + 1;
    }
}

/// Recursive construction over the id range [lo, lo + n): pick an axis at
/// random, sort the range by that axis' box minimum, then emit a leaf, a
/// two-leaf node, or recurse on the two halves. Children are appended to
/// `nodes` before the returned member refers to them.
fn build_tree_internal(
    rng: &mut rand::rngs::SmallRng,
    shapes: &Vec<Shape>,
    mins: &Vec<Vec3>,
    ids: &mut Vec<usize>,
    nodes: &mut Vec<BVHMember>,
    lo: usize,
    n: usize,
    time_initial: i64,
    time_final: i64,
) -> (m: BVHMember)
    requires
        scene_wf(shapes@),
        1 <= n,
        lo + n <= old(ids).len(),
        old(ids).len() == shapes.len(),
        mins.len() == shapes.len(),
        forall|k: int| 0 <= k < old(ids).len() ==> #[trigger] old(ids)@[k] < shapes.len(),
    ensures
        final(ids).len() == old(ids).len(),
        final(ids)@.to_multiset() == old(ids)@.to_multiset(),
        forall|k: int|
            0 <= k < old(ids).len() && !(lo <= k < lo + n) ==> final(ids)@[k] == old(ids)@[k],
        forall|k: int| 0 <= k < old(ids).len() ==> #[trigger] final(ids)@[k] < shapes.len(),
        final(nodes).len() >= old(nodes).len(),
        final(nodes)@.len() == old(nodes)@.len() + 2 * n - 2,
        forall|k: int| 0 <= k < old(nodes).len() ==> final(nodes)@[k] == old(nodes)@[k],
        member_wf(shapes@, final(nodes)@, m, time_initial, time_final),
        member_ids(final(nodes)@, m) == final(ids)@.subrange(lo as int, lo as int + n as int),
    decreases n,
{
    let axis = rng_axis(rng);
    sort_range(ids, mins, axis, lo, lo + n);
    if n == 1 {
        let m = BVHMember::Leaf(ids[lo]);
        proof {
            assert(member_ids(nodes@, m) =~= ids@.subrange(lo as int, lo as int + 1));
        }
        m
    } else if n == 2 {
        let ida = ids[lo];
        let idb = ids[lo + 1];
        let ba = shapes[ida].bounding_box(time_initial, time_final).unwrap();
        let bb = shapes[idb].bounding_box(time_initial, time_final).unwrap();
        let bounds = ba.surrounding_box(&bb);
        proof {
            crate::aabb::lemma_union_contains(ba, bb);
        }
        let left_leaf = BVHMember::Leaf(ida);
        let right_leaf = BVHMember::Leaf(idb);
        let ghost nodes0 = nodes@;
        let left_index = nodes.len();
        proof {
            lemma_push_member(shapes@, nodes@, left_leaf, time_initial, time_final);
        }
        nodes.push(left_leaf);
        let right_index = nodes.len();
        proof {
            lemma_subtree_prefix(shapes@, nodes0.push(left_leaf), nodes@.push(right_leaf), left_index as int, time_initial, time_final);
            lemma_push_member(shapes@, nodes@, right_leaf, time_initial, time_final);
        }
        nodes.push(right_leaf);
        let m = BVHMember::Node { left: Some(left_index), right: Some(right_index), bounds };
        proof {
            lemma_subtree_prefix(shapes@, nodes0.push(left_leaf), nodes@, left_index as int, time_initial, time_final);
            assert(subtree_ids(nodes@, left_index as int) =~= seq![ida]);
            assert(subtree_ids(nodes@, right_index as int) =~= seq![idb]);
            assert(member_ids(nodes@, m) =~= ids@.subrange(lo as int, lo as int + 2));
            assert(bounds.wf());
        }
        m
    } else {
        let halving_point = n / 2;
        let ghost ids0 = ids@;
        let left = build_tree_internal(
            rng,
            shapes,
            mins,
            ids,
            nodes,
            lo,
            halving_point,
            time_initial,
            time_final,
        );
        let left_index = nodes.len();
        proof {
            lemma_push_member(shapes@, nodes@, left, time_initial, time_final);
        }
        let ghost nodes_l = nodes@;
        nodes.push(left);
        let ghost ids_l = ids@;
        let right = build_tree_internal(
            rng,
            shapes,
            mins,
            ids,
            nodes,
            lo + halving_point,
            n - halving_point,
            time_initial,
            time_final,
        );
        let right_index = nodes.len();
        proof {
            lemma_push_member(shapes@, nodes@, right, time_initial, time_final);
            lemma_subtree_prefix(
                shapes@,
                nodes_l.push(left),
                nodes@.push(right),
                left_index as int,
                time_initial,
                time_final,
            );
        }
        nodes.push(right);

        // The subtree bounds: the union of every shape box in the range.
        let mut bounds = shapes[ids[lo]].bounding_box(time_initial, time_final).unwrap();
        let mut k: usize = lo + 1;
        while k < lo + n
            invariant
                scene_wf(shapes@),
                lo + n <= ids.len(),
                ids.len() == shapes.len(),
                forall|q: int| 0 <= q < ids@.len() ==> #[trigger] ids@[q] < shapes.len(),
                lo < k <= lo + n,
                bounds.wf(),
                forall|q: int|
                    lo <= q < k ==> contains_box(
                        bounds,
                        #[trigger] shape_box_s(shapes@[ids@[q] as int], time_initial, time_final),
                    ),
            decreases lo + n - k,
        {
            let bk = shapes[ids[k]].bounding_box(time_initial, time_final).unwrap();
            let ghost bold = bounds;
            proof {
                crate::aabb::lemma_union_contains(bounds, bk);
            }
            bounds = bounds.surrounding_box(&bk);
            proof {
                assert forall|q: int|
                    lo <= q < k + 1 implies contains_box(
                    bounds,
                    #[trigger] shape_box_s(shapes@[ids@[q] as int], time_initial, time_final),
                ) by {
                    if q < k {
                        crate::aabb::lemma_contains_trans(
                            bounds,
                            bold,
                            shape_box_s(shapes@[ids@[q] as int], time_initial, time_final),
                        );
                    }
                }
            }
            k = k + 1;
        }

        let m = BVHMember::Node { left: Some(left_index), right: Some(right_index), bounds };
        proof {
            lemma_subtree_prefix(
                shapes@,
                nodes_l.push(left),
                nodes@,
                left_index as int,
                time_initial,
                time_final,
            );
            assert(subtree_ids(nodes@, left_index as int) == ids_l.subrange(
                lo as int,
                lo as int + halving_point as int,
            ));
            assert(ids@.subrange(lo as int, lo as int + halving_point as int) =~= ids_l.subrange(
                lo as int,
                lo as int + halving_point as int,
            ));
            assert(member_ids(nodes@, m) =~= ids@.subrange(lo as int, lo as int + n as int));
        }
        m
    }
}

/// The spatial index over a scene: the shapes in their insertion order and
/// the flat node array, root last.
pub struct BoundingVolumeHierarchy {
    pub shapes: Vec<Shape>,
    pub nodes: Vec<BVHMember>,
    pub time_start: i64,
    pub time_end: i64,
}

impl BoundingVolumeHierarchy {
    /// The root node index.
    pub open spec fn root_i(self) -> int {
        self.nodes@.len() - 1
    }

    /// Built and read-only: a well-formed tree whose leaves are exactly
    /// the scene's shape indices, once each.
    pub open spec fn wf(self) -> bool {
        &&& scene_wf(self.shapes@)
        &&& 1 <= self.shapes@.len()
        &&& 1 <= self.nodes@.len()
        &&& node_wf(self.shapes@, self.nodes@, self.root_i(), self.time_start, self.time_end)
        &&& subtree_ids(self.nodes@, self.root_i()).to_multiset() == ids_upto(
            self.shapes@.len() as int,
        ).to_multiset()
        &&& 0 <= self.time_start <= self.time_end <= TIME_LIMIT
    }

    /// Build the hierarchy over a scene.
    pub fn new(
        rng: &mut rand::rngs::SmallRng,
        shapes: Vec<Shape>,
        time_initial: i64,
        time_final: i64,
    ) -> (r: BoundingVolumeHierarchy)
        requires
            scene_wf(shapes@),
            1 <= shapes@.len(),
            0 <= time_initial <= time_final <= TIME_LIMIT,
        ensures
            r.wf(),
            r.shapes@ == shapes@,
            r.nodes@.len() == 2 * shapes@.len() - 1,
            r.time_start == time_initial,
            r.time_end == time_final,
    {
        let n = shapes.len();
        let mut mins: Vec<Vec3> = Vec::new();
        let mut i: usize = 0;
        while i < n
            invariant
                scene_wf(shapes@),
                n == shapes@.len(),
                i <= n,
                mins@.len() == i as int,
            decreases n - i,
        {
            let bx = shapes[i].bounding_box(time_initial, time_final).unwrap();
            mins.push(*bx.min());
            i = i + 1;
        }
        let mut ids: Vec<usize> = Vec::new();
        let mut j: usize = 0;
        while j < n
            invariant
                j <= n,
                ids@.len() == j as int,
                forall|k: int| 0 <= k < j as int ==> #[trigger] ids@[k] == k as usize,
            decreases n - j,
        {
            ids.push(j);
            j = j + 1;
        }
        proof {
            assert(ids@ =~= ids_upto(n as int));
        }
        let mut nodes: Vec<BVHMember> = Vec::new();
        let root = build_tree_internal(
            rng,
            &shapes,
            &mins,
            &mut ids,
            &mut nodes,
            0,
            n,
            time_initial,
            time_final,
        );
        proof {
            lemma_push_member(shapes@, nodes@, root, time_initial, time_final);
        }
        let ghost nodes_before = nodes@;
        let ghost ids_after = ids@;
        nodes.push(root);
        proof {
            assert(subtree_ids(nodes@, nodes@.len() - 1) == member_ids(nodes_before, root));
            assert(ids_after.subrange(0, n as int) =~= ids_after);
        }
        BoundingVolumeHierarchy { shapes, nodes, time_start: time_initial, time_end: time_final }
    }

    /// The scene, in insertion order.
    pub fn shapes(&self) -> (r: &Vec<Shape>)
        ensures
            r@ == self.shapes@,
    {
        &self.shapes
    }

    /// Nearest hit below node `idx`: reject through the node's box, then
    /// take the nearer of the two children's results, the left on a tie.
    #[verifier::rlimit(80)]
    fn indexed_hit(&self, idx: usize, ray: &Ray, t_min: i64, t_max: i64) -> (r: Option<
        (usize, Hit),
    >)
        requires
            scene_wf(self.shapes@),
            idx < self.nodes@.len(),
            node_wf(self.shapes@, self.nodes@, idx as int, self.time_start, self.time_end),
            ray.wf(),
            self.time_start <= ray.time <= self.time_end,
            0 <= t_min < t_max <= T_LIMIT,
        ensures
            r == best_over(
                self.shapes@,
                subtree_ids(self.nodes@, idx as int),
                *ray,
                t_min as int,
                t_max as int,
            ),
            r matches Some(p) ==> p.0 < self.shapes@.len() && p.1.wf() && t_min <= p.1.t <= t_max,
        decreases idx,
    {
        let node = &self.nodes[idx];
        match node {
            BVHMember::Leaf(k) => {
                let ghost ids = subtree_ids(self.nodes@, idx as int);
                proof {
                    assert(ids =~= seq![*k]);
                    assert(ids.drop_last() =~= Seq::<usize>::empty());
                    assert(best_over(
                        self.shapes@,
                        Seq::<usize>::empty(),
                        *ray,
                        t_min as int,
                        t_max as int,
                    ) is None);
                    assert(ids.last() == *k);
                }
                match self.shapes[*k].hit(ray, t_min, t_max) {
                    Some(h) => Some((*k, h)),
                    None => None,
                }
            },
            BVHMember::Node { bounds, left, right } => {
                let ghost ids = subtree_ids(self.nodes@, idx as int);
                let l: usize = match left {
                    Some(l) => *l,
                    None => {
                        proof {
                            assert(false);
                        }
                        0
                    },
                };
                let rr: usize = match right {
                    Some(r) => *r,
                    None => {
                        proof {
                            assert(false);
                        }
                        0
                    },
                };
                if !bounds.hit(ray, t_min, t_max) {
                    proof {
                        lemma_subtree_ids_in_range(
                            self.shapes@,
                            self.nodes@,
                            idx as int,
                            self.time_start,
                            self.time_end,
                        );
                        assert forall|j: int| 0 <= j < ids.len() implies shape_hit_s(
                            self.shapes@[ids[j] as int],
                            *ray,
                            t_min as int,
                            t_max as int,
                        ) is None by {
                            let s = self.shapes@[ids[j] as int];
                            let ho = shape_hit_s(s, *ray, t_min as int, t_max as int);
                            if ho is Some {
                                let h = ho.unwrap();
                                lemma_shape_hit_covers(
                                    s,
                                    *ray,
                                    t_min as int,
                                    t_max as int,
                                    self.time_start,
                                    self.time_end,
                                    h,
                                );
                                crate::aabb::lemma_inside_monotone(
                                    *bounds,
                                    shape_box_s(s, self.time_start, self.time_end),
                                    *ray,
                                    h.t as int,
                                    1,
                                );
                                assert(strictly_inside(*bounds, *ray, h.t as int, 1)
                                    && t_min as int * 1 <= h.t as int <= t_max as int * 1);
                                assert(covers(*bounds, *ray, t_min as int, t_max as int));
                                crate::aabb::lemma_covers_implies_hit(
                                    *bounds,
                                    *ray,
                                    t_min as int,
                                    t_max as int,
                                );
                            }
                        }
                        lemma_best_all_none(
                            self.shapes@,
                            ids,
                            *ray,
                            t_min as int,
                            t_max as int,
                        );
                    }
                    return None;
                }
                let lh = self.indexed_hit(l, ray, t_min, t_max);
                let rh = self.indexed_hit(rr, ray, t_min, t_max);
                proof {
                    lemma_best_concat(
                        self.shapes@,
                        subtree_ids(self.nodes@, l as int),
                        subtree_ids(self.nodes@, rr as int),
                        *ray,
                        t_min as int,
                        t_max as int,
                    );
                }
                match (lh, rh) {
                    (Some(lp), Some(rp)) => {
                        if lp.1.t <= rp.1.t {
                            Some(lp)
                        } else {
                            Some(rp)
                        }
                    },
                    (Some(lp), None) => Some(lp),
                    (None, Some(rp)) => Some(rp),
                    (None, None) => None,
                }
            },
        }
    }

    /// Nearest hit in the whole scene, through the tree. Returns the index
    /// of the hit shape and the hit record.
    pub fn hit(&self, ray: &Ray, t_min: i64, t_max: i64) -> (r: Option<(usize, Hit)>)
        requires
            self.wf(),
            ray.wf(),
            self.time_start <= ray.time <= self.time_end,
            0 <= t_min < t_max <= T_LIMIT,
        ensures
            r == best_over(
                self.shapes@,
                subtree_ids(self.nodes@, self.root_i()),
                *ray,
                t_min as int,
                t_max as int,
            ),
            r matches Some(p) ==> p.0 < self.shapes@.len() && p.1.wf() && t_min <= p.1.t <= t_max,
    {
        self.indexed_hit(self.nodes.len() - 1, ray, t_min, t_max)
    }

    /// The whole scene's box, when the root is an internal node.
    pub fn bounding_box(&self) -> (r: Option<AABB>)
        requires
            self.wf(),
        ensures
            match self.nodes@[self.root_i()] {
                BVHMember::Node { bounds, .. } => r == Some(bounds),
                BVHMember::Leaf(_) => r is None,
            },
    {
        match self.nodes[self.nodes.len() - 1].bounds() {
            Some(b) => Some(*b),
            None => None,
        }
    }
}

/// If no listed shape hits, the fold finds nothing.
proof fn lemma_best_all_none(shapes: Seq<Shape>, ids: Seq<usize>, ray: Ray, t_min: int, t_max: int)
    requires
        forall|j: int|
            0 <= j < ids.len() ==> shape_hit_s(shapes[ids[j] as int], ray, t_min, t_max) is None,
    ensures
        best_over(shapes, ids, ray, t_min, t_max) is None,
    decreases ids.len(),
{
    if ids.len() > 0 {
        lemma_best_all_none(shapes, ids.drop_last(), ray, t_min, t_max);
    }
}

/// The fold over a concatenation combines the folds of the parts, the
/// left part winning ties.
proof fn lemma_best_concat(shapes: Seq<Shape>, ids1: Seq<usize>, ids2: Seq<usize>, ray: Ray, t_min: int, t_max: int)
    ensures
        best_over(shapes, ids1 + ids2, ray, t_min, t_max) == combine_hits(
            best_over(shapes, ids1, ray, t_min, t_max),
            best_over(shapes, ids2, ray, t_min, t_max),
        ),
    decreases ids2.len(),
{
    if ids2.len() == 0 {
        assert(ids1 + ids2 =~= ids1);
    } else {
        lemma_best_concat(shapes, ids1, ids2.drop_last(), ray, t_min, t_max);
        assert((ids1 + ids2).drop_last() =~= ids1 + ids2.drop_last());
        assert((ids1 + ids2).last() == ids2.last());
    }
}

/// The nearer of two results; the first on a tie.
pub open spec fn combine_hits(a: Option<(usize, Hit)>, b: Option<(usize, Hit)>) -> Option<
    (usize, Hit),
> {
    match b {
        None => a,
        Some(q) => match a {
            None => Some(q),
            Some(p) => {
                if q.1.t < p.1.t {
                    Some(q)
                } else {
                    Some(p)
                }
            },
        },
    }
}

/// What the fold's result means: a miss only when every listed shape
/// misses; otherwise a hit of one of the listed shapes, whose parameter
/// no listed shape beats.
#[verifier::rlimit(80)]
proof fn lemma_best_char(shapes: Seq<Shape>, ids: Seq<usize>, ray: Ray, t_min: int, t_max: int)
    ensures
        match best_over(shapes, ids, ray, t_min, t_max) {
            None => forall|j: int|
                0 <= j < ids.len() ==> shape_hit_s(shapes[ids[j] as int], ray, t_min, t_max)
                    is None,
            Some(p) => {
                &&& ids.contains(p.0)
                &&& shape_hit_s(shapes[p.0 as int], ray, t_min, t_max) == Some(p.1)
                &&& forall|j: int|
                    0 <= j < ids.len() ==> (#[trigger] shape_hit_s(
                        shapes[ids[j] as int],
                        ray,
                        t_min,
                        t_max,
                    ) matches Some(h) ==> p.1.t <= h.t)
            },
        },
    decreases ids.len(),
{
    if ids.len() > 0 {
        lemma_best_char(shapes, ids.drop_last(), ray, t_min, t_max);
        assert(forall|j: int| 0 <= j < ids.len() - 1 ==> ids[j] == ids.drop_last()[j]);
        match best_over(shapes, ids, ray, t_min, t_max) {
            None => {},
            Some(p) => {
                if ids.drop_last().contains(p.0) {
                    assert(ids.contains(p.0));
                } else {
                    assert(ids[ids.len() - 1] == ids.last());
                }
            },
        }
    }
}

/// Membership transfers across equal multisets.
proof fn lemma_multiset_membership(a: Seq<usize>, b: Seq<usize>, x: usize)
    requires
        a.to_multiset() == b.to_multiset(),
        a.contains(x),
    ensures
        b.contains(x),
{
    broadcast use vstd::seq_lib::group_to_multiset_ensures;

    assert(a.to_multiset().count(x) > 0);
}

/// The spatial query agrees with the brute-force linear scan: both miss
/// together, and when they hit they report the same nearest parameter.
/// When a single shape attains that parameter the two agree on the shape
/// as well, since each reports a shape that attains it.
pub proof fn lemma_bvh_matches_scan(b: BoundingVolumeHierarchy, ray: Ray, t_min: int, t_max: int)
    requires
        b.wf(),
    ensures
        ({
            let tree = best_over(b.shapes@, subtree_ids(b.nodes@, b.root_i()), ray, t_min, t_max);
            let scan = best_over(b.shapes@, ids_upto(b.shapes@.len() as int), ray, t_min, t_max);
            &&& (tree is Some <==> scan is Some)
            &&& (tree matches Some(p) ==> scan matches Some(q) && q.1.t == p.1.t)
        }),
{
    broadcast use vstd::seq_lib::group_to_multiset_ensures;

    let ids_t = subtree_ids(b.nodes@, b.root_i());
    let ids_s = ids_upto(b.shapes@.len() as int);
    let tree = best_over(b.shapes@, ids_t, ray, t_min, t_max);
    let scan = best_over(b.shapes@, ids_s, ray, t_min, t_max);
    lemma_best_char(b.shapes@, ids_t, ray, t_min, t_max);
    lemma_best_char(b.shapes@, ids_s, ray, t_min, t_max);
    match tree {
        Some(p) => {
            lemma_multiset_membership(ids_t, ids_s, p.0);
            assert(scan is Some);
            let q = scan.unwrap();
            lemma_multiset_membership(ids_s, ids_t, q.0);
            let jt = choose|j: int| 0 <= j < ids_t.len() && ids_t[j] == q.0;
            let js = choose|j: int| 0 <= j < ids_s.len() && ids_s[j] == p.0;
            assert(p.1.t <= q.1.t);
            assert(q.1.t <= p.1.t);
        },
        None => {
            match scan {
                Some(q) => {
                    lemma_multiset_membership(ids_s, ids_t, q.0);
                    let jt = choose|j: int| 0 <= j < ids_t.len() && ids_t[j] == q.0;
                    assert(shape_hit_s(b.shapes@[ids_t[jt] as int], ray, t_min, t_max) is None);
                    assert(false);
                },
                None => {},
            }
        },
    }
}

/// Each id below `n` occurs exactly once in 0, ..., n-1.
proof fn lemma_ids_upto_count(n: int, k: usize)
    requires
        0 <= n <= usize::MAX,
    ensures
        ids_upto(n).to_multiset().count(k) == if (k as int) < n {
            1int
        } else {
            0int
        },
    decreases n,
{
    broadcast use vstd::seq_lib::group_to_multiset_ensures;

    if n == 0 {
        assert(ids_upto(0) =~= Seq::<usize>::empty());
        assert(ids_upto(0).to_multiset() =~= Multiset::<usize>::empty());
    } else {
        lemma_ids_upto_count(n - 1, k);
        assert(ids_upto(n) =~= ids_upto(n - 1).push((n - 1) as usize));
        assert(ids_upto(n - 1).push((n - 1) as usize).to_multiset() =~= ids_upto(
            n - 1,
        ).to_multiset().insert((n - 1) as usize));
    }
}

/// The leaves of a built hierarchy partition the scene: as many leaves as
/// shapes, and every shape index in exactly one leaf.
pub proof fn lemma_bvh_leaf_partition(b: BoundingVolumeHierarchy)
    requires
        b.wf(),
    ensures
        subtree_ids(b.nodes@, b.root_i()).len() == b.shapes@.len(),
        forall|k: usize|
            (k as int) < b.shapes@.len() ==> subtree_ids(b.nodes@, b.root_i()).to_multiset().count(
                k,
            ) == 1,
        forall|k: usize|
            (k as int) >= b.shapes@.len() ==> subtree_ids(b.nodes@, b.root_i()).to_multiset().count(
                k,
            ) == 0,
{
    broadcast use vstd::seq_lib::group_to_multiset_ensures;

    vstd::std_specs::vec::axiom_spec_len(&b.shapes);
    let ids = subtree_ids(b.nodes@, b.root_i());
    let n = b.shapes@.len() as int;
    assert(ids.len() == ids.to_multiset().len());
    assert(ids_upto(n).len() == ids_upto(n).to_multiset().len());
    assert(ids_upto(n).len() == n);
    assert forall|k: usize| true implies ids.to_multiset().count(k) == if (k as int) < n {
        1int
    } else {
        0int
    } by {
        lemma_ids_upto_count(n, k);
    }
}

} // verus!
