//! The partition tree that the queries walk: its model, what makes it well
//! formed, and the test that decides it.

use vstd::prelude::*;
use crate::contents::LeafContents;
use crate::fixed::{in_range, magnitude, LIMIT, ONE};
use crate::vec3::Vec3;

verus! {

/// A plane: the points `p` with `dot(p, normal) == dist`.
#[derive(Clone, Copy, PartialEq, Eq, Structural, Debug)]
pub struct Plane {
    pub normal: Vec3,
    pub dist: i64,
}

impl Plane {
    /// No component of the normal exceeds one, and the distance is within
    /// the limit of the queries.
    pub open spec fn wf(self) -> bool {
        self.normal@.bounded(ONE as int) && magnitude(self.dist as int) <= LIMIT
    }

    pub fn is_well_formed(&self) -> (r: bool)
        ensures
            r == self.wf(),
    {
        in_range(self.normal.x, ONE) && in_range(self.normal.y, ONE) && in_range(
            self.normal.z,
            ONE,
        ) && in_range(self.dist, LIMIT)
    }
}

/// A node as the queries see it: a plane, and the child on its front and
/// the child on its back. A child that is negative is a leaf code.
#[derive(Clone, Copy, Debug)]
pub struct BspQueryNode {
    pub plane_index: usize,
    pub children: [i32; 2],
}

/// The upper limit of node indices: a child is an `i32`.
pub const RANK_MAX: usize = 0x8000_0000;

/// The model of a partition tree. The leaf with code `c` has the contents
/// `contents[-(c + 1)]`.
pub struct Tree {
    pub nodes: Seq<BspQueryNode>,
    pub planes: Seq<Plane>,
    pub contents: Seq<LeafContents>,
}

impl Tree {
    /// The child of node `idx` on the front (`side` 0) or the back (1).
    pub open spec fn child(self, idx: int, side: int) -> int {
        self.nodes[idx].children[side] as int
    }

    /// The plane of node `idx`.
    pub open spec fn plane_of(self, idx: int) -> Plane {
        self.planes[self.nodes[idx].plane_index as int]
    }

    /// Whether `code` is the code of a leaf of this tree.
    pub open spec fn has_leaf(self, code: int) -> bool {
        code < 0 && -(code + 1) < self.contents.len()
    }

    /// The contents of the leaf with the given code.
    pub open spec fn leaf_contents(self, code: int) -> LeafContents {
        self.contents[-(code + 1)]
    }

    /// Whether the child `c` of a node of rank `parent` is a leaf of the
    /// tree, or a node of lower, positive rank.
    pub open spec fn child_ranked(self, rank: Seq<nat>, c: int, parent: nat) -> bool {
        if c < 0 {
            self.has_leaf(c)
        } else {
            c < self.nodes.len() && 0 < rank[c] < parent
        }
    }

    /// Whether node `idx` names a well-formed plane and children of lower
    /// rank.
    pub open spec fn node_ranked(self, rank: Seq<nat>, idx: int) -> bool {
        &&& rank[idx] <= RANK_MAX
        &&& self.nodes[idx].plane_index < self.planes.len()
        &&& self.plane_of(idx).wf()
        &&& self.child_ranked(rank, self.child(idx, 0), rank[idx])
        &&& self.child_ranked(rank, self.child(idx, 1), rank[idx])
    }

    /// Whether `rank` shows the tree to be well formed. The nodes of
    /// positive rank include the root and every node under it; each of them
    /// names a plane and two children that exist, and every step down lowers
    /// the rank, so no walk from the root comes back to a node.
    pub open spec fn ranked_by(self, rank: Seq<nat>) -> bool {
        &&& self.nodes.len() > 0
        &&& rank.len() == self.nodes.len()
        &&& rank[0] > 0
        &&& forall|i: int|
            0 <= i < self.nodes.len() && #[trigger] rank[i] > 0 ==> self.node_ranked(rank, i)
    }

    /// The tree is well formed: all that can be reached from the root is in
    /// range, and no walk from the root comes back to a node.
    pub open spec fn wf(self) -> bool {
        exists|rank: Seq<nat>| self.ranked_by(rank)
    }

    /// A ranking of a well-formed tree.
    pub closed spec fn ranking(self) -> Seq<nat> {
        choose|rank: Seq<nat>| self.ranked_by(rank)
    }

    /// The rank of a child: zero for a leaf.
    pub open spec fn rank_of(self, idx: int) -> nat {
        if 0 <= idx < self.nodes.len() {
            self.ranking()[idx]
        } else {
            0
        }
    }

    /// Whether `idx` is a leaf or a node under the root of a well-formed
    /// tree.
    pub open spec fn reaches(self, idx: int) -> bool {
        if idx < 0 {
            self.has_leaf(idx)
        } else {
            idx < self.nodes.len() && self.rank_of(idx) > 0
        }
    }

    /// In a well-formed tree the root is reached, and whatever is reached
    /// has a plane in range and children that are reached and of lower rank.
    pub proof fn lemma_reaches(self, idx: int)
        requires
            self.wf(),
        ensures
            self.reaches(0),
            self.reaches(idx) && idx >= 0 ==> {
                &&& self.rank_of(idx) <= RANK_MAX
                &&& self.nodes[idx].plane_index < self.planes.len()
                &&& self.plane_of(idx).wf()
                &&& self.reaches(self.child(idx, 0))
                &&& self.reaches(self.child(idx, 1))
                &&& self.rank_of(self.child(idx, 0)) < self.rank_of(idx)
                &&& self.rank_of(self.child(idx, 1)) < self.rank_of(idx)
            },
    {
        let rank = self.ranking();
        assert(self.ranked_by(rank));
        if self.reaches(idx) && idx >= 0 {
            assert(rank[idx] > 0);
            assert(self.node_ranked(rank, idx));
        }
    }
}

/// How many entries of `heights` are positive.
pub open spec fn count_positive(heights: Seq<usize>) -> nat
    decreases heights.len(),
{
    if heights.len() == 0 {
        0
    } else {
        count_positive(heights.drop_last()) + if heights.last() > 0 {
            1nat
        } else {
            0nat
        }
    }
}

proof fn lemma_count_bound(heights: Seq<usize>)
    ensures
        count_positive(heights) <= heights.len(),
    decreases heights.len(),
{
    if heights.len() > 0 {
        lemma_count_bound(heights.drop_last());
    }
}

proof fn lemma_count_all_zero(heights: Seq<usize>)
    requires
        forall|i: int| 0 <= i < heights.len() ==> heights[i] == 0,
    ensures
        count_positive(heights) == 0,
    decreases heights.len(),
{
    if heights.len() > 0 {
        lemma_count_all_zero(heights.drop_last());
    }
}

proof fn lemma_count_update(heights: Seq<usize>, i: int, h: usize)
    requires
        0 <= i < heights.len(),
        heights[i] == 0,
        h > 0,
    ensures
        count_positive(heights.update(i, h)) == count_positive(heights) + 1,
        count_positive(heights) < heights.len(),
    decreases heights.len(),
{
    let updated = heights.update(i, h);
    if i == heights.len() - 1 {
        assert(updated.drop_last() =~= heights.drop_last());
        lemma_count_bound(heights.drop_last());
    } else {
        assert(updated.drop_last() =~= heights.drop_last().update(i, h));
        lemma_count_update(heights.drop_last(), i, h);
    }
}

/// The ranking that a table of heights stands for: the height of each node
/// that has one, and zero for the rest.
pub open spec fn heights_rank(heights: Seq<usize>, len: nat) -> Seq<nat> {
    Seq::new(
        len,
        |i: int|
            if i < heights.len() {
                heights[i] as nat
            } else {
                0nat
            },
    )
}

/// Whether the child `c` is a leaf of the tree or a node whose height is
/// positive and below `pass`.
pub open spec fn child_settled(tree: Tree, heights: Seq<usize>, c: int, pass: int) -> bool {
    if c < 0 {
        tree.has_leaf(c)
    } else {
        c < heights.len() && 0 < heights[c] < pass
    }
}

/// Whether node `idx` names a well-formed plane and two settled children.
pub open spec fn node_settled(tree: Tree, heights: Seq<usize>, idx: int, pass: int) -> bool {
    &&& tree.nodes[idx].plane_index < tree.planes.len()
    &&& tree.plane_of(idx).wf()
    &&& child_settled(tree, heights, tree.child(idx, 0), pass)
    &&& child_settled(tree, heights, tree.child(idx, 1), pass)
}

/// Every node with a height settled when it got that height.
pub open spec fn heights_sound(tree: Tree, heights: Seq<usize>) -> bool {
    forall|i: int|
        0 <= i < heights.len() && #[trigger] heights[i] > 0 ==> heights[i] <= RANK_MAX
            && node_settled(tree, heights, i, heights[i] as int)
}

/// Where no node without a height is settled, every node that a ranking
/// of the tree ranks has a height.
proof fn lemma_ranked_has_height(
    tree: Tree,
    rank: Seq<nat>,
    heights: Seq<usize>,
    pass: int,
    idx: int,
)
    requires
        tree.ranked_by(rank),
        heights.len() <= tree.nodes.len(),
        heights.len() == tree.nodes.len() || heights.len() == RANK_MAX,
        forall|i: int| 0 <= i < heights.len() ==> #[trigger] heights[i] < pass,
        forall|i: int|
            0 <= i < heights.len() && #[trigger] heights[i] == 0 ==> !node_settled(
                tree,
                heights,
                i,
                pass,
            ),
        0 <= idx < heights.len(),
        rank[idx] > 0,
    ensures
        heights[idx] > 0,
    decreases rank[idx],
{
    if heights[idx] == 0 {
        assert(tree.node_ranked(rank, idx));
        assert(!node_settled(tree, heights, idx, pass));
        let c0 = tree.child(idx, 0);
        let c1 = tree.child(idx, 1);
        if !child_settled(tree, heights, c0, pass) {
            assert(heights[c0] < pass);
            lemma_ranked_has_height(tree, rank, heights, pass, c0);
        } else {
            assert(heights[c1] < pass);
            lemma_ranked_has_height(tree, rank, heights, pass, c1);
        }
    }
}

/// Whether the child `c` is a leaf or a node with a height below `pass`.
fn child_is_settled(heights: &Vec<usize>, leaf_count: usize, c: i32, pass: usize) -> (r: bool)
    ensures
        r == if c < 0 {
            -(c + 1) < leaf_count
        } else {
            c < heights.len() && 0 < heights[c as int] < pass
        },
{
    if c < 0 {
        let leaf: i64 = -(c as i64 + 1);
        (leaf as u64) < (leaf_count as u64)
    } else {
        let i: usize = c as usize;
        i < heights.len() && 0 < heights[i] && heights[i] < pass
    }
}

/// Decides whether a tree is well formed.
///
/// Heights are given out in passes over the node table: in pass `k` a node
/// gets the height `k` if it names a well-formed plane and each of its
/// children is a leaf or got its height in an earlier pass. When a pass
/// gives out nothing, the tree is well formed if and only if the root has a
/// height.
pub(crate) fn check_tree(
    nodes: &Vec<BspQueryNode>,
    planes: &Vec<Plane>,
    leaf_count: usize,
    Ghost(tree): Ghost<Tree>,
) -> (ok: bool)
    requires
        tree.nodes == nodes@,
        tree.planes == planes@,
        tree.contents.len() == leaf_count,
    ensures
        ok == tree.wf(),
{
    let n: usize = if nodes.len() < RANK_MAX {
        nodes.len()
    } else {
        RANK_MAX
    };
    if n == 0 {
        assert(!tree.wf()) by {
            if tree.wf() {
                let rank = choose|rank: Seq<nat>| tree.ranked_by(rank);
                assert(tree.ranked_by(rank));
            }
        }
        return false;
    }
    let mut heights: Vec<usize> = Vec::new();
    while heights.len() < n
        invariant
            heights.len() <= n,
            forall|i: int| 0 <= i < heights.len() ==> heights[i] == 0,
        decreases n - heights.len(),
    {
        heights.push(0);
    }
    let mut resolved: usize = 0;
    let mut pass: usize = 0;
    let mut changed: bool = true;
    proof {
        lemma_count_all_zero(heights@);
    }
    while changed && resolved < n
        invariant
            tree.nodes == nodes@,
            tree.planes == planes@,
            tree.contents.len() == leaf_count,
            0 < n <= RANK_MAX,
            n == nodes.len() || (n == RANK_MAX && n < nodes.len()),
            heights.len() == n,
            resolved == count_positive(heights@),
            resolved <= n,
            changed ==> pass <= resolved,
            pass <= n,
            heights_sound(tree, heights@),
            forall|i: int| 0 <= i < n ==> #[trigger] heights[i] <= pass,
            !changed ==> forall|i: int| 0 <= i < n ==> #[trigger] heights[i] < pass,
            !changed ==> forall|i: int|
                0 <= i < n && #[trigger] heights[i] == 0 ==> !node_settled(
                    tree,
                    heights@,
                    i,
                    pass as int,
                ),
        decreases n - resolved, (if changed { 1int } else { 0int }),
    {
        let before: usize = resolved;
        pass = pass + 1;
        let mut i: usize = 0;
        while i < n
            invariant
                tree.nodes == nodes@,
                tree.planes == planes@,
                tree.contents.len() == leaf_count,
                0 < n <= RANK_MAX,
                n == nodes.len() || (n == RANK_MAX && n < nodes.len()),
                heights.len() == n,
                0 <= i <= n,
                resolved == count_positive(heights@),
                before <= resolved <= n,
                before < n,
                1 <= pass <= before + 1,
                heights_sound(tree, heights@),
                forall|j: int| 0 <= j < n ==> #[trigger] heights[j] <= pass,
                resolved == before ==> forall|j: int| 0 <= j < n ==> #[trigger] heights[j] < pass,
                forall|j: int|
                    0 <= j < i && #[trigger] heights[j] == 0 ==> !node_settled(
                        tree,
                        heights@,
                        j,
                        pass as int,
                    ),
            decreases n - i,
        {
            if heights[i] == 0 {
                let node = &nodes[i];
                let settled: bool = node.plane_index < planes.len()
                    && planes[node.plane_index].is_well_formed() && child_is_settled(
                    &heights,
                    leaf_count,
                    node.children[0],
                    pass,
                ) && child_is_settled(&heights, leaf_count, node.children[1], pass);
                assert(settled == node_settled(tree, heights@, i as int, pass as int));
                if settled {
                    let ghost old_heights = heights@;
                    heights.set(i, pass);
                    resolved = resolved + 1;
                    proof {
                        lemma_count_update(old_heights, i as int, pass);
                        assert forall|j: int|
                            0 <= j < n && #[trigger] heights[j] > 0 implies heights[j] <= RANK_MAX
                            && node_settled(tree, heights@, j, heights[j] as int) by {
                            if j != i {
                                assert(old_heights[j] > 0);
                                assert(node_settled(tree, old_heights, j, old_heights[j] as int));
                            }
                        }
                        assert forall|j: int|
                            0 <= j < i + 1 && #[trigger] heights[j] == 0 implies !node_settled(
                            tree,
                            heights@,
                            j,
                            pass as int,
                        ) by {
                            assert(old_heights[j] == 0);
                            assert(!node_settled(tree, old_heights, j, pass as int));
                        }
                    }
                }
            }
            i = i + 1;
        }
        changed = resolved > before;
    }
    let ok: bool = heights[0] > 0;
    proof {
        if ok {
            let rank = heights_rank(heights@, tree.nodes.len());
            assert forall|i: int|
                0 <= i < tree.nodes.len() && #[trigger] rank[i] > 0 implies tree.node_ranked(
                rank,
                i,
            ) by {
                assert(heights[i] > 0);
                assert(node_settled(tree, heights@, i, heights[i] as int));
            }
            assert(tree.ranked_by(rank));
        } else {
            if changed {
                lemma_count_update(heights@, 0, 1);
            } else if tree.wf() {
                let rank = choose|rank: Seq<nat>| tree.ranked_by(rank);
                lemma_ranked_has_height(tree, rank, heights@, pass as int, 0);
            }
        }
    }
    ok
}

} // verus!
