//! Queries against a partition tree: which region holds a point, and where
//! a ray first meets a region that it cannot pass.

use vstd::prelude::*;
use crate::bsp::Bsp;
use crate::contents::{ContentsSet, LeafContents};
use crate::fixed::{
    abs, fx_div, lemma_quotient_bound, magnitude, ratio, EPSILON, LIMIT, ONE,
};
use crate::tree::{check_tree, BspQueryNode, Plane, Tree};
use crate::vec3::{
    dot, lemma_axes_linear, lemma_dot_bound, lemma_dot_commutes, lemma_dot_negate,
    lemma_scaled_bound, length, minus, negated, plus, scaled, to_bsp, to_wld, try_normalize, zero,
    Vec3, V3,
};

verus! {

/// What a query needs of a partition tree.
pub trait BspQuery {
    /// The tree that the three operations read.
    spec fn tree(&self) -> Tree;

    /// The node with the given index.
    fn get_node(&self, idx: usize) -> (node: BspQueryNode)
        requires
            idx < self.tree().nodes.len(),
        ensures
            node == self.tree().nodes[idx as int],
    ;

    /// The plane with the given index.
    fn get_plane(&self, idx: usize) -> (plane: &Plane)
        requires
            idx < self.tree().planes.len(),
        ensures
            *plane == self.tree().planes[idx as int],
    ;

    /// The contents of the leaf with the given negative code.
    fn get_contents(&self, idx: i32) -> (contents: LeafContents)
        requires
            self.tree().has_leaf(idx as int),
        ensures
            contents == self.tree().leaf_contents(idx as int),
    ;
}

/// The visibility tree of a level: its leaves are the level's leaf records.
pub struct BspVisQuery<'a> {
    pub bsp: &'a Bsp,
}

impl<'a> BspVisQuery<'a> {
    pub fn new(bsp: &'a Bsp) -> (r: BspVisQuery<'a>)
        ensures
            r.bsp == bsp,
    {
        BspVisQuery { bsp }
    }

    /// Whether the visibility tree is well formed, so that it can be
    /// queried.
    pub fn is_well_formed(&self) -> (r: bool)
        ensures
            r == self.tree().wf(),
    {
        let mut nodes: Vec<BspQueryNode> = Vec::new();
        let mut i: usize = 0;
        while i < self.bsp.nodes.len()
            invariant
                0 <= i <= self.bsp.nodes.len(),
                nodes.len() == i,
                forall|j: int| 0 <= j < i ==> nodes[j] == self.tree().nodes[j],
            decreases self.bsp.nodes.len() - i,
        {
            nodes.push(self.get_node(i));
            i = i + 1;
        }
        assert(nodes@ =~= self.tree().nodes);
        check_tree(&nodes, &self.bsp.planes, self.bsp.leafs.len(), Ghost(self.tree()))
    }
}

impl<'a> BspQuery for BspVisQuery<'a> {
    open spec fn tree(&self) -> Tree {
        self.bsp.vis_tree()
    }

    fn get_node(&self, idx: usize) -> (node: BspQueryNode) {
        let node = &self.bsp.nodes[idx];
        BspQueryNode { plane_index: node.plane_index as usize, children: node.children }
    }

    fn get_plane(&self, idx: usize) -> (plane: &Plane) {
        &self.bsp.planes[idx]
    }

    fn get_contents(&self, idx: i32) -> (contents: LeafContents) {
        let leaf: usize = (-(idx as i64 + 1)) as usize;
        self.bsp.leafs[leaf].contents
    }
}

/// The clip tree of a level: a negative child is itself a content code.
pub struct BspClipQuery<'a> {
    pub bsp: &'a Bsp,
}

impl<'a> BspClipQuery<'a> {
    pub fn new(bsp: &'a Bsp) -> (r: BspClipQuery<'a>)
        ensures
            r.bsp == bsp,
    {
        BspClipQuery { bsp }
    }

    /// Whether the clip tree is well formed, so that it can be queried.
    pub fn is_well_formed(&self) -> (r: bool)
        ensures
            r == self.tree().wf(),
    {
        let mut nodes: Vec<BspQueryNode> = Vec::new();
        let mut i: usize = 0;
        while i < self.bsp.clip_nodes.len()
            invariant
                0 <= i <= self.bsp.clip_nodes.len(),
                nodes.len() == i,
                forall|j: int| 0 <= j < i ==> nodes[j] == self.tree().nodes[j],
            decreases self.bsp.clip_nodes.len() - i,
        {
            nodes.push(self.get_node(i));
            i = i + 1;
        }
        assert(nodes@ =~= self.tree().nodes);
        check_tree(&nodes, &self.bsp.planes, 8, Ghost(self.tree()))
    }
}

impl<'a> BspQuery for BspClipQuery<'a> {
    open spec fn tree(&self) -> Tree {
        self.bsp.clip_tree()
    }

    fn get_node(&self, idx: usize) -> (node: BspQueryNode) {
        let node = &self.bsp.clip_nodes[idx];
        BspQueryNode { plane_index: node.plane_index as usize, children: node.children }
    }

    fn get_plane(&self, idx: usize) -> (plane: &Plane) {
        &self.bsp.planes[idx]
    }

    fn get_contents(&self, idx: i32) -> (contents: LeafContents) {
        proof {
            LeafContents::lemma_code_round_trip(LeafContents::Empty, idx as int);
        }
        LeafContents::from_repr(idx).unwrap()
    }
}

/// The signed distance of the point `p` from a plane: positive in front of
/// it.
pub open spec fn side_distance(plane: Plane, p: V3) -> int {
    p.dot(plane.normal@) - plane.dist
}

/// The child of node `idx` on the side of the plane where `p` lies: the
/// front child where the signed distance is positive, else the back child.
pub open spec fn child_toward(tree: Tree, p: V3, idx: int) -> int {
    if side_distance(tree.plane_of(idx), p) > 0 {
        tree.child(idx, 0)
    } else {
        tree.child(idx, 1)
    }
}

/// The code of the leaf that the descent from `idx` reaches for the point
/// `p`, given in partition coordinates.
pub open spec fn leaf_code(tree: Tree, p: V3, idx: int) -> int
    decreases tree.rank_of(idx),
{
    if idx < 0 || !tree.wf() || !tree.reaches(idx) {
        idx
    } else {
        proof {
            tree.lemma_reaches(idx);
        }
        leaf_code(tree, p, child_toward(tree, p, idx))
    }
}

/// The contents of the region that holds the point `p`, given in world
/// coordinates.
pub open spec fn point_contents(tree: Tree, p: V3) -> LeafContents {
    tree.leaf_contents(leaf_code(tree, p.to_bsp(), 0))
}

/// Computes the signed distance of a point from a plane.
pub(crate) fn plane_distance(plane: &Plane, p: Vec3, Ghost(bound): Ghost<int>) -> (d: i64)
    requires
        plane.wf(),
        p@.bounded(bound),
        0 <= bound <= 0x1000_0000_0000_0000,
    ensures
        d == side_distance(*plane, p@),
        magnitude(d as int) <= 3 * bound + LIMIT,
{
    proof {
        lemma_dot_bound(p@, plane.normal@, bound);
    }
    dot(p, plane.normal) - plane.dist
}

/// Finds the contents of the region that holds a point.
///
/// The descent starts at the root. At each node it takes the front child
/// where the point is strictly in front of the node's plane and the back
/// child otherwise, until the child is a leaf.
pub fn point_intersect<Q: BspQuery>(bsp: &Q, point: Vec3) -> (contents: LeafContents)
    requires
        bsp.tree().wf(),
        point@.bounded(LIMIT as int),
    ensures
        contents == point_contents(bsp.tree(), point@),
{
    let ghost tree = bsp.tree();
    let p = to_bsp(point);
    let mut idx: usize = 0;
    proof {
        tree.lemma_reaches(0);
    }
    loop
        invariant
            tree == bsp.tree(),
            tree.wf(),
            p@ == point@.to_bsp(),
            p@.bounded(LIMIT as int),
            tree.reaches(idx as int),
            leaf_code(tree, p@, idx as int) == leaf_code(tree, p@, 0),
        decreases tree.rank_of(idx as int),
    {
        proof {
            tree.lemma_reaches(idx as int);
        }
        let node = bsp.get_node(idx);
        let plane = bsp.get_plane(node.plane_index);
        let d: i64 = plane_distance(plane, p, Ghost(LIMIT as int));
        let next: i32 = if d > 0 {
            node.children[0]
        } else {
            node.children[1]
        };
        assert(next == child_toward(tree, p@, idx as int));
        assert(leaf_code(tree, p@, idx as int) == leaf_code(tree, p@, next as int));
        if next < 0 {
            return bsp.get_contents(next);
        } else {
            idx = next as usize;
        }
    }
}

/// A direction shorter than this has no direction (about 0.0001).
pub const MIN_DIRECTION: i64 = 7;

/// The largest magnitude that a coordinate takes during a walk.
pub const WALK_LIMIT: i64 = 3_605_625_044_992;

/// The plane that a ray crossed last, and whether the ray met its back, so
/// that the surface normal is the plane's normal reversed.
#[derive(Clone, Copy, PartialEq, Eq, Structural, Debug)]
pub struct IntersectData {
    pub plane_index: usize,
    pub reverse_normal: bool,
}

/// The model of a hit inside the tree: how far along the ray it lies, the
/// plane crossed last, and the contents of the region that stopped the ray.
pub struct Hit {
    pub distance: int,
    pub data: Option<IntersectData>,
    pub contents: LeafContents,
}

/// A hit inside the tree.
#[derive(Clone, Copy, Debug)]
pub struct IntersectionInternal {
    pub d: i64,
    pub data: Option<IntersectData>,
    pub contents: LeafContents,
}

impl View for IntersectionInternal {
    type V = Hit;

    open spec fn view(&self) -> Hit {
        Hit { distance: self.d as int, data: self.data, contents: self.contents }
    }
}

/// The model of what an optional hit holds.
pub open spec fn hit_view(hit: Option<IntersectionInternal>) -> Option<Hit> {
    match hit {
        Some(h) => Some(h@),
        None => None,
    }
}

/// What a ray meets at a leaf: nothing where the ray passes the contents,
/// else a hit at distance zero that carries the plane crossed last.
pub open spec fn leaf_hit(
    tree: Tree,
    passable: Set<LeafContents>,
    code: int,
    data: Option<IntersectData>,
) -> Option<Hit> {
    let contents = tree.leaf_contents(code);
    if passable.contains(contents) {
        None
    } else {
        Some(Hit { distance: 0, data, contents })
    }
}

/// How far along the ray the plane lies, for a point at signed distance
/// `d` and a direction whose dot product with the normal is `n`.
pub open spec fn reach_distance(d: int, n: int) -> int
    recommends
        n != 0,
{
    magnitude(ratio(d, n))
}

/// Whether a ray of length `dist` stays on the side of the plane where it
/// starts: it runs along the plane, or away from it, or ends before it.
pub open spec fn stays_on_side(d: int, n: int, dist: int) -> bool {
    n == 0 || (d >= 0) == (n >= 0) || reach_distance(d, n) > dist
}

/// The outcome for a ray that runs along a plane, from what it meets just
/// in front of the plane and just behind it. A hit at distance zero on one
/// side gives way to the outcome of the other side; of two other hits the
/// nearer wins. The result is `None` where neither side meets anything.
pub open spec fn settle(front: Option<Hit>, back: Option<Hit>) -> Option<Option<Hit>> {
    if front.is_some() && front.unwrap().distance == 0 {
        Some(back)
    } else if back.is_some() && back.unwrap().distance == 0 {
        Some(front)
    } else if front.is_some() && back.is_some() {
        if front.unwrap().distance < back.unwrap().distance {
            Some(front)
        } else {
            Some(back)
        }
    } else if front.is_some() {
        Some(front)
    } else if back.is_some() {
        Some(back)
    } else {
        None
    }
}

/// A hit beyond a plane that lies `reach` along the ray.
pub open spec fn beyond(reach: int, hit: Option<Hit>) -> Option<Hit> {
    match hit {
        Some(h) => Some(Hit { distance: reach + h.distance, data: h.data, contents: h.contents }),
        None => None,
    }
}

/// What a ray meets in the tree under `idx`.
///
/// The ray starts at `p`, runs along the unit vector `dir` for `dist`, all
/// in partition coordinates, and passes the contents in `passable`. `data`
/// is the plane that the ray crossed last on its way to `idx`.
pub open spec fn travel(
    tree: Tree,
    passable: Set<LeafContents>,
    p: V3,
    dir: V3,
    dist: int,
    idx: int,
    data: Option<IntersectData>,
) -> Option<Hit>
    decreases tree.rank_of(idx),
{
    if idx < 0 {
        leaf_hit(tree, passable, idx, data)
    } else if !tree.wf() || !tree.reaches(idx) {
        None
    } else {
        proof {
            tree.lemma_reaches(idx);
        }
        let plane = tree.plane_of(idx);
        let plane_index = tree.nodes[idx].plane_index;
        let d = side_distance(plane, p);
        let n = dir.dot(plane.normal@);
        let front = tree.child(idx, 0);
        let back = tree.child(idx, 1);
        let met_back = Some(IntersectData { plane_index, reverse_normal: true });
        let met_front = Some(IntersectData { plane_index, reverse_normal: false });
        let on_plane = magnitude(d) < EPSILON;
        if on_plane && n > EPSILON {
            travel(tree, passable, p, dir, dist, front, met_back)
        } else if on_plane && n < -EPSILON {
            travel(tree, passable, p, dir, dist, back, met_front)
        } else {
            let offset = plane.normal@.scaled(EPSILON as int);
            let along = if on_plane {
                settle(
                    travel(tree, passable, p.plus(offset), dir, dist, front, met_back),
                    travel(tree, passable, p.minus(offset), dir, dist, back, met_front),
                )
            } else {
                None
            };
            if along.is_some() {
                along.unwrap()
            } else {
                let close = if d > 0 {
                    front
                } else {
                    back
                };
                let far = if d > 0 {
                    back
                } else {
                    front
                };
                if stays_on_side(d, n, dist) {
                    travel(tree, passable, p, dir, dist, close, data)
                } else {
                    let reach = reach_distance(d, n);
                    let near = travel(tree, passable, p, dir, reach, close, data);
                    if near.is_some() {
                        near
                    } else {
                        beyond(
                            reach,
                            travel(
                                tree,
                                passable,
                                p.plus(dir.scaled(reach)),
                                dir,
                                dist - reach,
                                far,
                                Some(IntersectData { plane_index, reverse_normal: d <= 0 }),
                            ),
                        )
                    }
                }
            }
        }
    }
}

/// The part of the coordinate range that a walk under `idx` with the
/// budget `dist` may still use up.
pub open spec fn room(tree: Tree, idx: int, dist: int) -> int {
    (if dist > 0 {
        dist
    } else {
        0
    }) + tree.rank_of(idx) * EPSILON
}

/// Whether the plane that `data` names is a well-formed plane of the tree.
pub open spec fn data_ok(tree: Tree, data: Option<IntersectData>) -> bool {
    data matches Some(c) ==> c.plane_index < tree.planes.len()
        && tree.planes[c.plane_index as int].wf()
}

/// Decides between the two sides for a ray that runs along a plane.
fn settle_parallel(d1: Option<IntersectionInternal>, d2: Option<IntersectionInternal>) -> (r: (
    bool,
    Option<IntersectionInternal>,
))
    ensures
        settle(hit_view(d1), hit_view(d2)) == if r.0 {
            Some(hit_view(r.1))
        } else {
            None
        },
        r.0 ==> r.1 == d1 || r.1 == d2,
{
    match (d1, d2) {
        (Some(h1), Some(h2)) => {
            if h1.d == 0 {
                (true, d2)
            } else if h2.d == 0 {
                (true, d1)
            } else if h1.d < h2.d {
                (true, d1)
            } else {
                (true, d2)
            }
        },
        (Some(h1), None) => {
            if h1.d == 0 {
                (true, d2)
            } else {
                (true, d1)
            }
        },
        (None, Some(h2)) => {
            if h2.d == 0 {
                (true, d1)
            } else {
                (true, d2)
            }
        },
        (None, None) => (false, None),
    }
}

/// Walks the tree under `idx` along a ray.
#[verifier::rlimit(100)]
#[verifier::spinoff_prover]
fn ray_intersect_recursive<Q: BspQuery>(
    bsp: &Q,
    point: Vec3,
    dir: Vec3,
    dist: i64,
    passable: ContentsSet,
    idx: i32,
    data: Option<IntersectData>,
) -> (r: Option<IntersectionInternal>)
    requires
        bsp.tree().wf(),
        bsp.tree().reaches(idx as int),
        dir@.bounded(ONE as int),
        magnitude(dist as int) <= LIMIT,
        point@.bounded(WALK_LIMIT - room(bsp.tree(), idx as int, dist as int)),
        data_ok(bsp.tree(), data),
    ensures
        hit_view(r) == travel(
            bsp.tree(),
            passable@,
            point@,
            dir@,
            dist as int,
            idx as int,
            data,
        ),
        r matches Some(h) ==> 0 <= h.d && (h.d <= dist || h.d == 0) && data_ok(
            bsp.tree(),
            h.data,
        ),
    decreases bsp.tree().rank_of(idx as int),
{
    let ghost tree = bsp.tree();
    if idx < 0 {
        let contents = bsp.get_contents(idx);
        if passable.contains(contents) {
            return None;
        } else {
            return Some(IntersectionInternal { d: 0, data, contents });
        }
    }
    proof {
        tree.lemma_reaches(idx as int);
    }
    let node = bsp.get_node(idx as usize);
    let plane_index: usize = node.plane_index;
    let plane = bsp.get_plane(plane_index);
    let d: i64 = plane_distance(plane, point, Ghost(WALK_LIMIT as int));
    proof {
        lemma_dot_bound(dir@, plane.normal@, ONE as int);
    }
    let n: i64 = dot(dir, plane.normal);
    let front: i32 = node.children[0];
    let back: i32 = node.children[1];
    let met_back = Some(IntersectData { plane_index, reverse_normal: true });
    let met_front = Some(IntersectData { plane_index, reverse_normal: false });
    assert(room(tree, front as int, dist as int) <= room(tree, idx as int, dist as int) - EPSILON);
    assert(room(tree, back as int, dist as int) <= room(tree, idx as int, dist as int) - EPSILON);

    // A point on the plane takes the side that the ray runs toward.
    if abs(d) < EPSILON {
        if n > EPSILON {
            return ray_intersect_recursive(bsp, point, dir, dist, passable, front, met_back);
        } else if n < -EPSILON {
            return ray_intersect_recursive(bsp, point, dir, dist, passable, back, met_front);
        } else {
            proof {
                lemma_scaled_bound(plane.normal@, EPSILON as int);
            }
            let offset = scaled(plane.normal, EPSILON);
            let d1 = ray_intersect_recursive(
                bsp,
                plus(point, offset),
                dir,
                dist,
                passable,
                front,
                met_back,
            );
            let d2 = ray_intersect_recursive(
                bsp,
                minus(point, offset),
                dir,
                dist,
                passable,
                back,
                met_front,
            );
            let (decided, along) = settle_parallel(d1, d2);
            if decided {
                return along;
            }
        }
    }
    let far_reverse_normal: bool = d <= 0;
    let close_child: i32 = if d > 0 {
        front
    } else {
        back
    };
    let far_child: i32 = if d > 0 {
        back
    } else {
        front
    };
    if n == 0 || (d >= 0) == (n >= 0) {
        return ray_intersect_recursive(bsp, point, dir, dist, passable, close_child, data);
    }
    proof {
        lemma_quotient_bound(d * ONE, n as int);
    }
    let dist_to_plane: i64 = abs(fx_div(d, n));
    if dist_to_plane > dist {
        return ray_intersect_recursive(bsp, point, dir, dist, passable, close_child, data);
    }
    // The ray crosses the plane: the near part first, then the far part.

    let d1 = ray_intersect_recursive(bsp, point, dir, dist_to_plane, passable, close_child, data);
    if d1.is_some() {
        return d1;
    }
    proof {
        lemma_scaled_bound(dir@, dist_to_plane as int);
    }
    let midpoint = plus(point, scaled(dir, dist_to_plane));
    let d2 = ray_intersect_recursive(
        bsp,
        midpoint,
        dir,
        dist - dist_to_plane,
        passable,
        far_child,
        Some(IntersectData { plane_index, reverse_normal: far_reverse_normal }),
    );
    match d2 {
        Some(h) => Some(
            IntersectionInternal { d: dist_to_plane + h.d, data: h.data, contents: h.contents },
        ),
        None => None,
    }
}

/// Where a ray met a region that it cannot pass, in world coordinates.
#[derive(Clone, Copy, PartialEq, Eq, Structural, Debug)]
pub struct Intersection {
    /// How far along the ray the hit lies.
    pub distance: i64,
    /// The point of the hit.
    pub position: Vec3,
    /// The normal of the surface that was hit, turned toward the origin of
    /// the ray; zero where the ray crossed no plane.
    pub normal: Vec3,
    /// The contents of the region that stopped the ray.
    pub contents: LeafContents,
}

/// The model of an intersection.
pub struct Contact {
    pub distance: int,
    pub position: V3,
    pub normal: V3,
    pub contents: LeafContents,
}

impl View for Intersection {
    type V = Contact;

    open spec fn view(&self) -> Contact {
        Contact {
            distance: self.distance as int,
            position: self.position@,
            normal: self.normal@,
            contents: self.contents,
        }
    }
}

/// The normal of the surface behind a hit, in partition coordinates: the
/// normal of the plane crossed last, reversed where the ray met its back,
/// and zero where the ray crossed no plane.
pub open spec fn hit_normal(tree: Tree, data: Option<IntersectData>) -> V3 {
    match data {
        Some(c) => if c.reverse_normal {
            tree.planes[c.plane_index as int].normal@.negated()
        } else {
            tree.planes[c.plane_index as int].normal@
        },
        None => V3::zero(),
    }
}

/// What a ray meets in a tree, all in world coordinates.
///
/// A direction without length gives a hit at the origin of the ray, at
/// distance zero and with no normal. Any other direction is brought to unit
/// length, and the tree is walked from the root.
#[verifier::opaque]
pub open spec fn ray_contact(
    tree: Tree,
    passable: Set<LeafContents>,
    point: V3,
    dir: V3,
    dist: int,
) -> Option<Contact> {
    let p = point.to_bsp();
    let v = dir.to_bsp();
    if v.length() < MIN_DIRECTION {
        Some(
            Contact {
                distance: 0,
                position: point,
                normal: V3::zero(),
                contents: point_contents(tree, point),
            },
        )
    } else {
        let unit = v.normalized();
        match travel(tree, passable, p, unit, dist, 0, None) {
            Some(h) => Some(
                Contact {
                    distance: h.distance,
                    position: p.plus(unit.scaled(h.distance)).to_wld(),
                    normal: hit_normal(tree, h.data).to_wld(),
                    contents: h.contents,
                },
            ),
            None => None,
        }
    }
}

/// Whether `r` is what `ray_intersect` returns for the given arguments.
pub open spec fn is_ray_result(
    r: Option<Intersection>,
    tree: Tree,
    passable: Set<LeafContents>,
    point: V3,
    dir: V3,
    dist: int,
) -> bool {
    match r {
        Some(hit) => ray_contact(tree, passable, point, dir, dist) == Some(hit@),
        None => ray_contact(tree, passable, point, dir, dist).is_none(),
    }
}

/// Finds the first region along a ray that the ray cannot pass.
///
/// The ray starts at `point` and runs along `dir`, which need not have unit
/// length, for the distance `dist`. It passes through regions whose
/// contents are in `passable`. The result is `None` where the ray meets
/// nothing else within `dist`.
pub fn ray_intersect<Q: BspQuery>(
    bsp: &Q,
    point: Vec3,
    dir: Vec3,
    dist: i64,
    passable: ContentsSet,
) -> (r: Option<Intersection>)
    requires
        bsp.tree().wf(),
        point@.bounded(LIMIT as int),
        dir@.bounded(LIMIT as int),
        magnitude(dist as int) <= LIMIT,
    ensures
        is_ray_result(r, bsp.tree(), passable@, point@, dir@, dist as int),
        r matches Some(hit) ==> 0 <= hit.distance && (hit.distance <= dist || hit.distance == 0)
            && hit.position@.minus(point@).bounded(hit.distance as int) && hit.normal@.bounded(
            ONE as int,
        ),
{
    let ghost tree = bsp.tree();
    proof {
        reveal(ray_contact);
    }
    let p = to_bsp(point);
    let v = to_bsp(dir);
    if length(v) < MIN_DIRECTION {
        let contents = point_intersect(bsp, point);
        return Some(Intersection { distance: 0, position: point, normal: zero(), contents });
    }
    let unit = try_normalize(v).unwrap();
    proof {
        tree.lemma_reaches(0);
    }
    match ray_intersect_recursive(bsp, p, unit, dist, passable, 0, None) {
        Some(h) => {
            proof {
                lemma_scaled_bound(unit@, h.d as int);
            }
            let normal = match h.data {
                Some(c) => {
                    let plane = bsp.get_plane(c.plane_index);
                    if c.reverse_normal {
                        negated(plane.normal)
                    } else {
                        plane.normal
                    }
                },
                None => zero(),
            };
            Some(
                Intersection {
                    distance: h.d,
                    position: to_wld(plus(p, scaled(unit, h.d))),
                    normal: to_wld(normal),
                    contents: h.contents,
                },
            )
        },
        None => None,
    }
}

/// Whether `q` lies in the region of the leaf that holds `p`, as far as the
/// tree under `idx` divides space: at each node on the way down from `idx`
/// to that leaf, `q` is on the side of the plane where `p` is.
pub open spec fn shares_region(tree: Tree, p: V3, q: V3, idx: int) -> bool
    decreases tree.rank_of(idx),
{
    if idx < 0 || !tree.wf() || !tree.reaches(idx) {
        true
    } else {
        proof {
            tree.lemma_reaches(idx);
        }
        let plane = tree.plane_of(idx);
        (side_distance(plane, p) > 0) == (side_distance(plane, q) > 0) && shares_region(
            tree,
            p,
            q,
            child_toward(tree, p, idx),
        )
    }
}

/// Two points in the region of one leaf descend to that leaf.
pub proof fn lemma_shared_leaf(tree: Tree, p: V3, q: V3, idx: int)
    requires
        shares_region(tree, p, q, idx),
    ensures
        leaf_code(tree, q, idx) == leaf_code(tree, p, idx),
    decreases tree.rank_of(idx),
{
    if !(idx < 0 || !tree.wf() || !tree.reaches(idx)) {
        tree.lemma_reaches(idx);
        lemma_shared_leaf(tree, p, q, child_toward(tree, p, idx));
    }
}

/// Every point of the region of a leaf has the contents of that leaf:
/// whichever two points of the region are chosen, the point query gives the
/// same contents for both.
pub proof fn lemma_region_has_one_contents(tree: Tree, p: V3, q: V3)
    requires
        tree.wf(),
        shares_region(tree, p.to_bsp(), q.to_bsp(), 0),
    ensures
        point_contents(tree, q) == point_contents(tree, p),
{
    lemma_shared_leaf(tree, p.to_bsp(), q.to_bsp(), 0);
}

/// A ray whose direction has no length hits at its origin, at distance zero
/// and with no normal.
pub proof fn lemma_ray_without_direction(
    tree: Tree,
    passable: Set<LeafContents>,
    point: V3,
    dir: V3,
    dist: int,
)
    requires
        dir.length() < MIN_DIRECTION,
    ensures
        ray_contact(tree, passable, point, dir, dist) matches Some(c) && c.distance == 0
            && c.position == point && c.normal == V3::zero(),
{
    reveal(ray_contact);
    assert(dir.to_bsp().norm_squared() == dir.norm_squared());
}

/// Whether the ray from `p` along `dir` for `dist` stays in the region of
/// the leaf that holds `p`, as far as the tree under `idx` divides space:
/// at each node on the way down to that leaf, `p` is off the plane by the
/// tolerance at least, and the ray stays on the side where it starts.
pub open spec fn stays_in_region(tree: Tree, p: V3, dir: V3, dist: int, idx: int) -> bool
    decreases tree.rank_of(idx),
{
    if idx < 0 || !tree.wf() || !tree.reaches(idx) {
        true
    } else {
        proof {
            tree.lemma_reaches(idx);
        }
        let plane = tree.plane_of(idx);
        let d = side_distance(plane, p);
        let n = dir.dot(plane.normal@);
        magnitude(d) >= EPSILON && stays_on_side(d, n, dist) && stays_in_region(
            tree,
            p,
            dir,
            dist,
            child_toward(tree, p, idx),
        )
    }
}

/// A ray that stays in the region of one leaf meets what that leaf holds:
/// nothing where the ray passes its contents, and a hit at distance zero
/// otherwise.
pub proof fn lemma_travel_in_region(
    tree: Tree,
    passable: Set<LeafContents>,
    p: V3,
    dir: V3,
    dist: int,
    idx: int,
    data: Option<IntersectData>,
)
    requires
        tree.wf(),
        tree.reaches(idx),
        stays_in_region(tree, p, dir, dist, idx),
    ensures
        travel(tree, passable, p, dir, dist, idx, data) == leaf_hit(
            tree,
            passable,
            leaf_code(tree, p, idx),
            data,
        ),
    decreases tree.rank_of(idx),
{
    if idx >= 0 {
        tree.lemma_reaches(idx);
        lemma_travel_in_region(tree, passable, p, dir, dist, child_toward(tree, p, idx), data);
    }
}

/// A ray that stays in a region whose contents it passes meets nothing.
pub proof fn lemma_ray_in_passable_region(
    tree: Tree,
    passable: Set<LeafContents>,
    point: V3,
    dir: V3,
    dist: int,
)
    requires
        tree.wf(),
        dir.to_bsp().length() >= MIN_DIRECTION,
        stays_in_region(tree, point.to_bsp(), dir.to_bsp().normalized(), dist, 0),
        passable.contains(point_contents(tree, point)),
    ensures
        ray_contact(tree, passable, point, dir, dist).is_none(),
{
    reveal(ray_contact);
    tree.lemma_reaches(0);
    lemma_travel_in_region(
        tree,
        passable,
        point.to_bsp(),
        dir.to_bsp().normalized(),
        dist,
        0,
        None,
    );
}

/// The results of two calls of `ray_intersect` with the same arguments are
/// the same.
pub proof fn lemma_ray_repeatable(
    first: Option<Intersection>,
    second: Option<Intersection>,
    tree: Tree,
    passable: Set<LeafContents>,
    point: V3,
    dir: V3,
    dist: int,
)
    requires
        is_ray_result(first, tree, passable, point, dir, dist),
        is_ray_result(second, tree, passable, point, dir, dist),
    ensures
        first == second,
{
}

/// Whether the ray from `p` along `dir` for `dist` crosses one plane of the
/// tree under `idx` and no other, out of a region that it passes and into a
/// leaf that it cannot pass. On the way down to the node of that plane the
/// ray stays on one side of each plane; at that node the near part of the
/// ray stays in a region whose contents it passes, and the far child is a
/// leaf whose contents it does not pass.
pub open spec fn crosses_once(
    tree: Tree,
    passable: Set<LeafContents>,
    p: V3,
    dir: V3,
    dist: int,
    idx: int,
) -> bool
    decreases tree.rank_of(idx),
{
    if idx < 0 || !tree.wf() || !tree.reaches(idx) {
        false
    } else {
        proof {
            tree.lemma_reaches(idx);
        }
        let plane = tree.plane_of(idx);
        let d = side_distance(plane, p);
        let n = dir.dot(plane.normal@);
        let close = child_toward(tree, p, idx);
        let far = if d > 0 {
            tree.child(idx, 1)
        } else {
            tree.child(idx, 0)
        };
        magnitude(d) >= EPSILON && if stays_on_side(d, n, dist) {
            crosses_once(tree, passable, p, dir, dist, close)
        } else {
            &&& stays_in_region(tree, p, dir, reach_distance(d, n), close)
            &&& passable.contains(tree.leaf_contents(leaf_code(tree, p, close)))
            &&& far < 0
            &&& !passable.contains(tree.leaf_contents(far))
        }
    }
}

/// The node under `idx` whose plane the ray crosses.
pub open spec fn crossing_node(tree: Tree, p: V3, dir: V3, dist: int, idx: int) -> int
    decreases tree.rank_of(idx),
{
    if idx < 0 || !tree.wf() || !tree.reaches(idx) {
        idx
    } else {
        proof {
            tree.lemma_reaches(idx);
        }
        let plane = tree.plane_of(idx);
        if stays_on_side(side_distance(plane, p), dir.dot(plane.normal@), dist) {
            crossing_node(tree, p, dir, dist, child_toward(tree, p, idx))
        } else {
            idx
        }
    }
}

/// The hit of a ray that crosses one plane into a leaf that it cannot pass.
/// Its distance is the distance of the plane along the ray: the signed
/// distance of the origin from the plane, divided by the dot product of the
/// direction and the normal, in magnitude. Its normal is turned against the
/// ray: the dot product of the two is negative.
pub proof fn lemma_travel_crossing(
    tree: Tree,
    passable: Set<LeafContents>,
    p: V3,
    dir: V3,
    dist: int,
    idx: int,
    data: Option<IntersectData>,
)
    requires
        tree.wf(),
        tree.reaches(idx),
        crosses_once(tree, passable, p, dir, dist, idx),
    ensures
        ({
            let node = crossing_node(tree, p, dir, dist, idx);
            let plane = tree.plane_of(node);
            let d = side_distance(plane, p);
            let n = dir.dot(plane.normal@);
            &&& node >= 0
            &&& tree.reaches(node)
            &&& n != 0
            &&& travel(tree, passable, p, dir, dist, idx, data) matches Some(hit)
            &&& hit.distance == reach_distance(d, n)
            &&& hit.data == Some(
                IntersectData {
                    plane_index: tree.nodes[node].plane_index,
                    reverse_normal: d <= 0,
                },
            )
            &&& !passable.contains(hit.contents)
            &&& hit_normal(tree, hit.data).dot(dir) < 0
        }),
    decreases tree.rank_of(idx),
{
    tree.lemma_reaches(idx);
    let plane = tree.plane_of(idx);
    let d = side_distance(plane, p);
    let n = dir.dot(plane.normal@);
    let close = child_toward(tree, p, idx);
    if stays_on_side(d, n, dist) {
        lemma_travel_crossing(tree, passable, p, dir, dist, close, data);
    } else {
        let reach = reach_distance(d, n);
        let far = if d > 0 {
            tree.child(idx, 1)
        } else {
            tree.child(idx, 0)
        };
        let crossed = Some(
            IntersectData { plane_index: tree.nodes[idx].plane_index, reverse_normal: d <= 0 },
        );
        lemma_travel_in_region(tree, passable, p, dir, reach, close, data);
        assert(travel(tree, passable, p.plus(dir.scaled(reach)), dir, dist - reach, far, crossed)
            == leaf_hit(tree, passable, far, crossed));
        lemma_dot_commutes(plane.normal@, dir);
        lemma_dot_negate(plane.normal@, dir);
    }
}

/// The law of the single crossing for a whole query: the hit lies at the
/// distance of the crossed plane, and its normal is turned against the
/// direction of the ray.
pub proof fn lemma_ray_single_crossing(
    tree: Tree,
    passable: Set<LeafContents>,
    point: V3,
    dir: V3,
    dist: int,
)
    requires
        tree.wf(),
        dir.to_bsp().length() >= MIN_DIRECTION,
        crosses_once(tree, passable, point.to_bsp(), dir.to_bsp().normalized(), dist, 0),
    ensures
        ({
            let p = point.to_bsp();
            let unit = dir.to_bsp().normalized();
            let plane = tree.plane_of(crossing_node(tree, p, unit, dist, 0));
            &&& ray_contact(tree, passable, point, dir, dist) matches Some(contact)
            &&& contact.distance == reach_distance(
                side_distance(plane, p),
                unit.dot(plane.normal@),
            )
            &&& contact.normal.dot(unit.to_wld()) < 0
            &&& !passable.contains(contact.contents)
        }),
{
    reveal(ray_contact);
    let p = point.to_bsp();
    let unit = dir.to_bsp().normalized();
    tree.lemma_reaches(0);
    lemma_travel_crossing(tree, passable, p, unit, dist, 0, None);
    let hit = travel(tree, passable, p, unit, dist, 0, None).unwrap();
    lemma_axes_linear(hit_normal(tree, hit.data), unit, 0, 0);
}

/// A ray stops only at contents that it cannot pass, at a distance that is
/// not negative: whatever the walk meets is a leaf of the tree whose
/// contents are not among the passable ones.
pub proof fn lemma_hit_is_impassable(
    tree: Tree,
    passable: Set<LeafContents>,
    p: V3,
    dir: V3,
    dist: int,
    idx: int,
    data: Option<IntersectData>,
)
    requires
        tree.wf(),
        tree.reaches(idx),
    ensures
        travel(tree, passable, p, dir, dist, idx, data) matches Some(hit) ==> !passable.contains(
            hit.contents,
        ) && hit.distance >= 0,
    decreases tree.rank_of(idx),
{
    if idx >= 0 {
        tree.lemma_reaches(idx);
        let plane = tree.plane_of(idx);
        let plane_index = tree.nodes[idx].plane_index;
        let d = side_distance(plane, p);
        let n = dir.dot(plane.normal@);
        let front = tree.child(idx, 0);
        let back = tree.child(idx, 1);
        let met_back = Some(IntersectData { plane_index, reverse_normal: true });
        let met_front = Some(IntersectData { plane_index, reverse_normal: false });
        let offset = plane.normal@.scaled(EPSILON as int);
        let close = if d > 0 {
            front
        } else {
            back
        };
        let far = if d > 0 {
            back
        } else {
            front
        };
        let reach = reach_distance(d, n);
        lemma_hit_is_impassable(tree, passable, p, dir, dist, front, met_back);
        lemma_hit_is_impassable(tree, passable, p, dir, dist, back, met_front);
        lemma_hit_is_impassable(tree, passable, p.plus(offset), dir, dist, front, met_back);
        lemma_hit_is_impassable(tree, passable, p.minus(offset), dir, dist, back, met_front);
        lemma_hit_is_impassable(tree, passable, p, dir, dist, close, data);
        lemma_hit_is_impassable(tree, passable, p, dir, reach, close, data);
        lemma_hit_is_impassable(
            tree,
            passable,
            p.plus(dir.scaled(reach)),
            dir,
            dist - reach,
            far,
            Some(IntersectData { plane_index, reverse_normal: d <= 0 }),
        );
    }
}

/// A ray with a direction stops only at contents that it cannot pass.
pub proof fn lemma_ray_stops_at_impassable(
    tree: Tree,
    passable: Set<LeafContents>,
    point: V3,
    dir: V3,
    dist: int,
)
    requires
        tree.wf(),
        dir.to_bsp().length() >= MIN_DIRECTION,
    ensures
        ray_contact(tree, passable, point, dir, dist) matches Some(contact) ==> !passable.contains(
            contact.contents,
        ) && contact.distance >= 0,
{
    reveal(ray_contact);
    tree.lemma_reaches(0);
    lemma_hit_is_impassable(
        tree,
        passable,
        point.to_bsp(),
        dir.to_bsp().normalized(),
        dist,
        0,
        None,
    );
}

/// Whether the normal that `data` stands for is turned against the ray, or
/// along it by no more than the tolerance.
pub open spec fn faces_ray(tree: Tree, data: Option<IntersectData>, dir: V3) -> bool {
    data.is_some() ==> hit_normal(tree, data).dot(dir) <= EPSILON
}

/// The normal of a hit is never turned along the ray by more than the
/// tolerance: its dot product with the direction of the ray is at most the
/// tolerance.
pub proof fn lemma_normal_faces_ray(
    tree: Tree,
    passable: Set<LeafContents>,
    p: V3,
    dir: V3,
    dist: int,
    idx: int,
    data: Option<IntersectData>,
)
    requires
        tree.wf(),
        tree.reaches(idx),
        faces_ray(tree, data, dir),
    ensures
        travel(tree, passable, p, dir, dist, idx, data) matches Some(hit) ==> faces_ray(
            tree,
            hit.data,
            dir,
        ),
    decreases tree.rank_of(idx),
{
    if idx >= 0 {
        tree.lemma_reaches(idx);
        let plane = tree.plane_of(idx);
        let plane_index = tree.nodes[idx].plane_index;
        let d = side_distance(plane, p);
        let n = dir.dot(plane.normal@);
        let front = tree.child(idx, 0);
        let back = tree.child(idx, 1);
        let met_back = Some(IntersectData { plane_index, reverse_normal: true });
        let met_front = Some(IntersectData { plane_index, reverse_normal: false });
        let offset = plane.normal@.scaled(EPSILON as int);
        let close = if d > 0 {
            front
        } else {
            back
        };
        let far = if d > 0 {
            back
        } else {
            front
        };
        let reach = reach_distance(d, n);
        let crossed = Some(IntersectData { plane_index, reverse_normal: d <= 0 });
        lemma_dot_commutes(plane.normal@, dir);
        lemma_dot_negate(plane.normal@, dir);
        if -n <= EPSILON {
            lemma_normal_faces_ray(tree, passable, p, dir, dist, front, met_back);
            lemma_normal_faces_ray(tree, passable, p.plus(offset), dir, dist, front, met_back);
        }
        if n <= EPSILON {
            lemma_normal_faces_ray(tree, passable, p, dir, dist, back, met_front);
            lemma_normal_faces_ray(tree, passable, p.minus(offset), dir, dist, back, met_front);
        }
        lemma_normal_faces_ray(tree, passable, p, dir, dist, close, data);
        lemma_normal_faces_ray(tree, passable, p, dir, reach, close, data);
        if faces_ray(tree, crossed, dir) {
            lemma_normal_faces_ray(
                tree,
                passable,
                p.plus(dir.scaled(reach)),
                dir,
                dist - reach,
                far,
                crossed,
            );
        }
    }
}

/// The normal of what a ray hits is turned against the ray, or along it by
/// no more than the tolerance.
pub proof fn lemma_ray_normal_faces_ray(
    tree: Tree,
    passable: Set<LeafContents>,
    point: V3,
    dir: V3,
    dist: int,
)
    requires
        tree.wf(),
        dir.to_bsp().length() >= MIN_DIRECTION,
    ensures
        ray_contact(tree, passable, point, dir, dist) matches Some(contact)
            ==> contact.normal.dot(dir.to_bsp().normalized().to_wld()) <= EPSILON,
{
    reveal(ray_contact);
    let p = point.to_bsp();
    let unit = dir.to_bsp().normalized();
    tree.lemma_reaches(0);
    lemma_normal_faces_ray(tree, passable, p, unit, dist, 0, None);
    match travel(tree, passable, p, unit, dist, 0, None) {
        Some(hit) => {
            lemma_axes_linear(hit_normal(tree, hit.data), unit, 0, 0);
            if hit.data.is_none() {
                lemma_zero_dot(unit);
            }
        },
        None => {},
    }
}

/// The dot product of the zero vector with any vector is zero.
proof fn lemma_zero_dot(v: V3)
    ensures
        V3::zero().dot(v) == 0,
{
    crate::fixed::lemma_product_unit(v.x);
    crate::fixed::lemma_product_unit(v.y);
    crate::fixed::lemma_product_unit(v.z);
}

} // verus!
