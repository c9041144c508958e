//! An actor over a level floor: it falls, lands, and stays.
//!
//! A floor is a tree of one node whose plane lies level at some height,
//! with nothing above it and solid below. The laws here follow an actor
//! that is asked for nothing over any number of ticks.

use vstd::prelude::*;
use crate::bsp_query::{
    hit_normal, leaf_hit, ray_contact, reach_distance, side_distance, travel, Contact,
    IntersectData,
};
use crate::contents::LeafContents;
use crate::fixed::{
    floor_sqrt, is_floor_sqrt, lemma_floor_sqrt_unique, lemma_product_negate,
    lemma_product_unit, magnitude, product, quotient, EPSILON, LIMIT, ONE,
};
use crate::player::{
    passable, stands_still, stop_short, updated, PlayerView, DEPEN, GRAVITY, GROUND_PROBE,
};
use crate::tree::{Plane, Tree};
use crate::vec3::{Vec3, V3};

verus! {

/// Whether the tree is a floor at the height `h`: one node, whose plane
/// faces up at that height, with nothing in front of it and solid behind.
pub open spec fn is_floor(tree: Tree, h: i64) -> bool {
    &&& tree.nodes.len() == 1
    &&& tree.nodes[0].plane_index == 0
    &&& tree.nodes[0].children[0] == -1
    &&& tree.nodes[0].children[1] == -2
    &&& tree.planes.len() >= 1
    &&& tree.planes[0] == (Plane { normal: Vec3 { x: 0, y: 0, z: ONE }, dist: h })
    &&& tree.contents.len() >= 2
    &&& tree.contents[0] == LeafContents::Empty
    &&& tree.contents[1] == LeafContents::Solid
    &&& magnitude(h as int) <= LIMIT
}

/// The actor after `n` ticks of `dt`.
pub open spec fn after_ticks(tree: Tree, s: PlayerView, dt: int, n: nat) -> PlayerView
    decreases n,
{
    if n == 0 {
        s
    } else {
        after_ticks(tree, updated(tree, s, dt), dt, (n - 1) as nat)
    }
}

/// Whether the actor is asked for nothing: no move over the ground, no
/// jump, no free flight.
pub open spec fn idle(s: PlayerView) -> bool {
    stands_still(s) && !s.jump && !s.free_move
}

/// The actor `s` when it has come to rest on a floor at the height `h`.
pub open spec fn landed(s: PlayerView, h: i64) -> PlayerView {
    PlayerView {
        is_grounded: true,
        y_speed: 0,
        pos: V3 { x: s.pos.x, y: h + DEPEN, z: s.pos.z },
        ..s
    }
}

/// What a ray straight down from `p`, of the length `dist`, meets over a
/// floor at the height `h`.
pub open spec fn floor_contact(h: i64, p: V3, dist: int) -> Option<Contact> {
    if p.y - h < EPSILON {
        Some(
            Contact {
                distance: 0,
                position: p,
                normal: V3::unit_y(),
                contents: LeafContents::Solid,
            },
        )
    } else if p.y - h <= dist {
        Some(
            Contact {
                distance: p.y - h,
                position: V3 { x: p.x, y: h as int, z: p.z },
                normal: V3::unit_y(),
                contents: LeafContents::Solid,
            },
        )
    } else {
        None
    }
}

/// A floor is well formed.
pub proof fn lemma_floor_is_well_formed(tree: Tree, h: i64)
    requires
        is_floor(tree, h),
    ensures
        tree.wf(),
        tree.reaches(0),
{
    let rank = seq![1nat];
    assert(tree.node_ranked(rank, 0));
    assert(tree.ranked_by(rank));
    tree.lemma_reaches(0);
}

/// Dividing a multiple of one by minus one.
proof fn lemma_ratio_by_minus_one(d: int)
    requires
        0 <= d,
    ensures
        reach_distance(d, -ONE) == d,
{
    reveal(quotient);
    assert(magnitude(d * ONE) == d * 65536);
    assert((d * 65536) / 65536 == d);
}

/// Over a floor, a ray straight down from a point that is not under the
/// floor meets the floor where it is within reach: at the point itself
/// where the point lies on the floor within the tolerance, and else at the
/// height of the floor.
pub proof fn lemma_ray_down_on_floor(tree: Tree, h: i64, p: V3, dist: int)
    requires
        is_floor(tree, h),
        p.y >= h,
        0 <= dist,
    ensures
        ray_contact(tree, passable(), p, V3::unit_y().negated(), dist) == floor_contact(h, p, dist),
{
    reveal(ray_contact);
    lemma_floor_is_well_formed(tree, h);
    let down = V3::unit_y().negated();
    let v = down.to_bsp();
    assert(v == V3 { x: 0, y: 0, z: -ONE });
    assert(v.norm_squared() == ONE * ONE) by (nonlinear_arith)
        requires
            v.norm_squared() == 0 * 0 + 0 * 0 + (-ONE) * (-ONE),
    ;
    assert(is_floor_sqrt(ONE * ONE, ONE as int)) by (nonlinear_arith)
        requires
            ONE == 65536,
    ;
    lemma_floor_sqrt_unique(ONE * ONE, ONE as int, floor_sqrt(ONE * ONE));
    assert(v.length() == ONE);
    lemma_product_unit(0);
    lemma_product_unit(-ONE);
    assert(0 * ONE == 0) by (nonlinear_arith);
    let unit = v.normalized();
    assert(unit == V3 { x: 0, y: 0, z: -ONE });
    let q = p.to_bsp();
    let plane = tree.plane_of(0);
    lemma_product_unit(p.x);
    lemma_product_unit(p.y);
    lemma_product_unit(p.z);
    let d = side_distance(plane, q);
    assert(d == p.y - h);
    let n = unit.dot(plane.normal@);
    assert(n == -ONE);
    let met_front = Some(IntersectData { plane_index: 0, reverse_normal: false });
    let far = travel(tree, passable(), q, unit, dist, -2, met_front);
    assert(far == leaf_hit(tree, passable(), -2, met_front));
    assert(!passable().contains(LeafContents::Solid));
    assert(passable().contains(LeafContents::Empty));
    assert(hit_normal(tree, met_front) == V3 { x: 0, y: 0, z: ONE as int });
    lemma_ratio_by_minus_one(d);
    let reach = reach_distance(d, n);
    lemma_product_unit(reach);
    lemma_product_negate(ONE as int, reach);
    if d < EPSILON {
        assert(travel(tree, passable(), q, unit, dist, 0, None) == far);
        assert(q.plus(unit.scaled(0)).to_wld() == p);
    } else if d <= dist {
        let near = travel(tree, passable(), q, unit, reach, -1, None);
        assert(near == leaf_hit(tree, passable(), -1, None));
        let beyond_plane = travel(
            tree,
            passable(),
            q.plus(unit.scaled(reach)),
            unit,
            dist - reach,
            -2,
            met_front,
        );
        assert(beyond_plane == leaf_hit(tree, passable(), -2, met_front));
        assert(q.plus(unit.scaled(reach)).to_wld() == V3 { x: p.x, y: h as int, z: p.z });
    } else {
        let near = travel(tree, passable(), q, unit, dist, -1, None);
        assert(near == leaf_hit(tree, passable(), -1, None));
    }
}

/// Where an actor comes to rest on a floor that a ray straight down met.
proof fn lemma_rest_on_floor(hit: Contact)
    requires
        hit.normal == V3::unit_y(),
    ensures
        stop_short(hit) == (V3 { x: hit.position.x, y: hit.position.y + DEPEN, z: hit.position.z }),
{
    lemma_product_unit(DEPEN as int);
    lemma_product_unit(0);
}

/// One tick of an idle actor that does not rise, over a floor that it is
/// not under.
///
/// With the floor close under it, the actor comes to rest on the floor.
/// Otherwise it falls by its speed times the tick, but not through the
/// floor, and gravity adds to its speed.
pub proof fn lemma_fall_tick(tree: Tree, h: i64, s: PlayerView, dt: int)
    requires
        is_floor(tree, h),
        idle(s),
        s.y_speed <= 0,
        s.pos.y >= h,
        0 <= dt,
    ensures
        ({
            let t = updated(tree, s, dt);
            let d = s.pos.y - h;
            let fall = product(-s.y_speed, dt);
            &&& t.movement == s.movement && t.jump == s.jump && t.free_move == s.free_move
            &&& t.yaw == s.yaw && t.pitch == s.pitch && t.sprint == s.sprint
            &&& t.pos.x == s.pos.x && t.pos.z == s.pos.z
            &&& t.pos.y >= h
            &&& t.y_speed <= 0
            &&& 0 <= fall
            &&& d < EPSILON ==> t.is_grounded && t.y_speed == 0 && t.pos.y == s.pos.y + DEPEN
            &&& EPSILON <= d <= GROUND_PROBE ==> t == landed(s, h)
            &&& d > GROUND_PROBE ==> {
                &&& !t.is_grounded
                &&& t.y_speed == s.y_speed - product(GRAVITY as int, dt)
                &&& t.pos.y == if -s.y_speed > EPSILON && d <= fall {
                    h + DEPEN
                } else if -s.y_speed > EPSILON {
                    s.pos.y - fall
                } else {
                    s.pos.y
                }
            }
        }),
{
    let d = s.pos.y - h;
    lemma_ray_down_on_floor(tree, h, s.pos, GROUND_PROBE as int);
    crate::fixed::lemma_product_sign(-s.y_speed, dt);
    crate::fixed::lemma_product_sign(GRAVITY as int, dt);
    let fall = product(magnitude(s.y_speed), dt);
    lemma_ray_down_on_floor(tree, h, s.pos, fall);
    match floor_contact(h, s.pos, GROUND_PROBE as int) {
        Some(hit) => {
            lemma_rest_on_floor(hit);
        },
        None => {},
    }
    match floor_contact(h, s.pos, fall) {
        Some(hit) => {
            lemma_rest_on_floor(hit);
        },
        None => {},
    }
    lemma_product_unit(fall);
    lemma_product_negate(ONE as int, fall);
    lemma_product_unit(0);
}

/// How far the speed of a falling actor is short of one unit a second.
pub open spec fn speed_short(s: PlayerView) -> int {
    if -s.y_speed < ONE {
        ONE + s.y_speed
    } else {
        0
    }
}

/// Gravity takes at least one unit of speed in every tick that has a
/// length, and an actor that falls at one unit a second or faster falls by
/// the length of the tick at least.
proof fn lemma_fall_grows(speed: int, dt: int)
    requires
        1 <= dt,
        0 <= speed,
    ensures
        product(GRAVITY as int, dt) >= 1,
        speed >= ONE ==> product(speed, dt) >= dt,
{
    reveal(quotient);
    assert(GRAVITY * dt == 36044800 * dt && magnitude(36044800 * dt) / 65536 >= 1);
    if speed >= ONE {
        let p = speed * dt;
        assert(p >= 65536 * dt) by (nonlinear_arith)
            requires
                p == speed * dt,
                speed >= 65536,
                dt >= 1,
        ;
        assert(magnitude(p) / 65536 >= dt);
    }
}

/// Ticks follow each other: `a + b` ticks are `a` ticks and then `b` ticks.
pub proof fn lemma_ticks_add(tree: Tree, s: PlayerView, dt: int, a: nat, b: nat)
    ensures
        after_ticks(tree, s, dt, a + b) == after_ticks(tree, after_ticks(tree, s, dt, a), dt, b),
    decreases a,
{
    if a > 0 {
        lemma_ticks_add(tree, updated(tree, s, dt), dt, (a - 1) as nat, b);
    }
}

/// An idle actor at rest on a floor stays as it is, for any number of
/// ticks of any length.
pub proof fn lemma_landed_actor_stays(tree: Tree, h: i64, s: PlayerView, dt: int, n: nat)
    requires
        is_floor(tree, h),
        idle(s),
        s == landed(s, h),
        0 <= dt,
    ensures
        after_ticks(tree, s, dt, n) == s,
    decreases n,
{
    if n > 0 {
        lemma_fall_tick(tree, h, s, dt);
        assert(updated(tree, s, dt) == s);
        lemma_landed_actor_stays(tree, h, s, dt, (n - 1) as nat);
    }
}

/// An idle actor that does not rise, over a floor that it is not under,
/// comes to rest on the floor after some number of ticks, and is never
/// under the floor on its way.
pub proof fn lemma_falling_actor_lands(tree: Tree, h: i64, s: PlayerView, dt: int) -> (n: nat)
    requires
        is_floor(tree, h),
        idle(s),
        s.y_speed <= 0,
        s.pos.y >= h,
        1 <= dt,
    ensures
        after_ticks(tree, s, dt, n) == landed(s, h),
        forall|k: nat| k <= n ==> (#[trigger] after_ticks(tree, s, dt, k)).pos.y >= h,
    decreases s.pos.y - h, speed_short(s),
{
    let d = s.pos.y - h;
    let t = updated(tree, s, dt);
    lemma_fall_tick(tree, h, s, dt);
    assert(after_ticks(tree, s, dt, 1) == after_ticks(tree, t, dt, 0));
    if EPSILON <= d <= GROUND_PROBE {
        assert forall|k: nat| k <= 1 implies (#[trigger] after_ticks(tree, s, dt, k)).pos.y
            >= h by {
            if k == 1 {
                assert(after_ticks(tree, s, dt, k) == t);
            }
        }
        1
    } else if d < EPSILON {
        // The actor stands where it is, a little over the floor, and comes
        // down to the rest distance in the next tick.
        lemma_fall_tick(tree, h, t, dt);
        let u = updated(tree, t, dt);
        assert(u == landed(s, h));
        assert(after_ticks(tree, s, dt, 2) == after_ticks(tree, t, dt, 1));
        assert(after_ticks(tree, t, dt, 1) == after_ticks(tree, u, dt, 0));
        assert forall|k: nat| k <= 2 implies (#[trigger] after_ticks(tree, s, dt, k)).pos.y
            >= h by {
            if k == 1 {
                assert(after_ticks(tree, s, dt, k) == t);
            } else if k == 2 {
                assert(after_ticks(tree, s, dt, k) == u);
            }
        }
        2
    } else {
        lemma_fall_grows(-s.y_speed, dt);
        let m = lemma_falling_actor_lands(tree, h, t, dt);
        assert(landed(t, h) == landed(s, h));
        assert(after_ticks(tree, s, dt, m + 1) == after_ticks(tree, t, dt, m));
        assert forall|k: nat| k <= m + 1 implies (#[trigger] after_ticks(tree, s, dt, k)).pos.y
            >= h by {
            if k > 0 {
                assert(after_ticks(tree, s, dt, k) == after_ticks(tree, t, dt, (k - 1) as nat));
            }
        }
        m + 1
    }
}

/// An idle actor that does not rise, over a floor that it is not under:
/// there is a tick from which on it stands on the floor, at rest, at the
/// rest distance over the floor and where it was along the floor; and on
/// no tick is it under the floor.
pub proof fn lemma_falling_actor_lands_and_stays(tree: Tree, h: i64, s: PlayerView, dt: int) -> (n:
    nat)
    requires
        is_floor(tree, h),
        idle(s),
        s.y_speed <= 0,
        s.pos.y >= h,
        1 <= dt,
    ensures
        forall|k: nat| k >= n ==> #[trigger] after_ticks(tree, s, dt, k) == landed(s, h),
        forall|k: nat| (#[trigger] after_ticks(tree, s, dt, k)).pos.y >= h,
{
    let n = lemma_falling_actor_lands(tree, h, s, dt);
    let rest = landed(s, h);
    assert forall|k: nat| k >= n implies #[trigger] after_ticks(tree, s, dt, k) == rest by {
        lemma_ticks_add(tree, s, dt, n, (k - n) as nat);
        lemma_landed_actor_stays(tree, h, rest, dt, (k - n) as nat);
    }
    n
}

} // verus!
