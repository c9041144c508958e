//! The movement of an actor through a level, one tick at a time.
//!
//! An actor stands on the ground or is in the air. In each tick it moves
//! over the ground as far as the level lets it, climbing steps and sliding
//! along walls; it is checked for ground under its feet; it rises or falls;
//! gravity pulls at it; and it may jump.

use vstd::prelude::*;
use crate::bsp_query::{ray_contact, ray_intersect, BspQuery, Contact, Intersection};
use crate::contents::{default_passable, LeafContents};
use crate::fixed::{
    abs, fx_mul, in_range, lemma_product_bound, lemma_product_scale, magnitude, product, EPSILON,
    LIMIT, ONE,
};
use crate::tree::Tree;
use crate::vec3::{
    cross, dot, lemma_dot_bound, lemma_scaled_bound, lemma_turn_about_vertical, lemma_wide_bound,
    minus, negated, plus, rotate_axis, scaled, try_normalize, unit_x, unit_y, unit_z, zero, Angle,
    Vec3, NORM_LIMIT, V3,
};

verus! {

/// The speed of an actor over the ground, per second.
pub const MOVE_SPEED: i64 = 16_777_216;

/// The upward speed at the start of a jump, per second.
pub const JUMP_SPEED: i64 = 19_660_800;

/// The loss of upward speed in the air, per second in a second.
pub const GRAVITY: i64 = 36_044_800;

/// How far from a surface an actor comes to rest (about 0.01).
pub const DEPEN: i64 = 655;

/// The height of the highest step that an actor climbs.
pub const MAX_STEP: i64 = 1_310_720;

/// How far below an actor the ground is looked for (about 0.1).
pub const GROUND_PROBE: i64 = 6554;

/// The longest tick: one second.
pub const MAX_TICK: i64 = 65536;

/// The largest magnitude of a coordinate of an actor that is to move.
pub const POS_LIMIT: i64 = 0x80_0000_0000;

/// The largest magnitude of the vertical speed of an actor that is to move.
pub const SPEED_LIMIT: i64 = 0x10_0000_0000;

/// The farthest that the move over the ground takes an actor in a tick,
/// along each axis.
pub const PLANAR_REACH: i64 = 0x4_0000_0000;

/// An actor in a level.
#[derive(Clone, Copy, Debug)]
pub struct Player {
    /// The move that is asked for: `x` to the side and `z` ahead, of any
    /// length.
    pub movement: Vec3,
    /// The turn of the view about the vertical axis.
    pub yaw: Angle,
    /// The tilt of the view.
    pub pitch: Angle,
    /// Whether a jump is asked for.
    pub jump: bool,
    pub sprint: bool,
    /// Whether the actor flies freely, through everything.
    pub free_move: bool,
    /// Whether the actor stands on the ground.
    pub is_grounded: bool,
    /// The upward speed, per second.
    pub y_speed: i64,
    /// Where the actor is.
    pub pos: Vec3,
}

/// The model of an actor.
pub struct PlayerView {
    pub movement: V3,
    pub yaw: Angle,
    pub pitch: Angle,
    pub jump: bool,
    pub sprint: bool,
    pub free_move: bool,
    pub is_grounded: bool,
    pub y_speed: int,
    pub pos: V3,
}

impl View for Player {
    type V = PlayerView;

    open spec fn view(&self) -> PlayerView {
        PlayerView {
            movement: self.movement@,
            yaw: self.yaw,
            pitch: self.pitch,
            jump: self.jump,
            sprint: self.sprint,
            free_move: self.free_move,
            is_grounded: self.is_grounded,
            y_speed: self.y_speed as int,
            pos: self.pos@,
        }
    }
}

/// The contents that an actor moves through.
pub open spec fn passable() -> Set<LeafContents> {
    set![LeafContents::Empty]
}

/// The vector brought to unit length, or the zero vector where it has no
/// length.
pub open spec fn unit_or_zero(v: V3) -> V3 {
    if v.length() == 0 {
        V3::zero()
    } else {
        v.normalized()
    }
}

/// Where an actor comes to rest before a surface that it hit.
pub open spec fn stop_short(hit: Contact) -> V3 {
    hit.position.plus(hit.normal.scaled(DEPEN as int))
}

/// The direction ahead on the ground, for a view turned by `yaw`.
pub open spec fn heading(yaw: Angle) -> V3 {
    V3::unit_z().rotated(V3::unit_y(), yaw.sin as int, yaw.cos as int)
}

/// The direction to the side on the ground, for a view turned by `yaw`.
pub open spec fn sideways(yaw: Angle) -> V3 {
    V3::unit_x().rotated(V3::unit_y(), yaw.sin as int, yaw.cos as int)
}

/// The direction into which the view looks.
pub open spec fn facing(yaw: Angle, pitch: Angle) -> V3 {
    heading(yaw).rotated(sideways(yaw), pitch.sin as int, pitch.cos as int)
}

/// The direction of the move over the ground.
pub open spec fn planar_direction(movement: V3, yaw: Angle) -> V3 {
    heading(yaw).scaled(movement.z).plus(sideways(yaw).scaled(movement.x))
}

/// Where a slide along a wall ends.
///
/// The actor stands at `from`, before a wall with the given normal, and
/// `remainder` is what is left of its move. The slide runs level along the
/// wall, for the part of the remainder that lies along the wall, and stops
/// short of what it hits. There is no slide where the wall is not upright
/// enough or the part along the wall is within the tolerance.
pub open spec fn slide_target(tree: Tree, from: V3, normal: V3, remainder: V3) -> V3 {
    let up = unit_or_zero(normal.cross(remainder));
    let wall_up = V3 { x: 0, y: up.y, z: 0 };
    if wall_up.dot(wall_up) > EPSILON {
        let wall_along = unit_or_zero(normal).rotated(unit_or_zero(wall_up), ONE as int, 0);
        let slide_length = wall_along.dot(remainder);
        if slide_length > EPSILON {
            match ray_contact(tree, passable(), from, wall_along, slide_length) {
                Some(hit) => stop_short(hit),
                None => from.plus(wall_along.scaled(slide_length)),
            }
        } else {
            from
        }
    } else {
        from
    }
}

/// Where the move over the ground ends.
///
/// The actor moves from `pos` along `move_dir` for `delta`. Where nothing
/// is in the way it makes the whole move. Where it hits something, it
/// climbs onto what a ray up from the end of the whole move, through what
/// it cannot pass, comes out of within the height of a step, and comes to
/// rest there off the surface that it hit first, by the rest distance along
/// the normal of that surface; failing that, it stops short of what it hit
/// and slides along it.
pub open spec fn planar_target(tree: Tree, pos: V3, move_dir: V3, delta: int) -> V3 {
    let desired = pos.plus(move_dir.scaled(delta));
    match ray_contact(tree, passable(), pos, move_dir, delta) {
        None => desired,
        Some(hit) => match ray_contact(
            tree,
            passable().complement(),
            desired,
            V3::unit_y(),
            MAX_STEP as int,
        ) {
            Some(climb) => climb.position.plus(hit.normal.scaled(DEPEN as int)),
            None => slide_target(
                tree,
                stop_short(hit),
                hit.normal,
                desired.minus(stop_short(hit)),
            ),
        },
    }
}

/// The actor after the move over the ground: it moves where the move that
/// is asked for, brought to unit length, has a part ahead or to the side
/// beyond the tolerance.
pub open spec fn after_planar(tree: Tree, s: PlayerView, dt: int) -> PlayerView {
    let movement = unit_or_zero(s.movement);
    if magnitude(movement.x) > EPSILON || magnitude(movement.z) > EPSILON {
        PlayerView {
            pos: planar_target(
                tree,
                s.pos,
                planar_direction(movement, s.yaw),
                product(MOVE_SPEED as int, dt),
            ),
            ..s
        }
    } else {
        s
    }
}

/// The actor after the check for ground, which is made while it stands or
/// does not rise. Ground close under the actor makes it stand, at rest,
/// just above the ground: at the rest distance from the surface, along its
/// normal. No ground under the actor puts it in the air.
pub open spec fn after_ground_check(tree: Tree, s: PlayerView) -> PlayerView {
    if s.is_grounded || s.y_speed <= 0 {
        match ray_contact(
            tree,
            passable(),
            s.pos,
            V3::unit_y().negated(),
            GROUND_PROBE as int,
        ) {
            Some(hit) => PlayerView { is_grounded: true, y_speed: 0, pos: stop_short(hit), ..s },
            None => PlayerView { is_grounded: false, ..s },
        }
    } else {
        s
    }
}

/// The actor after it rose or fell, which it does where its vertical speed
/// is beyond the tolerance. It stops short of what it hits, and loses its
/// speed where it hits something above it.
pub open spec fn after_vertical(tree: Tree, s: PlayerView, dt: int) -> PlayerView {
    if magnitude(s.y_speed) > EPSILON {
        let y_delta = product(magnitude(s.y_speed), dt);
        let dir = if s.y_speed > 0 {
            V3::unit_y()
        } else {
            V3::unit_y().negated()
        };
        match ray_contact(tree, passable(), s.pos, dir, y_delta) {
            Some(hit) => PlayerView {
                pos: stop_short(hit),
                y_speed: if s.y_speed > 0 {
                    0
                } else {
                    s.y_speed
                },
                ..s
            },
            None => PlayerView { pos: s.pos.plus(dir.scaled(y_delta)), ..s },
        }
    } else {
        s
    }
}

/// The actor after gravity pulled at it, which it does in the air.
pub open spec fn after_gravity(s: PlayerView, dt: int) -> PlayerView {
    if !s.is_grounded {
        PlayerView { y_speed: s.y_speed - product(GRAVITY as int, dt), ..s }
    } else {
        s
    }
}

/// The actor after a jump that was asked for: the request is taken, and an
/// actor on the ground leaves it at the speed of a jump.
pub open spec fn after_jump(s: PlayerView) -> PlayerView {
    if s.jump {
        if s.is_grounded {
            PlayerView { jump: false, is_grounded: false, y_speed: JUMP_SPEED as int, ..s }
        } else {
            PlayerView { jump: false, ..s }
        }
    } else {
        s
    }
}

/// The actor after a tick of free flight: it moves along the view, to the
/// side and up as asked, whatever is in the way.
pub open spec fn free_moved(s: PlayerView, dt: int) -> PlayerView {
    let movement = unit_or_zero(s.movement);
    let move_dir = facing(s.yaw, s.pitch).scaled(movement.z).plus(
        sideways(s.yaw).scaled(movement.x),
    ).plus(V3::unit_y().scaled(movement.y));
    PlayerView { pos: s.pos.plus(move_dir.scaled(product(MOVE_SPEED as int, dt))), ..s }
}

/// The actor after a tick of `dt`.
pub open spec fn updated(tree: Tree, s: PlayerView, dt: int) -> PlayerView {
    if s.free_move {
        free_moved(s, dt)
    } else {
        after_jump(
            after_gravity(
                after_vertical(tree, after_ground_check(tree, after_planar(tree, s, dt)), dt),
                dt,
            ),
        )
    }
}

/// What lies close under the point `pos`: what the ray of the check for
/// ground meets.
pub open spec fn ground_under(tree: Tree, pos: V3) -> Option<Contact> {
    ray_contact(tree, passable(), pos, V3::unit_y().negated(), GROUND_PROBE as int)
}

/// Whether the point `pos` is a place of rest: there is ground close under
/// it, and an actor that comes to rest on that ground is at `pos`.
pub open spec fn rests_at(tree: Tree, pos: V3) -> bool {
    ground_under(tree, pos) matches Some(hit) && stop_short(hit) == pos
}

/// Whether no move over the ground is asked for.
pub open spec fn stands_still(s: PlayerView) -> bool {
    magnitude(unit_or_zero(s.movement).x) <= EPSILON && magnitude(unit_or_zero(s.movement).z)
        <= EPSILON
}

/// An actor that does not rise, with ground close under it, and that is
/// asked for no move and no jump, stands after a tick: on that ground, at
/// rest, at the rest distance from it.
pub proof fn lemma_ground_lands_actor(tree: Tree, s: PlayerView, dt: int)
    requires
        s.is_grounded || s.y_speed <= 0,
        !s.jump,
        !s.free_move,
        stands_still(s),
        ground_under(tree, s.pos).is_some(),
    ensures
        updated(tree, s, dt) == (PlayerView {
            is_grounded: true,
            y_speed: 0,
            pos: stop_short(ground_under(tree, s.pos).unwrap()),
            ..s
        }),
{
}

/// An actor that stands at a place of rest and is asked for no move and no
/// jump stays as it is for a tick, whatever the level and the length of the
/// tick.
pub proof fn lemma_standing_actor_stays(tree: Tree, s: PlayerView, dt: int)
    requires
        s.is_grounded,
        s.y_speed == 0,
        !s.jump,
        !s.free_move,
        stands_still(s),
        rests_at(tree, s.pos),
    ensures
        updated(tree, s, dt) == s,
{
}

/// An actor with ground close under it that is asked for a jump and for no
/// move leaves that ground at the speed of a jump, from its place of rest
/// on it.
pub proof fn lemma_jump_leaves_ground(tree: Tree, s: PlayerView, dt: int)
    requires
        s.is_grounded,
        s.jump,
        !s.free_move,
        stands_still(s),
        ground_under(tree, s.pos).is_some(),
    ensures
        updated(tree, s, dt) == (PlayerView {
            jump: false,
            is_grounded: false,
            y_speed: JUMP_SPEED as int,
            pos: stop_short(ground_under(tree, s.pos).unwrap()),
            ..s
        }),
{
}

/// Brings a vector to unit length; the zero vector where it has no length.
fn normalize_or_zero(v: Vec3) -> (r: Vec3)
    requires
        v@.bounded(NORM_LIMIT as int),
    ensures
        r@ == unit_or_zero(v@),
        r@.bounded(ONE as int),
{
    match try_normalize(v) {
        Some(unit) => unit,
        None => zero(),
    }
}

/// Where an actor comes to rest before a surface that it hit.
fn rest_before(hit: &Intersection) -> (r: Vec3)
    requires
        hit.position@.bounded(2 * LIMIT),
        hit.normal@.bounded(ONE as int),
    ensures
        r@ == stop_short(hit@),
        r@.minus(hit.position@).bounded(DEPEN as int),
{
    proof {
        lemma_scaled_bound(hit.normal@, DEPEN as int);
    }
    plus(hit.position, scaled(hit.normal, DEPEN))
}

/// The directions ahead and to the side on the ground.
fn ground_axes(yaw: Angle) -> (r: (Vec3, Vec3))
    requires
        yaw.wf(),
    ensures
        r.0@ == heading(yaw),
        r.1@ == sideways(yaw),
        r.0@.bounded(ONE as int),
        r.1@.bounded(ONE as int),
{
    proof {
        lemma_turn_about_vertical(yaw.sin as int, yaw.cos as int);
    }
    (rotate_axis(unit_z(), unit_y(), yaw), rotate_axis(unit_x(), unit_y(), yaw))
}

/// Slides along a wall.
fn slide<Q: BspQuery>(bsp: &Q, from: Vec3, normal: Vec3, remainder: Vec3) -> (r: Vec3)
    requires
        bsp.tree().wf(),
        from@.bounded(LIMIT as int),
        normal@.bounded(ONE as int),
        remainder@.bounded(4 * MOVE_SPEED),
    ensures
        r@ == slide_target(bsp.tree(), from@, normal@, remainder@),
        r@.minus(from@).bounded(972 * MOVE_SPEED + DEPEN),
{
    proof {
        lemma_wide_bound(remainder@, normal@, 1, 4 * MOVE_SPEED);
    }
    let up = normalize_or_zero(cross(normal, remainder));
    let wall_up = Vec3 { x: 0, y: up.y, z: 0 };
    proof {
        lemma_dot_bound(wall_up@, wall_up@, ONE as int);
    }
    if dot(wall_up, wall_up) > EPSILON {
        let wall_along = rotate_axis(
            normalize_or_zero(normal),
            normalize_or_zero(wall_up),
            Angle::quarter_turn(),
        );
        proof {
            lemma_wide_bound(remainder@, wall_along@, 9, 4 * MOVE_SPEED);
        }
        let slide_length: i64 = dot(wall_along, remainder);
        if slide_length > EPSILON {
            proof {
                lemma_product_scale(slide_length as int, wall_along.x as int, 9, 108 * MOVE_SPEED);
                lemma_product_scale(slide_length as int, wall_along.y as int, 9, 108 * MOVE_SPEED);
                lemma_product_scale(slide_length as int, wall_along.z as int, 9, 108 * MOVE_SPEED);
            }
            match ray_intersect(bsp, from, wall_along, slide_length, default_passable()) {
                Some(hit) => rest_before(&hit),
                None => plus(from, scaled(wall_along, slide_length)),
            }
        } else {
            from
        }
    } else {
        from
    }
}

/// Moves over the ground.
fn planar_move<Q: BspQuery>(bsp: &Q, pos: Vec3, move_dir: Vec3, delta: i64) -> (r: Vec3)
    requires
        bsp.tree().wf(),
        pos@.bounded(POS_LIMIT as int),
        move_dir@.bounded(2 * ONE),
        0 <= delta <= MOVE_SPEED,
    ensures
        r@ == planar_target(bsp.tree(), pos@, move_dir@, delta as int),
        r@.minus(pos@).bounded(PLANAR_REACH as int),
{
    proof {
        lemma_product_scale(delta as int, move_dir.x as int, 2, delta as int);
        lemma_product_scale(delta as int, move_dir.y as int, 2, delta as int);
        lemma_product_scale(delta as int, move_dir.z as int, 2, delta as int);
    }
    let desired = plus(pos, scaled(move_dir, delta));
    match ray_intersect(bsp, pos, move_dir, delta, default_passable()) {
        None => desired,
        Some(hit) => {
            proof {
                lemma_scaled_bound(hit.normal@, DEPEN as int);
            }
            // Try to climb a step: cast up through what stopped the move.
            let through = default_passable().complement();
            match ray_intersect(bsp, desired, unit_y(), MAX_STEP, through) {
                Some(climb) => plus(climb.position, scaled(hit.normal, DEPEN)),
                None => {
                    let stopped = rest_before(&hit);
                    slide(bsp, stopped, hit.normal, minus(desired, stopped))
                },
            }
        },
    }
}

impl Player {
    /// Whether the actor can make a tick of `dt`: the tick is at most
    /// `MAX_TICK` long, and position, speed and the move that is asked for
    /// are within their limits.
    pub open spec fn ready(self, dt: int) -> bool {
        &&& 0 <= dt <= MAX_TICK
        &&& self.movement@.bounded(NORM_LIMIT as int)
        &&& self.yaw.wf()
        &&& self.pitch.wf()
        &&& self.pos@.bounded(POS_LIMIT as int)
        &&& magnitude(self.y_speed as int) <= SPEED_LIMIT
    }

    /// An actor that stands at `pos`, at rest, and looks ahead.
    pub fn new(pos: Vec3) -> (r: Player)
        ensures
            r == (Player {
                movement: Vec3 { x: 0, y: 0, z: 0 },
                yaw: Angle { sin: 0, cos: ONE },
                pitch: Angle { sin: 0, cos: ONE },
                jump: false,
                sprint: false,
                free_move: false,
                is_grounded: true,
                y_speed: 0,
                pos,
            }),
    {
        Player {
            movement: zero(),
            yaw: Angle::zero(),
            pitch: Angle::zero(),
            jump: false,
            sprint: false,
            free_move: false,
            is_grounded: true,
            y_speed: 0,
            pos,
        }
    }

    /// The direction into which the actor looks.
    pub fn forward(&mut self) -> (r: Vec3)
        requires
            old(self).yaw.wf(),
            old(self).pitch.wf(),
        ensures
            r@ == facing(old(self).yaw, old(self).pitch),
            r@.bounded(9 * ONE),
            *final(self) == *old(self),
    {
        let (ahead, right) = ground_axes(self.yaw);
        rotate_axis(ahead, right, self.pitch)
    }

    /// Whether the actor can make a tick of `dt`.
    pub fn can_update(&self, dt: i64) -> (r: bool)
        ensures
            r == self.ready(dt as int),
    {
        0 <= dt && dt <= MAX_TICK && in_range(self.movement.x, NORM_LIMIT) && in_range(
            self.movement.y,
            NORM_LIMIT,
        ) && in_range(self.movement.z, NORM_LIMIT) && in_range(self.yaw.sin, ONE) && in_range(
            self.yaw.cos,
            ONE,
        ) && in_range(self.pitch.sin, ONE) && in_range(self.pitch.cos, ONE) && in_range(
            self.pos.x,
            POS_LIMIT,
        ) && in_range(self.pos.y, POS_LIMIT) && in_range(self.pos.z, POS_LIMIT) && in_range(
            self.y_speed,
            SPEED_LIMIT,
        )
    }

    /// Checks for ground under the actor.
    fn ground_check<Q: BspQuery>(&mut self, bsp: &Q)
        requires
            bsp.tree().wf(),
            old(self).pos@.bounded(POS_LIMIT + PLANAR_REACH),
        ensures
            final(self)@ == after_ground_check(bsp.tree(), old(self)@),
            final(self).pos@.minus(old(self).pos@).bounded(GROUND_PROBE + DEPEN),
            magnitude(final(self).y_speed as int) <= magnitude(old(self).y_speed as int),
    {
        if self.is_grounded || self.y_speed <= 0 {
            let down = negated(unit_y());
            match ray_intersect(bsp, self.pos, down, GROUND_PROBE, default_passable()) {
                Some(hit) => {
                    self.is_grounded = true;
                    self.y_speed = 0;
                    self.pos = rest_before(&hit);
                },
                None => {
                    self.is_grounded = false;
                },
            }
        }
    }

    /// Lets the actor rise or fall.
    fn vertical_move<Q: BspQuery>(&mut self, bsp: &Q, dt: i64)
        requires
            bsp.tree().wf(),
            0 <= dt <= MAX_TICK,
            old(self).pos@.bounded(POS_LIMIT + PLANAR_REACH + GROUND_PROBE + DEPEN),
            magnitude(old(self).y_speed as int) <= SPEED_LIMIT,
        ensures
            final(self)@ == after_vertical(bsp.tree(), old(self)@, dt as int),
            final(self).pos@.minus(old(self).pos@).bounded(SPEED_LIMIT + DEPEN),
            magnitude(final(self).y_speed as int) <= magnitude(old(self).y_speed as int),
    {
        if abs(self.y_speed) > EPSILON {
            proof {
                lemma_product_bound(magnitude(self.y_speed as int), dt as int, SPEED_LIMIT as int);
            }
            let y_delta: i64 = fx_mul(abs(self.y_speed), dt);
            assert(0 <= y_delta) by {
                crate::fixed::lemma_product_sign(magnitude(self.y_speed as int), dt as int);
            }
            let dir = if self.y_speed > 0 {
                unit_y()
            } else {
                negated(unit_y())
            };
            proof {
                lemma_scaled_bound(dir@, y_delta as int);
            }
            match ray_intersect(bsp, self.pos, dir, y_delta, default_passable()) {
                Some(hit) => {
                    self.pos = rest_before(&hit);
                    if self.y_speed > 0 {
                        self.y_speed = 0;
                    }
                },
                None => {
                    self.pos = plus(self.pos, scaled(dir, y_delta));
                },
            }
        }
    }

    /// Moves the actor by one tick of `dt`. The level is not asked in free
    /// flight, so that only an actor that does not fly freely needs a
    /// well-formed tree.
    pub fn update<Q: BspQuery>(&mut self, bsp: &Q, dt: i64)
        requires
            !old(self).free_move ==> bsp.tree().wf(),
            old(self).ready(dt as int),
        ensures
            final(self)@ == updated(bsp.tree(), old(self)@, dt as int),
            final(self).pos@.bounded(LIMIT as int),
            magnitude(final(self).y_speed as int) <= SPEED_LIMIT + GRAVITY,
    {
        let movement = normalize_or_zero(self.movement);
        if self.free_move {
            self.free_move_update(dt);
            return ;
        }
        proof {
            lemma_product_bound(MOVE_SPEED as int, dt as int, MOVE_SPEED as int);
            crate::fixed::lemma_product_sign(MOVE_SPEED as int, dt as int);
            lemma_product_bound(GRAVITY as int, dt as int, GRAVITY as int);
        }

        // Over the ground.
        if abs(movement.x) > EPSILON || abs(movement.z) > EPSILON {
            let (ahead, right) = ground_axes(self.yaw);
            let delta: i64 = fx_mul(MOVE_SPEED, dt);
            proof {
                lemma_scaled_bound(ahead@, movement.z as int);
                lemma_scaled_bound(right@, movement.x as int);
            }
            let move_dir = plus(scaled(ahead, movement.z), scaled(right, movement.x));
            self.pos = planar_move(bsp, self.pos, move_dir, delta);
        }
        self.ground_check(bsp);
        self.vertical_move(bsp, dt);

        // Gravity.
        if !self.is_grounded {
            self.y_speed = self.y_speed - fx_mul(GRAVITY, dt);
        }
        // A jump that was asked for.

        if self.jump {
            self.jump = false;
            if self.is_grounded {
                self.is_grounded = false;
                self.y_speed = JUMP_SPEED;
            }
        }
    }

    /// Moves the actor by one tick of free flight.
    fn free_move_update(&mut self, dt: i64)
        requires
            old(self).ready(dt as int),
        ensures
            final(self)@ == free_moved(old(self)@, dt as int),
            final(self).pos@.bounded(LIMIT as int),
            final(self).y_speed == old(self).y_speed,
    {
        let movement = normalize_or_zero(self.movement);
        let up = unit_y();
        let (ahead, right) = ground_axes(self.yaw);
        let forward = rotate_axis(ahead, right, self.pitch);
        proof {
            lemma_product_bound(MOVE_SPEED as int, dt as int, MOVE_SPEED as int);
            lemma_wide_bound(movement@, forward@, 9, ONE as int);
            lemma_scaled_bound(right@, movement.x as int);
            lemma_scaled_bound(up@, movement.y as int);
        }
        let delta: i64 = fx_mul(MOVE_SPEED, dt);
        let move_dir = plus(
            plus(scaled(forward, movement.z), scaled(right, movement.x)),
            scaled(up, movement.y),
        );
        proof {
            lemma_product_scale(delta as int, move_dir.x as int, 11, MOVE_SPEED as int);
            lemma_product_scale(delta as int, move_dir.y as int, 11, MOVE_SPEED as int);
            lemma_product_scale(delta as int, move_dir.z as int, 11, MOVE_SPEED as int);
        }
        self.pos = plus(self.pos, scaled(move_dir, delta));
    }
}

} // verus!
