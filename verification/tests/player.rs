use shared::bsp::{Bsp, ClipNode};
use shared::bsp_query::BspClipQuery;
use shared::fixed::{EPSILON, ONE};
use shared::player::{
    Player, DEPEN, GRAVITY, GROUND_PROBE, JUMP_SPEED, MAX_STEP, MAX_TICK, MOVE_SPEED, POS_LIMIT,
    SPEED_LIMIT,
};
use shared::tree::Plane;
use shared::vec3::{Angle, Vec3};

/// A sixtieth of a second.
const TICK: i64 = 1092;

/// A sixty-fourth of a second: an actor on the ground covers 4 in it.
const STRIDE: i64 = 1024;

fn v(x: i64, y: i64, z: i64) -> Vec3 {
    Vec3 { x: x * ONE, y: y * ONE, z: z * ONE }
}

fn raw(x: i64, y: i64, z: i64) -> Vec3 {
    Vec3 { x, y, z }
}

fn level_plane(height: i64) -> Plane {
    Plane { normal: raw(0, 0, ONE), dist: height * ONE }
}

fn wall_plane(at: i64) -> Plane {
    Plane { normal: raw(0, ONE, 0), dist: at * ONE }
}

fn clip_level(planes: Vec<Plane>, clip_nodes: Vec<ClipNode>) -> Bsp {
    Bsp { planes, nodes: vec![], clip_nodes, leafs: vec![], textures: vec![] }
}

/// Solid below `y = 0`, empty above.
fn floor_level() -> Bsp {
    clip_level(vec![level_plane(0)], vec![ClipNode { plane_index: 0, children: [-1, -2] }])
}

/// The floor, and a solid wall beyond `x = 10`.
fn walled_level() -> Bsp {
    clip_level(
        vec![level_plane(0), wall_plane(10)],
        vec![
            ClipNode { plane_index: 0, children: [1, -2] },
            ClipNode { plane_index: 1, children: [-2, -1] },
        ],
    )
}

/// The floor, and a step of height 1 beyond `x = 10`.
fn stepped_level() -> Bsp {
    clip_level(
        vec![level_plane(0), wall_plane(10), level_plane(1)],
        vec![
            ClipNode { plane_index: 0, children: [1, -2] },
            ClipNode { plane_index: 1, children: [2, -1] },
            ClipNode { plane_index: 2, children: [-1, -2] },
        ],
    )
}

/// The floor, and a ceiling at `y = 8`.
fn roofed_level() -> Bsp {
    clip_level(
        vec![level_plane(0), level_plane(8)],
        vec![
            ClipNode { plane_index: 0, children: [1, -2] },
            ClipNode { plane_index: 1, children: [-2, -1] },
        ],
    )
}

#[test]
fn constants_of_the_movement() {
    assert_eq!(MOVE_SPEED, 256 * ONE);
    assert_eq!(JUMP_SPEED, 300 * ONE);
    assert_eq!(GRAVITY, 550 * ONE);
    assert_eq!(MAX_STEP, 20 * ONE);
    assert_eq!(DEPEN, 655);
    assert_eq!(GROUND_PROBE, 6554);
    assert_eq!(MAX_TICK, ONE);
}

#[test]
fn new_actor_stands_at_rest() {
    let player = Player::new(v(1, 2, 3));
    assert_eq!(player.pos, v(1, 2, 3));
    assert_eq!(player.movement, raw(0, 0, 0));
    assert_eq!(player.yaw, Angle { sin: 0, cos: ONE });
    assert_eq!(player.pitch, Angle { sin: 0, cos: ONE });
    assert!(player.is_grounded);
    assert_eq!(player.y_speed, 0);
    assert!(!player.jump);
    assert!(!player.sprint);
    assert!(!player.free_move);
}

#[test]
fn actor_on_the_floor_stays_where_it_is() {
    let bsp = floor_level();
    let clip = BspClipQuery::new(&bsp);
    assert!(clip.is_well_formed());
    // At the rest distance over the floor the actor stays where it is.
    for start in [raw(0, DEPEN, 0), raw(5 * ONE, DEPEN, -7 * ONE)] {
        let mut player = Player::new(start);
        assert!(player.can_update(TICK));
        for _ in 0..3 {
            player.update(&clip, TICK);
            assert!(player.is_grounded);
            assert_eq!(player.y_speed, 0);
            assert_eq!(player.pos, start);
        }
    }
}

#[test]
fn ground_close_under_the_actor_brings_it_to_rest() {
    let bsp = floor_level();
    let clip = BspClipQuery::new(&bsp);
    assert!(clip.is_well_formed());
    // A standing actor at 0.05 over the floor, and one on the floor itself,
    // come to the rest distance over it.
    for start in [raw(0, 3277, 0), v(0, 0, 0), raw(5 * ONE, GROUND_PROBE, -7 * ONE)] {
        let mut player = Player::new(start);
        player.update(&clip, TICK);
        assert!(player.is_grounded);
        assert_eq!(player.y_speed, 0);
        assert_eq!(player.pos, raw(start.x, DEPEN, start.z));
    }
    // The speed of a standing actor is taken from it.
    let mut player = Player::new(raw(0, 3277, 0));
    player.y_speed = -40 * ONE;
    player.update(&clip, TICK);
    assert!(player.is_grounded);
    assert_eq!(player.y_speed, 0);
    assert_eq!(player.pos, raw(0, DEPEN, 0));
    // Ground that is farther away than the check reaches is no ground.
    let mut player = Player::new(raw(0, GROUND_PROBE + 1, 0));
    player.update(&clip, TICK);
    assert!(!player.is_grounded);
    assert_eq!(player.pos, raw(0, GROUND_PROBE + 1, 0));
    assert_eq!(player.y_speed, -550 * TICK);
    // An actor that rises is not checked for ground.
    let mut player = Player::new(raw(0, 3277, 0));
    player.is_grounded = false;
    player.y_speed = ONE;
    player.update(&clip, TICK);
    assert!(!player.is_grounded);
    assert_eq!(player.pos, raw(0, 3277 + TICK, 0));
    assert_eq!(player.y_speed, ONE - 550 * TICK);
}

#[test]
fn actor_in_the_air_falls_and_lands() {
    let bsp = floor_level();
    let clip = BspClipQuery::new(&bsp);
    assert!(clip.is_well_formed());
    let mut player = Player::new(v(0, 5, 0));
    // The first tick finds no ground, and gravity starts to pull.
    player.update(&clip, TICK);
    assert!(!player.is_grounded);
    assert_eq!(player.y_speed, -550 * TICK);
    assert_eq!(player.pos, v(0, 5, 0));
    // The second tick falls by the speed times the tick, rounded down.
    player.update(&clip, TICK);
    assert_eq!(player.pos, raw(0, 5 * ONE - 550 * TICK * TICK / ONE, 0));
    assert_eq!(player.y_speed, -2 * 550 * TICK);
    let mut ticks = 2;
    while !player.is_grounded {
        assert!(ticks < 60);
        assert!(player.can_update(TICK));
        let before = player.pos.y;
        player.update(&clip, TICK);
        assert!(player.pos.y < before || player.is_grounded);
        // It is never under the floor, and falls straight.
        assert!(player.pos.y >= 0);
        assert_eq!((player.pos.x, player.pos.z), (0, 0));
        ticks += 1;
    }
    assert!(player.is_grounded);
    assert_eq!(player.y_speed, 0);
    assert_eq!(player.pos, raw(0, DEPEN, 0));
    assert!(player.pos.y.abs() <= EPSILON);
    // Free fall from 5 at 550 per second squared takes about 0.135 seconds.
    assert!(ticks >= 8 && ticks <= 12);
    // On the ground it stays.
    for _ in 0..10 {
        player.update(&clip, TICK);
        assert!(player.is_grounded);
        assert_eq!(player.y_speed, 0);
        assert_eq!(player.pos, raw(0, DEPEN, 0));
    }
}

#[test]
fn actor_lands_whatever_the_length_of_the_tick() {
    let bsp = floor_level();
    let clip = BspClipQuery::new(&bsp);
    assert!(clip.is_well_formed());
    // Ticks of the shortest length, of a tenth of a second, and of the longest.
    for (dt, most) in [(1, 20_000), (6554, 10), (MAX_TICK, 5)] {
        let mut player = Player::new(raw(3 * ONE, 2 * ONE, -ONE));
        let mut ticks = 0;
        while !(player.is_grounded && player.pos.y == DEPEN) {
            assert!(ticks < most);
            assert!(player.can_update(dt));
            player.update(&clip, dt);
            assert!(player.pos.y >= 0);
            ticks += 1;
        }
        assert_eq!(player.y_speed, 0);
        assert_eq!(player.pos, raw(3 * ONE, DEPEN, -ONE));
        player.update(&clip, dt);
        assert!(player.is_grounded);
        assert_eq!(player.pos, raw(3 * ONE, DEPEN, -ONE));
    }
}

#[test]
fn jump_leaves_the_ground() {
    let bsp = floor_level();
    let clip = BspClipQuery::new(&bsp);
    assert!(clip.is_well_formed());
    let mut player = Player::new(raw(0, DEPEN, 0));
    player.jump = true;
    player.update(&clip, TICK);
    assert!(!player.jump);
    assert!(!player.is_grounded);
    assert_eq!(player.y_speed, JUMP_SPEED);
    assert_eq!(player.pos, raw(0, DEPEN, 0));
    // It rises by the speed times the tick, and gravity takes from the speed.
    player.update(&clip, TICK);
    assert_eq!(player.pos, raw(0, DEPEN + 300 * TICK, 0));
    assert_eq!(player.y_speed, JUMP_SPEED - 550 * TICK);
    assert!(!player.is_grounded);
    // It comes down again.
    let mut ticks = 0;
    let mut top = player.pos.y;
    while !player.is_grounded {
        assert!(ticks < 200);
        player.update(&clip, TICK);
        top = top.max(player.pos.y);
        ticks += 1;
    }
    assert_eq!(player.pos, raw(0, DEPEN, 0));
    assert_eq!(player.y_speed, 0);
    // The top of the jump lies near 300 * 300 / (2 * 550) = 81.8.
    assert!(top > 78 * ONE && top < 86 * ONE);
}

#[test]
fn jump_in_the_air_is_taken_without_effect() {
    let bsp = floor_level();
    let clip = BspClipQuery::new(&bsp);
    assert!(clip.is_well_formed());
    let mut player = Player::new(v(0, 50, 0));
    player.update(&clip, TICK);
    assert!(!player.is_grounded);
    player.jump = true;
    let speed = player.y_speed;
    player.update(&clip, TICK);
    assert!(!player.jump);
    assert!(!player.is_grounded);
    assert_eq!(player.y_speed, speed - 550 * TICK);
}

#[test]
fn actor_walks_over_the_floor() {
    let bsp = floor_level();
    let clip = BspClipQuery::new(&bsp);
    assert!(clip.is_well_formed());
    // To the side.
    let mut player = Player::new(raw(0, DEPEN, 0));
    player.movement = v(5, 0, 0);
    player.update(&clip, STRIDE);
    assert_eq!(player.pos, raw(4 * ONE, DEPEN, 0));
    assert!(player.is_grounded);
    // Ahead.
    let mut player = Player::new(raw(0, DEPEN, 0));
    player.movement = raw(0, 0, 1);
    player.update(&clip, STRIDE);
    assert_eq!(player.pos, raw(0, DEPEN, 4 * ONE));
    // Ahead, with the view turned by a quarter.
    let mut player = Player::new(raw(0, DEPEN, 0));
    player.movement = v(0, 0, 1);
    player.yaw = Angle::quarter_turn();
    player.update(&clip, STRIDE);
    assert_eq!(player.pos, raw(4 * ONE, DEPEN, 0));
    // On the plane of the floor itself: the move runs along the floor, and the
    // check for ground lifts the actor to the rest distance.
    let mut player = Player::new(v(0, 0, 0));
    player.movement = v(-1, 0, 0);
    player.update(&clip, STRIDE);
    assert_eq!(player.pos, raw(-4 * ONE, DEPEN, 0));
    assert!(player.is_grounded);
    // A move within the tolerance is no move.
    let mut player = Player::new(raw(0, DEPEN, 0));
    player.movement = raw(1, 1000, 1);
    player.update(&clip, STRIDE);
    assert_eq!(player.pos, raw(0, DEPEN, 0));
}

#[test]
fn actor_stops_short_of_a_wall() {
    let bsp = walled_level();
    let clip = BspClipQuery::new(&bsp);
    assert!(clip.is_well_formed());
    let mut player = Player::new(raw(9 * ONE, DEPEN, 0));
    player.movement = v(1, 0, 0);
    player.update(&clip, STRIDE);
    assert_eq!(player.pos, raw(10 * ONE - DEPEN, DEPEN, 0));
    assert!(player.is_grounded);
    // It stays there however often it tries.
    for _ in 0..5 {
        player.update(&clip, STRIDE);
        assert!(player.pos.x < 10 * ONE);
        assert!(player.pos.x >= 10 * ONE - 2 * DEPEN);
        assert_eq!(player.pos.z, 0);
    }
}

#[test]
fn actor_slides_along_a_wall() {
    let bsp = walled_level();
    let clip = BspClipQuery::new(&bsp);
    assert!(clip.is_well_formed());
    let mut player = Player::new(raw(9 * ONE, DEPEN, 0));
    // Ahead and to the side alike: toward the wall at half a right angle.
    player.movement = v(1, 0, 1);
    player.update(&clip, STRIDE);
    // It is kept out of the wall and carried along it.
    assert!(player.pos.x < 10 * ONE);
    assert!(player.pos.x >= 10 * ONE - 2 * DEPEN);
    assert!(player.pos.z > ONE);
    assert!(player.pos.z < 4 * ONE);
    assert_eq!(player.pos.y, DEPEN);
    assert!(player.is_grounded);
}

#[test]
fn actor_climbs_a_step() {
    let bsp = stepped_level();
    let clip = BspClipQuery::new(&bsp);
    assert!(clip.is_well_formed());
    let mut player = Player::new(raw(9 * ONE, DEPEN, 0));
    player.movement = v(1, 0, 0);
    player.update(&clip, STRIDE);
    // It stands on the step, where the whole move ends, off the face of the
    // step by the rest distance along its normal, and at the rest distance
    // over the step.
    assert_eq!(player.pos, raw(13 * ONE - DEPEN, ONE + DEPEN, 0));
    assert!(player.is_grounded);
    assert_eq!(player.y_speed, 0);
}

#[test]
fn actor_does_not_climb_what_is_too_high() {
    // A step of height 21.
    let bsp = clip_level(
        vec![level_plane(0), wall_plane(10), level_plane(21)],
        vec![
            ClipNode { plane_index: 0, children: [1, -2] },
            ClipNode { plane_index: 1, children: [2, -1] },
            ClipNode { plane_index: 2, children: [-1, -2] },
        ],
    );
    let clip = BspClipQuery::new(&bsp);
    assert!(clip.is_well_formed());
    let mut player = Player::new(raw(9 * ONE, DEPEN, 0));
    player.movement = v(1, 0, 0);
    player.update(&clip, STRIDE);
    assert_eq!(player.pos, raw(10 * ONE - DEPEN, DEPEN, 0));
}

#[test]
fn actor_bumps_its_head() {
    let bsp = roofed_level();
    let clip = BspClipQuery::new(&bsp);
    assert!(clip.is_well_formed());
    let mut player = Player::new(v(0, 7, 0));
    player.is_grounded = false;
    player.y_speed = JUMP_SPEED;
    player.update(&clip, TICK);
    // It rises by 300 / 60 = 5 at most, and the ceiling is 1 above it.
    assert_eq!(player.pos, raw(0, 8 * ONE - DEPEN, 0));
    assert!(!player.is_grounded);
    assert_eq!(player.y_speed, -550 * TICK);
}

#[test]
fn actor_walks_off_an_edge() {
    // A platform: solid below 0 on this side of x = 10, nothing beyond.
    let bsp = clip_level(
        vec![wall_plane(10), level_plane(0)],
        vec![
            ClipNode { plane_index: 0, children: [-1, 1] },
            ClipNode { plane_index: 1, children: [-1, -2] },
        ],
    );
    let clip = BspClipQuery::new(&bsp);
    assert!(clip.is_well_formed());
    let mut player = Player::new(raw(9 * ONE, DEPEN, 0));
    player.movement = v(1, 0, 0);
    player.update(&clip, STRIDE);
    assert_eq!(player.pos, raw(13 * ONE, DEPEN, 0));
    assert!(!player.is_grounded);
    assert_eq!(player.y_speed, -550 * STRIDE);
}

#[test]
fn free_flight_goes_through_everything() {
    let bsp = floor_level();
    let clip = BspClipQuery::new(&bsp);
    assert!(clip.is_well_formed());
    let mut player = Player::new(v(0, 1, 0));
    player.free_move = true;
    player.jump = true;
    // Up is down here: the move that is asked for points down.
    player.movement = v(0, -2, 0);
    player.update(&clip, STRIDE);
    assert_eq!(player.pos, v(0, -3, 0));
    // Nothing else changes in free flight.
    assert!(player.jump);
    assert!(player.is_grounded);
    assert_eq!(player.y_speed, 0);
    // Ahead.
    player.movement = v(0, 0, 3);
    player.update(&clip, STRIDE);
    assert_eq!(player.pos, v(0, -3, 4));
    // Ahead, looking straight up or down: a quarter of tilt.
    player.pitch = Angle::quarter_turn();
    player.update(&clip, STRIDE);
    assert_eq!(player.pos.x, 0);
    assert_eq!(player.pos.z, 4 * ONE);
    assert_eq!((player.pos.y + 3 * ONE).abs(), 4 * ONE);
    // No move asked for: no move.
    let rest = player.pos;
    player.movement = raw(0, 0, 0);
    player.update(&clip, STRIDE);
    assert_eq!(player.pos, rest);
}

#[test]
fn free_flight_asks_no_level() {
    // A level without a node cannot be asked, and free flight does not ask.
    let bsp = clip_level(vec![], vec![]);
    let clip = BspClipQuery::new(&bsp);
    assert!(!clip.is_well_formed());
    let mut player = Player::new(v(1, 2, 3));
    player.free_move = true;
    player.movement = v(1, 0, 0);
    player.update(&clip, STRIDE);
    assert_eq!(player.pos, v(5, 2, 3));
}

#[test]
fn forward_follows_yaw_and_pitch() {
    let mut player = Player::new(v(0, 0, 0));
    assert_eq!(player.forward(), raw(0, 0, ONE));
    player.yaw = Angle::quarter_turn();
    assert_eq!(player.forward(), raw(ONE, 0, 0));
    player.yaw = Angle { sin: 39321, cos: 52428 };
    assert_eq!(player.forward(), raw(39321, 0, 52428));
    player.yaw = Angle::zero();
    player.pitch = Angle::quarter_turn();
    let up_or_down = player.forward();
    assert_eq!(up_or_down.x, 0);
    assert_eq!(up_or_down.z, 0);
    assert_eq!(up_or_down.y.abs(), ONE);
    assert_eq!(player.pos, v(0, 0, 0));
}

#[test]
fn limits_of_a_tick() {
    let mut player = Player::new(v(0, 0, 0));
    assert!(player.can_update(0));
    assert!(player.can_update(MAX_TICK));
    assert!(!player.can_update(MAX_TICK + 1));
    assert!(!player.can_update(-1));
    player.pos = raw(POS_LIMIT, -POS_LIMIT, 0);
    assert!(player.can_update(TICK));
    player.pos = raw(POS_LIMIT + 1, 0, 0);
    assert!(!player.can_update(TICK));
    player.pos = v(0, 0, 0);
    player.y_speed = -SPEED_LIMIT;
    assert!(player.can_update(TICK));
    player.y_speed = SPEED_LIMIT + 1;
    assert!(!player.can_update(TICK));
    player.y_speed = 0;
    player.yaw = Angle { sin: ONE + 1, cos: 0 };
    assert!(!player.can_update(TICK));
}

#[test]
fn tick_of_no_length_moves_nothing() {
    let bsp = floor_level();
    let clip = BspClipQuery::new(&bsp);
    assert!(clip.is_well_formed());
    let mut player = Player::new(v(0, 5, 0));
    player.movement = v(1, 0, 1);
    player.is_grounded = false;
    player.y_speed = -100 * ONE;
    player.update(&clip, 0);
    assert_eq!(player.pos, v(0, 5, 0));
    assert_eq!(player.y_speed, -100 * ONE);
    assert!(!player.is_grounded);
}
