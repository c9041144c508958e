use shared::bsp::{Bsp, ClipNode, Leaf, Node};
use shared::bsp_query::{
    point_intersect, ray_intersect, BspClipQuery, BspQuery, BspVisQuery, Intersection,
};
use shared::contents::{default_passable, ContentsSet, LeafContents};
use shared::fixed::{EPSILON, ONE};
use shared::tree::Plane;
use shared::vec3::{dot, Vec3};

fn v(x: i64, y: i64, z: i64) -> Vec3 {
    Vec3 { x: x * ONE, y: y * ONE, z: z * ONE }
}

fn raw(x: i64, y: i64, z: i64) -> Vec3 {
    Vec3 { x, y, z }
}

/// The plane of the points whose world height is `height`, facing up.
fn level_plane(height: i64) -> Plane {
    Plane { normal: raw(0, 0, ONE), dist: height * ONE }
}

/// The plane of the points whose world `x` is `at`, facing along `x`.
fn wall_plane(at: i64) -> Plane {
    Plane { normal: raw(0, ONE, 0), dist: at * ONE }
}

/// A level that is solid below the world plane `y = 0` and empty above it.
fn floor_level() -> Bsp {
    Bsp {
        planes: vec![level_plane(0)],
        nodes: vec![],
        clip_nodes: vec![ClipNode { plane_index: 0, children: [-1, -2] }],
        leafs: vec![],
        textures: vec![],
    }
}

/// A floor at `y = 0` with water between the heights 0 and 2, and a solid
/// wall beyond `x = 10`.
fn pool_level() -> Bsp {
    Bsp {
        planes: vec![level_plane(0), wall_plane(10), level_plane(2)],
        nodes: vec![],
        clip_nodes: vec![
            ClipNode { plane_index: 0, children: [1, -2] },
            ClipNode { plane_index: 1, children: [-2, 2] },
            ClipNode { plane_index: 2, children: [-1, -3] },
        ],
        leafs: vec![],
        textures: vec![],
    }
}

fn leaf(contents: LeafContents) -> Leaf {
    Leaf {
        contents,
        vis_offset: -1,
        mins: v(0, 0, 0),
        maxs: v(0, 0, 0),
        first_mark_surface: 0,
        num_mark_surfaces: 0,
    }
}

fn node(plane_index: u32, front: i32, back: i32) -> Node {
    Node {
        plane_index,
        children: [front, back],
        mins: v(0, 0, 0),
        maxs: v(0, 0, 0),
        first_surf: 0,
        num_surf: 0,
    }
}

/// The floor as a visibility tree: leaf 0 is solid, leaf 1 is empty, leaf 2
/// is sky above the height 100.
fn floor_vis_level() -> Bsp {
    Bsp {
        planes: vec![level_plane(0), level_plane(100)],
        nodes: vec![node(0, 1, -1), node(1, -3, -2)],
        clip_nodes: vec![],
        leafs: vec![
            leaf(LeafContents::Solid),
            leaf(LeafContents::Empty),
            leaf(LeafContents::Sky),
        ],
        textures: vec![],
    }
}

#[test]
fn ray_down_onto_floor_hits_at_distance_five() {
    let bsp = floor_level();
    let clip = BspClipQuery::new(&bsp);
    assert!(clip.is_well_formed());
    let hit = ray_intersect(&clip, v(0, 5, 0), v(0, -1, 0), 10 * ONE, default_passable());
    assert_eq!(
        hit,
        Some(Intersection {
            distance: 5 * ONE,
            position: v(0, 0, 0),
            normal: v(0, 1, 0),
            contents: LeafContents::Solid,
        })
    );
}

#[test]
fn point_above_floor_is_empty_and_below_is_solid() {
    let bsp = floor_level();
    let clip = BspClipQuery::new(&bsp);
    assert!(clip.is_well_formed());
    assert_eq!(point_intersect(&clip, v(3, 5, -2)), LeafContents::Empty);
    assert_eq!(point_intersect(&clip, v(3, -5, -2)), LeafContents::Solid);
    // A point on the plane is not strictly in front of it.
    assert_eq!(point_intersect(&clip, v(0, 0, 0)), LeafContents::Solid);
    assert_eq!(point_intersect(&clip, raw(0, 1, 0)), LeafContents::Empty);
}

#[test]
fn points_of_one_region_have_one_contents() {
    let bsp = pool_level();
    let clip = BspClipQuery::new(&bsp);
    assert!(clip.is_well_formed());
    let water = [v(0, 1, 0), v(9, 1, 50), v(-300, 2, 7), raw(-5, 1, 12)];
    for p in water {
        assert_eq!(point_intersect(&clip, p), LeafContents::Water);
    }
    let air = [v(0, 3, 0), v(10, 4000, -50), raw(0, 2 * ONE + 1, 0)];
    for p in air {
        assert_eq!(point_intersect(&clip, p), LeafContents::Empty);
    }
    let wall = [v(11, 1, 0), v(11, 3, 0), v(5000, 70, -3)];
    for p in wall {
        assert_eq!(point_intersect(&clip, p), LeafContents::Solid);
    }
}

#[test]
fn visibility_tree_resolves_leaf_records() {
    let bsp = floor_vis_level();
    let vis = BspVisQuery::new(&bsp);
    assert!(vis.is_well_formed());
    assert_eq!(point_intersect(&vis, v(0, -1, 0)), LeafContents::Solid);
    assert_eq!(point_intersect(&vis, v(0, 50, 0)), LeafContents::Empty);
    assert_eq!(point_intersect(&vis, v(0, 150, 0)), LeafContents::Sky);
    assert_eq!(vis.get_contents(-1), LeafContents::Solid);
    assert_eq!(vis.get_contents(-3), LeafContents::Sky);
    let root = vis.get_node(0);
    assert_eq!(root.plane_index, 0);
    assert_eq!(root.children, [1, -1]);
    assert_eq!(*vis.get_plane(1), level_plane(100));
    // Sky stops a ray that passes only the empty region.
    let up = ray_intersect(&vis, v(0, 50, 0), v(0, 1, 0), 200 * ONE, default_passable());
    assert_eq!(
        up,
        Some(Intersection {
            distance: 50 * ONE,
            position: v(0, 100, 0),
            normal: v(0, -1, 0),
            contents: LeafContents::Sky,
        })
    );
}

#[test]
fn clip_tree_children_are_content_codes() {
    let bsp = floor_level();
    let clip = BspClipQuery::new(&bsp);
    assert_eq!(clip.get_contents(-1), LeafContents::Empty);
    assert_eq!(clip.get_contents(-2), LeafContents::Solid);
    assert_eq!(clip.get_contents(-3), LeafContents::Water);
    assert_eq!(clip.get_contents(-4), LeafContents::Slime);
    assert_eq!(clip.get_contents(-5), LeafContents::Lava);
    assert_eq!(clip.get_contents(-6), LeafContents::Sky);
    assert_eq!(clip.get_contents(-7), LeafContents::Origin);
    assert_eq!(clip.get_contents(-8), LeafContents::Clip);
}

#[test]
fn ray_without_direction_hits_at_its_origin() {
    let bsp = floor_level();
    let clip = BspClipQuery::new(&bsp);
    assert!(clip.is_well_formed());
    let origin = v(3, 5, -7);
    let hit = ray_intersect(&clip, origin, raw(0, 0, 0), 10 * ONE, default_passable());
    assert_eq!(
        hit,
        Some(Intersection {
            distance: 0,
            position: origin,
            normal: raw(0, 0, 0),
            contents: LeafContents::Empty,
        })
    );
    // A direction of six raw units is still too short, one of seven is not.
    let short = ray_intersect(&clip, origin, raw(0, -6, 0), 10 * ONE, default_passable());
    assert_eq!(short.map(|hit| hit.distance), Some(0));
    assert_eq!(short.map(|hit| hit.normal), Some(raw(0, 0, 0)));
    let long_enough = ray_intersect(&clip, origin, raw(0, -7, 0), 10 * ONE, default_passable());
    assert_eq!(long_enough.map(|hit| hit.distance), Some(5 * ONE));
}

#[test]
fn ray_inside_empty_region_meets_nothing() {
    let bsp = floor_level();
    let clip = BspClipQuery::new(&bsp);
    assert!(clip.is_well_formed());
    let passable = default_passable();
    assert_eq!(ray_intersect(&clip, v(0, 5, 0), v(0, -1, 0), 4 * ONE, passable), None);
    assert_eq!(ray_intersect(&clip, v(0, 5, 0), v(1, 0, 0), 1000 * ONE, passable), None);
    assert_eq!(ray_intersect(&clip, v(0, 5, 0), v(0, 1, 0), 1000 * ONE, passable), None);
    assert_eq!(ray_intersect(&clip, v(0, 5, 0), v(3, -1, 2), 10 * ONE, passable), None);
}

#[test]
fn ray_that_starts_in_solid_hits_at_once_without_normal() {
    let bsp = floor_level();
    let clip = BspClipQuery::new(&bsp);
    assert!(clip.is_well_formed());
    let hit = ray_intersect(&clip, v(0, -5, 0), v(1, 0, 0), 10 * ONE, default_passable());
    assert_eq!(
        hit,
        Some(Intersection {
            distance: 0,
            position: v(0, -5, 0),
            normal: raw(0, 0, 0),
            contents: LeafContents::Solid,
        })
    );
}

#[test]
fn slanted_ray_hits_at_the_distance_of_the_plane() {
    let bsp = floor_level();
    let clip = BspClipQuery::new(&bsp);
    assert!(clip.is_well_formed());
    // The direction (3, -4, 0) has length 5; the floor is 4 below the origin.
    let dir = v(3, -4, 0);
    let hit = ray_intersect(&clip, v(0, 4, 0), dir, 10 * ONE, default_passable()).unwrap();
    // The unit direction is (39321, -52428, 0) in raw units; the floor lies at
    // 4 * 65536 * 65536 / 52428 = 327685 along it, rounded down.
    assert_eq!(hit.distance, 327685);
    assert_eq!(hit.normal, v(0, 1, 0));
    assert_eq!(hit.contents, LeafContents::Solid);
    assert!((hit.distance - 5 * ONE).abs() <= EPSILON);
    assert!((hit.position.x - 3 * ONE).abs() <= EPSILON);
    assert!(hit.position.y.abs() <= EPSILON);
    assert_eq!(hit.position.z, 0);
    assert!(dot(hit.normal, raw(39321, -52428, 0)) < 0);
}

#[test]
fn ray_from_below_meets_the_back_of_the_plane() {
    // Empty below the plane and solid above it: a ceiling.
    let bsp = Bsp {
        planes: vec![level_plane(8)],
        nodes: vec![],
        clip_nodes: vec![ClipNode { plane_index: 0, children: [-2, -1] }],
        leafs: vec![],
        textures: vec![],
    };
    let clip = BspClipQuery::new(&bsp);
    assert!(clip.is_well_formed());
    let hit = ray_intersect(&clip, v(0, 5, 0), v(0, 2, 0), 10 * ONE, default_passable());
    assert_eq!(
        hit,
        Some(Intersection {
            distance: 3 * ONE,
            position: v(0, 8, 0),
            normal: v(0, -1, 0),
            contents: LeafContents::Solid,
        })
    );
}

#[test]
fn ray_query_gives_the_same_result_twice() {
    let bsp = pool_level();
    let clip = BspClipQuery::new(&bsp);
    assert!(clip.is_well_formed());
    let first = ray_intersect(&clip, v(0, 5, 0), v(2, -1, 1), 100 * ONE, default_passable());
    let second = ray_intersect(&clip, v(0, 5, 0), v(2, -1, 1), 100 * ONE, default_passable());
    assert!(first.is_some());
    assert_eq!(first, second);
}

#[test]
fn passable_set_decides_what_stops_a_ray() {
    let bsp = pool_level();
    let clip = BspClipQuery::new(&bsp);
    assert!(clip.is_well_formed());
    // Water stops a ray that passes only the empty region.
    let on_water = ray_intersect(&clip, v(0, 5, 0), v(0, -1, 0), 10 * ONE, default_passable());
    assert_eq!(
        on_water,
        Some(Intersection {
            distance: 3 * ONE,
            position: v(0, 2, 0),
            normal: v(0, 1, 0),
            contents: LeafContents::Water,
        })
    );
    // A ray that passes water too goes on to the floor.
    let swimmer = default_passable().with(LeafContents::Water);
    let on_floor = ray_intersect(&clip, v(0, 5, 0), v(0, -1, 0), 10 * ONE, swimmer);
    assert_eq!(
        on_floor,
        Some(Intersection {
            distance: 5 * ONE,
            position: v(0, 0, 0),
            normal: v(0, 1, 0),
            contents: LeafContents::Solid,
        })
    );
    // A ray that passes everything meets nothing.
    assert_eq!(ray_intersect(&clip, v(0, 5, 0), v(0, -1, 0), 10 * ONE, ContentsSet::all()), None);
    // A ray that passes only what is not empty comes out of the floor.
    let through = default_passable().complement();
    let out = ray_intersect(&clip, v(0, -1, 0), v(0, 1, 0), 10 * ONE, through);
    assert_eq!(
        out,
        Some(Intersection {
            distance: 3 * ONE,
            position: v(0, 2, 0),
            normal: v(0, -1, 0),
            contents: LeafContents::Empty,
        })
    );
}

#[test]
fn ray_hits_the_wall_past_the_plane_of_the_floor() {
    let bsp = pool_level();
    let clip = BspClipQuery::new(&bsp);
    assert!(clip.is_well_formed());
    let hit = ray_intersect(&clip, v(0, 5, 0), v(1, 0, 0), 100 * ONE, default_passable());
    assert_eq!(
        hit,
        Some(Intersection {
            distance: 10 * ONE,
            position: v(10, 5, 0),
            normal: v(-1, 0, 0),
            contents: LeafContents::Solid,
        })
    );
}

#[test]
fn ray_on_a_plane_takes_the_side_it_runs_toward() {
    let bsp = floor_level();
    let clip = BspClipQuery::new(&bsp);
    assert!(clip.is_well_formed());
    // Up from the floor: into the empty region.
    assert_eq!(
        ray_intersect(&clip, v(0, 0, 0), v(0, 1, 0), 10 * ONE, default_passable()),
        None
    );
    // Down from the floor: into the solid at once, with the normal of the floor.
    assert_eq!(
        ray_intersect(&clip, v(0, 0, 0), v(0, -1, 0), 10 * ONE, default_passable()),
        Some(Intersection {
            distance: 0,
            position: v(0, 0, 0),
            normal: v(0, 1, 0),
            contents: LeafContents::Solid,
        })
    );
}

#[test]
fn ray_along_a_plane_ignores_the_solid_beside_it() {
    let bsp = floor_level();
    let clip = BspClipQuery::new(&bsp);
    assert!(clip.is_well_formed());
    // The solid side answers with a hit at distance zero, which gives way to
    // the empty side.
    assert_eq!(
        ray_intersect(&clip, v(0, 0, 0), v(1, 0, 0), 100 * ONE, default_passable()),
        None
    );
    // Along the floor toward the wall: the nearer of the two sides wins.
    let bsp = pool_level();
    let clip = BspClipQuery::new(&bsp);
    assert!(clip.is_well_formed());
    let swimmer = default_passable().with(LeafContents::Water);
    let hit = ray_intersect(&clip, v(0, 0, 0), v(1, 0, 0), 100 * ONE, swimmer).unwrap();
    assert_eq!(hit.distance, 10 * ONE);
    assert_eq!(hit.normal, v(-1, 0, 0));
    assert_eq!(hit.contents, LeafContents::Solid);
    assert_eq!(hit.position.x, 10 * ONE);
}

#[test]
fn malformed_trees_are_told_apart() {
    // No node at all.
    let empty = Bsp { planes: vec![], nodes: vec![], clip_nodes: vec![], leafs: vec![], textures: vec![] };
    assert!(!BspClipQuery::new(&empty).is_well_formed());
    assert!(!BspVisQuery::new(&empty).is_well_formed());
    // A plane index out of range.
    let mut bsp = floor_level();
    bsp.clip_nodes[0].plane_index = 1;
    assert!(!BspClipQuery::new(&bsp).is_well_formed());
    // A child that is no node.
    let mut bsp = floor_level();
    bsp.clip_nodes[0].children = [1, -2];
    assert!(!BspClipQuery::new(&bsp).is_well_formed());
    // A content code that is no kind.
    let mut bsp = floor_level();
    bsp.clip_nodes[0].children = [-1, -9];
    assert!(!BspClipQuery::new(&bsp).is_well_formed());
    // A node that is its own child.
    let mut bsp = floor_level();
    bsp.clip_nodes[0].children = [0, -2];
    assert!(!BspClipQuery::new(&bsp).is_well_formed());
    // A cycle of two nodes.
    let mut bsp = pool_level();
    bsp.clip_nodes[2].children = [-1, 1];
    assert!(!BspClipQuery::new(&bsp).is_well_formed());
    // A normal longer than one along an axis.
    let mut bsp = floor_level();
    bsp.planes[0].normal = raw(0, 0, ONE + 1);
    assert!(!BspClipQuery::new(&bsp).is_well_formed());
    // A leaf that is not there.
    let mut bsp = floor_vis_level();
    bsp.nodes[1].children = [-4, -2];
    assert!(!BspVisQuery::new(&bsp).is_well_formed());
}

#[test]
fn nodes_out_of_reach_do_not_matter() {
    // The second node names a plane that is not there, but nothing leads to it.
    let mut bsp = floor_level();
    bsp.clip_nodes.push(ClipNode { plane_index: 7, children: [1, 55] });
    let clip = BspClipQuery::new(&bsp);
    assert!(clip.is_well_formed());
    assert_eq!(point_intersect(&clip, v(0, 1, 0)), LeafContents::Empty);
    // Children may come before their parents in the table.
    let bsp = Bsp {
        planes: vec![level_plane(0), wall_plane(10)],
        nodes: vec![],
        clip_nodes: vec![
            ClipNode { plane_index: 0, children: [2, -2] },
            ClipNode { plane_index: 1, children: [-2, -1] },
            ClipNode { plane_index: 0, children: [1, -2] },
        ],
        leafs: vec![],
        textures: vec![],
    };
    let clip = BspClipQuery::new(&bsp);
    assert!(clip.is_well_formed());
    assert_eq!(point_intersect(&clip, v(11, 1, 0)), LeafContents::Solid);
    assert_eq!(point_intersect(&clip, v(9, 1, 0)), LeafContents::Empty);
}

#[test]
fn hits_are_impassable_and_face_the_ray() {
    let bsp = pool_level();
    let clip = BspClipQuery::new(&bsp);
    assert!(clip.is_well_formed());
    let origins = [v(0, 5, 0), v(-3, 1, 2), v(9, 3, -4), raw(0, 1, 0), v(0, 0, 0)];
    let dirs = [
        v(0, -1, 0),
        v(1, 0, 0),
        v(1, -1, 0),
        v(3, -1, 2),
        v(-1, -5, 1),
        v(0, 1, 0),
        raw(ONE, -1, 0),
        raw(ONE, 1, 0),
    ];
    let sets = [default_passable(), default_passable().with(LeafContents::Water)];
    let mut hits = 0;
    for origin in origins {
        for dir in dirs {
            for passable in sets {
                if let Some(hit) = ray_intersect(&clip, origin, dir, 100 * ONE, passable) {
                    hits += 1;
                    assert!(!passable.contains(hit.contents));
                    assert!(hit.distance >= 0 && hit.distance <= 100 * ONE);
                    let unit = shared::vec3::try_normalize(dir).unwrap();
                    assert!(dot(hit.normal, unit) <= EPSILON);
                    assert!((hit.position.x - origin.x).abs() <= hit.distance);
                    assert!((hit.position.y - origin.y).abs() <= hit.distance);
                    assert!((hit.position.z - origin.z).abs() <= hit.distance);
                }
            }
        }
    }
    assert!(hits > 20);
}
