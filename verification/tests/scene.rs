use awsm_renderer_scene::project_dir::{scene_from_toml, scene_to_toml};
use awsm_renderer_scene::Scene;
use single_player_game_physics::protocol::{
    ColliderInit, ColliderShapeMsg, ROLE_BALL, ROLE_FLOOR, ROLE_WALL,
};
use single_player_game_physics::scene::{
    ball_mesh_node, collider_shape_msg, derive_physics, find_mesh_node, floor_box, parse_error,
    parse_scene, NodeContent, Placement, Scaled, SceneNode, SceneShape, ShapeFold, DEFAULT_SPAWN_Y,
    UNIT_SCALE,
};

const ONE: u32 = 0x3f80_0000;
const TWO: u32 = 0x4000_0000;

fn node(id: u128, name: &str, content: NodeContent, children: Vec<SceneNode>) -> SceneNode {
    SceneNode {
        id,
        name: name.to_string(),
        content,
        place: Placement {
            scale: [TWO, ONE, ONE],
            rotation: [0, 0, 0, ONE],
            translation: [id as u32, 0, 0],
        },
        children,
    }
}

#[test]
fn scene_text_is_read() {
    let scene = Scene { name: "table".to_string(), ..Scene::default() };
    let text = scene_to_toml(&scene).unwrap();
    assert_eq!(parse_scene(&text).unwrap().name, "table");
    assert_eq!(parse_scene("").unwrap(), Scene::default());
}

#[test]
fn missing_material_id_is_drawn() {
    let text = "[[custom_materials]]\nname = \"glow\"\nfolder = \"assets/materials/glow\"\n";
    let (one, two) = (parse_scene(text).unwrap(), parse_scene(text).unwrap());
    assert_eq!(one.custom_materials[0].name, "glow");
    assert_ne!(one.custom_materials[0].id, two.custom_materials[0].id);
}

#[test]
fn bad_scene_text_is_reported() {
    let text = "name = [";
    let words = scene_from_toml(text).unwrap_err().to_string();
    assert_eq!(parse_scene(text).unwrap_err(), format!("parse: {words}"));
    assert_eq!(parse_error("why"), "parse: why");
}

#[test]
fn mesh_is_found_depth_first() {
    let tree = node(
        1,
        "Ball",
        NodeContent::Other,
        vec![
            node(2, "a", NodeContent::Other, vec![node(3, "b", NodeContent::SkinnedMesh, vec![])]),
            node(4, "c", NodeContent::Mesh, vec![]),
        ],
    );
    assert_eq!(find_mesh_node(&tree), Some(3));
    assert_eq!(find_mesh_node(&node(9, "m", NodeContent::ClusterMesh, vec![])), Some(9));
    assert_eq!(find_mesh_node(&node(9, "m", NodeContent::Other, vec![])), None);
}

#[test]
fn ball_mesh_or_why_not() {
    let mesh = node(2, "Ball_Mesh", NodeContent::Mesh, vec![]);
    let ball = node(1, "Ball", NodeContent::Other, vec![mesh]);
    let floor = node(3, "Floor", NodeContent::Mesh, vec![]);
    assert_eq!(ball_mesh_node(&vec![floor, ball]), Ok(2));
    assert_eq!(ball_mesh_node(&vec![]), Err("scene has no node named 'Ball'"));
    let empty = node(1, "Ball", NodeContent::Other, vec![]);
    assert_eq!(
        ball_mesh_node(&vec![empty]),
        Err("'Ball' has no renderable mesh node to drive")
    );
}

#[test]
fn scale_is_folded_into_the_shape() {
    let scale = [(-2.0f32).to_bits(), 1.0f32.to_bits(), 3.0f32.to_bits()];
    let (two, one, three) = (2.0f32.to_bits(), 1.0f32.to_bits(), 3.0f32.to_bits());
    let by = |extent: u32, factor: u32| Scaled { extent, factor };
    assert_eq!(
        collider_shape_msg(&SceneShape::Box { half_extents: [7, 8, 9] }, scale),
        Some(ShapeFold::Cuboid { x: by(7, two), y: by(8, one), z: by(9, three) })
    );
    assert_eq!(
        collider_shape_msg(&SceneShape::Sphere { radius: 7 }, scale),
        Some(ShapeFold::Ball { radius: by(7, three) })
    );
    assert_eq!(
        collider_shape_msg(&SceneShape::Capsule { half_height: 7, radius: 8 }, scale),
        Some(ShapeFold::Capsule { half_height: by(7, one), radius: by(8, three) })
    );
    assert_eq!(
        collider_shape_msg(&SceneShape::Cylinder { half_height: 7, radius: 8 }, scale),
        Some(ShapeFold::Cylinder { half_height: by(7, one), radius: by(8, three) })
    );
    assert_eq!(
        collider_shape_msg(&SceneShape::Cone { half_height: 7, radius: 8 }, scale),
        Some(ShapeFold::Cone { half_height: by(7, one), radius: by(8, three) })
    );
    assert_eq!(collider_shape_msg(&SceneShape::Ellipsoid, scale), None);
}

#[test]
fn physics_is_derived_from_the_scene() {
    let sphere = NodeContent::Collider(SceneShape::Sphere { radius: 5 });
    let cuboid = NodeContent::Collider(SceneShape::Box { half_extents: [1, 2, 3] });
    let ellipsoid = NodeContent::Collider(SceneShape::Ellipsoid);
    let ball = node(
        10,
        "Ball",
        NodeContent::Other,
        vec![node(11, "Ball_Wall", sphere, vec![]), node(12, "Ball_Mesh", NodeContent::Mesh, vec![])],
    );
    let table = node(
        20,
        "Table",
        NodeContent::Other,
        vec![
            node(21, "Top", cuboid, vec![]),
            node(22, "North Wall", cuboid, vec![]),
            node(23, "Egg", ellipsoid, vec![]),
        ],
    );
    let got = derive_physics(&vec![table, ball], 12);
    let roles: Vec<u8> = got.colliders.iter().map(|c| c.role).collect();
    assert_eq!(roles, vec![ROLE_FLOOR, ROLE_WALL, ROLE_BALL]);
    let dynamic: Vec<bool> = got.colliders.iter().map(|c| c.dynamic).collect();
    assert_eq!(dynamic, vec![false, false, true]);
    assert_eq!(got.colliders[0].translation, [21, 0, 0]);
    assert_eq!(got.colliders[0].rotation, [0, 0, 0, ONE]);
    assert_eq!(got.spawn, [11, 0, 0]);
    assert_eq!(got.ball_scale, TWO);
}

#[test]
fn first_ball_collider_is_the_one_that_moves() {
    let sphere = NodeContent::Collider(SceneShape::Sphere { radius: 5 });
    let egg = NodeContent::Collider(SceneShape::Ellipsoid);
    let ball = node(
        10,
        "Ball",
        NodeContent::Other,
        vec![
            node(11, "shell", egg, vec![]),
            node(12, "core", sphere, vec![node(13, "ear", sphere, vec![])]),
            node(14, "tail", egg, vec![]),
        ],
    );
    let table = node(20, "Table", sphere, vec![]);
    let second = node(30, "Ball", sphere, vec![]);
    let got = derive_physics(&vec![table, ball, second], 0);
    let moving: Vec<bool> = got.colliders.iter().map(|c| c.dynamic).collect();
    assert_eq!(moving, vec![false, true, false, false]);
    assert_eq!(got.colliders[1].translation, [12, 0, 0]);
    assert_eq!(got.spawn, [12, 0, 0]);
}

#[test]
fn scene_without_a_ball_has_defaults() {
    let got = derive_physics(&vec![], 1);
    assert!(got.colliders.is_empty());
    assert_eq!(got.spawn, [0, DEFAULT_SPAWN_Y, 0]);
    assert_eq!(got.ball_scale, UNIT_SCALE);
    assert_eq!(f32::from_bits(DEFAULT_SPAWN_Y), 0.6);
    assert_eq!(f32::from_bits(UNIT_SCALE), 1.0);
}

#[test]
fn floor_is_the_first_static_floor_cuboid() {
    let c = |dynamic: bool, role: u8, shape: ColliderShapeMsg, x: u32| ColliderInit {
        shape,
        translation: [x, 0, 0],
        rotation: [0; 4],
        dynamic,
        role,
    };
    let cuboid = ColliderShapeMsg::Cuboid { half_extents: [1, 2, 3] };
    let all = vec![
        c(false, ROLE_WALL, cuboid, 1),
        c(true, ROLE_FLOOR, cuboid, 2),
        c(false, ROLE_FLOOR, ColliderShapeMsg::Ball { radius: 1 }, 3),
        c(false, ROLE_FLOOR, cuboid, 4),
        c(false, ROLE_FLOOR, cuboid, 5),
    ];
    assert_eq!(floor_box(&all), Some(([1, 2, 3], [4, 0, 0])));
    assert_eq!(floor_box(&all[..3].to_vec()), None);
}
