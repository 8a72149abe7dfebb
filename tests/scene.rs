use baryon::{MeshRef, ImageRef, NodeRef, Scene, UvRange};
use glam::{Mat4, Quat, Vec3};

#[derive(Clone, Copy, Debug, PartialEq)]
struct Space {
    position: Vec3,
    scale: f32,
    orientation: Quat,
}

const IDENTITY: Space = Space {
    position: Vec3::ZERO,
    scale: 1.0,
    orientation: Quat::IDENTITY,
};

fn combine(parent: &Space, child: &Space) -> Space {
    Space {
        scale: parent.scale * child.scale,
        orientation: parent.orientation * child.orientation,
        position: parent.scale * (parent.orientation * child.position) + parent.position,
    }
}

fn inverse(s: &Space) -> Space {
    let scale = 1.0 / s.scale;
    let orientation = s.orientation.inverse();
    Space {
        position: -scale * (orientation * s.position),
        scale,
        orientation,
    }
}

fn at(x: f32, y: f32, z: f32, scale: f32) -> Space {
    Space {
        position: Vec3::new(x, y, z),
        scale,
        orientation: Quat::IDENTITY,
    }
}

fn close(a: Vec3, b: Vec3) -> bool {
    (a - b).length() < 1e-5
}

#[test]
fn three_level_hierarchy_bakes_to_world_space() {
    let mut scene = Scene::new(IDENTITY);
    let a = scene.add_node().local(at(1.0, 0.0, 0.0, 2.0)).build(&mut scene);
    let b = scene
        .add_node()
        .parent(a)
        .local(at(0.0, 1.0, 0.0, 1.0))
        .build(&mut scene);
    let baked = scene.bake(combine);
    let world = baked.get(b);
    assert!(close(world.position, Vec3::new(1.0, 2.0, 0.0)));
    assert_eq!(world.scale, 2.0);
}

#[test]
fn chained_nodes_compose_parent_first() {
    let mut scene = Scene::new(IDENTITY);
    let la = Space {
        position: Vec3::new(1.0, -2.0, 0.5),
        scale: 1.5,
        orientation: Quat::from_rotation_y(0.7),
    };
    let lb = Space {
        position: Vec3::new(0.0, 3.0, 1.0),
        scale: 0.5,
        orientation: Quat::from_rotation_x(-0.3),
    };
    let lc = Space {
        position: Vec3::new(2.0, 0.0, -1.0),
        scale: 3.0,
        orientation: Quat::from_rotation_z(1.1),
    };
    let a = scene.add_node().local(la).build(&mut scene);
    let b = scene.add_node().parent(a).local(lb).build(&mut scene);
    let c = scene.add_node().parent(b).local(lc).build(&mut scene);
    let baked = scene.bake(combine);
    let expected = combine(&combine(&la, &lb), &lc);
    assert_eq!(*baked.get(a), la);
    assert!(close(baked.get(c).position, expected.position));
    assert!((baked.get(c).scale - expected.scale).abs() < 1e-6);
    assert!(baked.get(c).orientation.abs_diff_eq(expected.orientation, 1e-6));
}

#[test]
fn identity_node_under_root_bakes_to_root() {
    let mut scene = Scene::new(IDENTITY);
    let n = scene.add_node().build(&mut scene);
    assert_eq!(n, NodeRef(1));
    let baked = scene.bake(combine);
    assert_eq!(*baked.get(n), *baked.get(NodeRef(0)));
    assert_eq!(*baked.get(n), IDENTITY);
}

#[test]
fn camera_view_maps_its_position_to_the_origin() {
    let mut scene = Scene::new(IDENTITY);
    let camera = scene.add_node().local(at(0.0, 0.0, 5.0, 1.0)).build(&mut scene);
    let baked = scene.bake(combine);
    let view = inverse(baked.get(camera));
    let m = Mat4::from_scale_rotation_translation(
        Vec3::splat(view.scale),
        view.orientation,
        view.position,
    );
    assert!(close(m.transform_point3(Vec3::new(0.0, 0.0, 5.0)), Vec3::ZERO));
}

#[test]
fn entity_without_transform_shares_its_parent_node() {
    let mut scene = Scene::new(IDENTITY);
    let parent = scene.add_node().local(at(0.0, 1.0, 0.0, 1.0)).build(&mut scene);
    let entity = scene.add_entity(MeshRef(3)).parent(parent).build(&mut scene);
    assert_eq!(entity.node, parent);
    assert_eq!(entity.mesh, MeshRef(3));
    assert_eq!(scene.nodes.0.len(), 2);

    let moved = scene
        .add_entity(MeshRef(4))
        .parent(parent)
        .local(at(2.0, 0.0, 0.0, 1.0))
        .build(&mut scene);
    assert_eq!(moved.node, NodeRef(2));
    assert_eq!(scene.node(moved.node).parent, parent);
    assert_eq!(scene.nodes.0.len(), 3);
}

#[test]
fn sprite_keeps_its_uv_range() {
    let mut scene = Scene::new(IDENTITY);
    let whole = scene.add_sprite(ImageRef(1)).build(&mut scene);
    assert!(whole.uv.is_none());
    assert_eq!(whole.node, NodeRef(0));
    let part = scene
        .add_sprite(ImageRef(1))
        .uv(UvRange { start: (0, 0), end: (16, 32) })
        .local(at(1.0, 1.0, 0.0, 1.0))
        .build(&mut scene);
    let uv = part.uv.unwrap();
    assert_eq!(uv.start, (0, 0));
    assert_eq!(uv.end, (16, 32));
    assert_eq!(part.image, ImageRef(1));
    assert_eq!(part.node, NodeRef(1));
}

#[test]
fn lights_are_listed_in_insertion_order() {
    let mut scene = Scene::new(IDENTITY);
    let first = scene.add_point_light().build(&mut scene);
    let second = scene.add_directional_light().build(&mut scene);
    let listed = scene.lights();
    assert_eq!(listed.len(), 2);
    assert_eq!(listed[0].0, first);
    assert_eq!(listed[1].0, second);
    assert_eq!(listed[1].1, scene.light(second));
}

#[test]
fn moving_a_node_moves_its_children() {
    let mut scene = Scene::new(IDENTITY);
    let arm = scene.add_node().local(at(1.0, 0.0, 0.0, 1.0)).build(&mut scene);
    let hand = scene.add_node().parent(arm).local(at(0.0, 1.0, 0.0, 1.0)).build(&mut scene);
    scene.set_local(arm, at(5.0, 0.0, 0.0, 1.0));
    assert_eq!(scene.node(arm).parent, NodeRef(0));
    let baked = scene.bake(combine);
    assert!(close(baked.get(hand).position, Vec3::new(5.0, 1.0, 0.0)));
}
