use baryon::{
    needs_depth_reset, select_lights, Color, Extent, LightKind, LightRef, NodeRef, PhongPipeline,
    RealConfig, Scene, Shader, SolidConfig,
};

#[test]
fn select_lights_sorts_by_key_and_keeps_ties_in_order() {
    let keys = vec![Some(5), None, Some(2), Some(5)];
    assert_eq!(select_lights(&keys), [2, 0, 3, 0]);
}

#[test]
fn select_lights_keeps_the_four_best() {
    let keys = vec![Some(9), Some(1), Some(7), None, Some(1), Some(3), Some(8)];
    assert_eq!(select_lights(&keys), [1, 4, 5, 2]);
}

#[test]
fn select_lights_without_candidates_is_all_zero() {
    assert_eq!(select_lights(&vec![]), [0, 0, 0, 0]);
    assert_eq!(select_lights(&vec![None, None]), [0, 0, 0, 0]);
}

#[test]
fn lights_past_the_capacity_are_dropped() {
    let max_lights = 16;
    let mut scene = Scene::new(0u8);
    for i in 0..max_lights + 5 {
        let light = scene
            .add_point_light()
            .color(Color(i as u32))
            .build(&mut scene);
        assert_eq!(light, LightRef(i as u32));
    }
    assert_eq!(scene.lights().len(), max_lights + 5);
    let uploaded = scene.uploaded_lights(max_lights);
    assert_eq!(uploaded.len(), max_lights);
    for (i, (handle, light)) in uploaded.iter().enumerate() {
        assert_eq!(*handle, LightRef(i as u32));
        assert_eq!(light.color, Color(i as u32));
        assert_eq!(light.kind, LightKind::Point);
    }
    assert_eq!(scene.uploaded_lights(100).len(), max_lights + 5);
}

#[test]
fn new_lights_are_white_with_unit_intensity() {
    let mut scene = Scene::new(0u8);
    let sun = scene.add_directional_light().build(&mut scene);
    let light = scene.light(sun);
    assert_eq!(light.kind, LightKind::Directional);
    assert_eq!(light.color, Color(0xFFFF_FFFF));
    assert_eq!(f32::from_bits(light.intensity_bits), 1.0);
    assert_eq!(light.node, NodeRef(0));
    assert_eq!(scene.nodes.0.len(), 1);
}

#[test]
fn light_with_a_transform_gets_its_own_node() {
    let mut scene = Scene::new(0u8);
    let lamp = scene
        .add_light(LightKind::Point)
        .local(7)
        .intensity_bits(2.5f32.to_bits())
        .build(&mut scene);
    let light = scene.light(lamp);
    assert_eq!(light.node, NodeRef(1));
    assert_eq!(scene.node(NodeRef(1)).local, 7);
    assert_eq!(f32::from_bits(light.intensity_bits), 2.5);
}

#[test]
fn depth_buffer_is_remade_on_size_change() {
    let small = Extent { width: 640, height: 480, depth_or_array_layers: 1 };
    let large = Extent { width: 1280, height: 720, depth_or_array_layers: 1 };
    assert!(needs_depth_reset(None, small));
    assert!(!needs_depth_reset(Some(small), small));
    assert!(needs_depth_reset(Some(small), large));
}

#[test]
fn shader_picks_pipeline_and_glossiness() {
    assert_eq!(Shader::Gouraud { flat: true }.pipeline(), PhongPipeline::Flat);
    assert_eq!(Shader::Gouraud { flat: false }.pipeline(), PhongPipeline::Gouraud);
    assert_eq!(Shader::Phong { glossiness: 10 }.pipeline(), PhongPipeline::Phong);
    assert_eq!(Shader::Phong { glossiness: 10 }.glossiness(), 10);
    assert_eq!(Shader::Gouraud { flat: true }.glossiness(), 0);
}

#[test]
fn pass_configs_default_to_culling() {
    assert!(SolidConfig::default().cull_back_faces);
    let real = RealConfig::default();
    assert!(real.cull_back_faces);
    assert_eq!(real.max_lights, 16);
}

#[test]
fn a_light_can_be_replaced() {
    let mut scene = Scene::new(0u8);
    let lamp = scene.add_point_light().build(&mut scene);
    let mut light = scene.light(lamp);
    light.color = Color(0xFF00_00FF);
    light.kind = LightKind::Directional;
    scene.set_light(lamp, light);
    assert_eq!(scene.light(lamp), light);
    assert_eq!(scene.lights().len(), 1);
}
