use dist_render::hierarchy::{
    game_object_component_summary, game_object_has_scene_role_component, hierarchy_children,
    hierarchy_icon,
    hierarchy_label,
};
use dist_render::runtime_scene::{desired_bindings, RuntimeScene};
use dist_render::scene::{
    default_game_object_name_for_id, mesh_object_name_from_parts, BuiltinGameObjectKind,
    CameraComponent, GameObject, GameObjectId, LegacySceneElement, MeshRendererComponent,
    MeshSource, SceneComponent, SceneData, SceneDefaults, SceneState, SunComponent,
};

/// Transforms are plain positions in these tests.
struct TestData;

impl SceneData for TestData {
    type Transform = [i32; 3];
    type MeshParams = u8;
    type CameraParams = u8;
    type SunParams = u8;
    type LocalLightsParams = u8;
    type RenderSettings = u8;

    fn identity_transform() -> [i32; 3] {
        [0, 0, 0]
    }

    fn main_camera_transform() -> [i32; 3] {
        [0, 1, 5]
    }

    fn default_mesh_params() -> u8 {
        1
    }

    fn default_camera_params() -> u8 {
        2
    }

    fn default_sun_params() -> u8 {
        3
    }

    fn default_local_lights_params() -> u8 {
        4
    }

    fn default_render_settings() -> u8 {
        9
    }
}

type Scene = SceneState<TestData>;

fn ids(scene: &Scene) -> Vec<u64> {
    scene.game_objects.iter().map(|o| o.id.0).collect()
}

#[test]
fn new_scene_has_the_editor_singletons() {
    let scene = Scene::new();
    let names: Vec<&str> = scene.game_objects.iter().map(|o| o.name.as_str()).collect();
    assert_eq!(names, vec!["Main Camera", "Sun", "Local Lights"]);
    assert_eq!(scene.game_objects[0].builtin, Some(BuiltinGameObjectKind::MainCamera));
    assert_eq!(scene.game_objects[1].builtin, Some(BuiltinGameObjectKind::Sun));
    assert_eq!(scene.game_objects[2].builtin, Some(BuiltinGameObjectKind::LocalLights));
    assert_eq!(scene.game_objects[0].transform, [0, 1, 5]);
    assert_eq!(ids(&scene), vec![1, 2, 3]);
    assert_eq!(scene.next_game_object_id, 4);
    assert_eq!(scene.render_settings, 9);
    assert!(scene.primary_camera_component_index().is_some());
    assert_eq!(scene.sun_component_index(), Some((1, 0)));
    assert_eq!(scene.local_lights_component_index(), Some((2, 0)));
}

#[test]
fn default_names_and_flags() {
    assert_eq!(default_game_object_name_for_id(GameObjectId(42)), "GameObject 42");
    assert_eq!(BuiltinGameObjectKind::LocalLights.display_name(), "Local Lights");
    let id = GameObjectId(7);
    assert_eq!(GameObject::<TestData>::sanitized_name(id, "  !!  "), "GameObject 7");
    assert_eq!(GameObject::<TestData>::sanitized_name(id, "My__Cube-2"), "My Cube 2");
}

#[test]
fn create_objects_and_components() {
    let mut scene = Scene::new();
    let a = scene.create_game_object("Box", [1, 2, 3]);
    assert_eq!(a, GameObjectId(4));
    assert_eq!(scene.next_game_object_id, 5);
    let mesh = MeshRendererComponent::new(MeshSource::File("assets/box.obj".to_string()));
    assert!(scene.add_component(a, SceneComponent::MeshRenderer(mesh)));
    assert!(!scene.add_component(GameObjectId(99), SceneComponent::Sun(SunComponent::default_sun())));
    let o = scene.find_game_object(a).unwrap();
    assert_eq!(o.components.len(), 1);
    assert_eq!(o.components[0].kind_name(), "Mesh Renderer");
    assert!(o.components[0].as_mesh_renderer().is_some());
    assert!(o.components[0].as_camera().is_none());
    let m = scene.create_mesh_object("Teapot", MeshSource::Cache("/cache/t.mesh".to_string()), [0, 0, 0]);
    assert_eq!(scene.find_game_object(m).unwrap().name, "Teapot");
}

#[test]
fn mesh_source_default_names() {
    let src = MeshSource::File("assets/models/Sphere.obj".to_string());
    assert_eq!(src.default_game_object_name(), "Sphere");
    let src = MeshSource::File("assets/meshes/cornell_box/scene.gltf".to_string());
    assert_eq!(src.default_game_object_name(), "cornell box");
    let src = MeshSource::Cache("/cache/###.mesh".to_string());
    assert_eq!(src.default_game_object_name(), "Imported Mesh");
}

#[test]
fn reparent_moves_subtree_after_new_parent() {
    let mut scene = Scene::new();
    let a = scene.create_game_object("A", [0, 0, 0]);
    let b = scene.create_game_object("B", [0, 0, 0]);
    let c = scene.create_game_object("C", [0, 0, 0]);
    assert!(scene.reparent_game_object(c, Some(b)));
    assert!(scene.reparent_game_object(b, Some(a)));
    assert_eq!(ids(&scene), vec![1, 2, 3, 4, 5, 6]);
    assert_eq!(scene.find_game_object(b).unwrap().parent, Some(a));
    assert_eq!(scene.find_game_object(c).unwrap().parent, Some(b));
    // a cycle is refused, and so is a move to the same parent
    assert!(!scene.can_reparent_game_object(a, Some(c)));
    assert!(!scene.reparent_game_object(a, Some(c)));
    assert!(!scene.reparent_game_object(b, Some(a)));
    assert!(!scene.reparent_game_object(a, Some(a)));
    // builtins stay at the top level
    assert!(!scene.reparent_game_object(GameObjectId(1), Some(a)));
    // moving to the top level puts the subtree at the end
    assert!(scene.reparent_game_object(b, None));
    assert_eq!(ids(&scene), vec![1, 2, 3, 4, 5, 6]);
    assert!(scene.reparent_game_object(a, Some(c)));
    assert_eq!(ids(&scene), vec![1, 2, 3, 5, 6, 4]);
    assert!(Scene::is_descendant_of_in(&scene.game_objects, a, b));
    assert!(!Scene::is_descendant_of_in(&scene.game_objects, b, a));
}

#[test]
fn subtree_ids_lists_descendants() {
    let mut scene = Scene::new();
    let a = scene.create_game_object("A", [0, 0, 0]);
    let b = scene.create_game_object("B", [0, 0, 0]);
    let c = scene.create_game_object("C", [0, 0, 0]);
    scene.reparent_game_object(b, Some(a));
    scene.reparent_game_object(c, Some(b));
    let mut sub = scene.subtree_ids(a);
    sub.sort_by_key(|id| id.0);
    assert_eq!(sub, vec![a, b, c]);
    assert!(scene.subtree_ids(GameObjectId(77)).is_empty());
}

#[test]
fn remove_takes_the_subtree_and_restores_singletons() {
    let mut scene = Scene::new();
    let a = scene.create_game_object("A", [0, 0, 0]);
    let b = scene.create_game_object("B", [0, 0, 0]);
    let keep = scene.create_game_object("Keep", [0, 0, 0]);
    scene.reparent_game_object(b, Some(a));
    assert!(scene.remove_game_object(a));
    assert!(scene.find_game_object(a).is_none());
    assert!(scene.find_game_object(b).is_none());
    assert!(scene.find_game_object(keep).is_some());
    assert!(!scene.remove_game_object(a));
    // removing the sun brings a new one
    assert!(scene.remove_game_object(GameObjectId(2)));
    assert!(scene.sun_component_index().is_some());
    let sun = scene.game_objects.last().unwrap();
    assert_eq!(sun.name, "Sun");
    assert_eq!(sun.builtin, Some(BuiltinGameObjectKind::Sun));
    assert!(sun.id.0 >= 7);
}

#[test]
fn stored_scene_is_normalized() {
    let mut dup = GameObject::<TestData>::new(GameObjectId(5), "Dup", [0, 0, 0]);
    dup.parent = Some(GameObjectId(5));
    let zero = GameObject::<TestData>::new(GameObjectId(0), "Zero", [0, 0, 0]);
    let mut orphan = GameObject::<TestData>::new(GameObjectId(5), "Orphan", [0, 0, 0]);
    orphan.parent = Some(GameObjectId(40));
    orphan.name = "bad  name!".to_string();
    let scene = Scene::from_stored(3, vec![dup, zero, orphan], 7, None, Vec::new());
    let loaded = &scene.game_objects[..3];
    assert_eq!(loaded.iter().map(|o| o.id.0).collect::<Vec<_>>(), vec![5, 6, 7]);
    assert_eq!(loaded[0].parent, None);
    assert_eq!(loaded[2].parent, None);
    assert_eq!(loaded[2].name, "bad name");
    assert_eq!(scene.render_settings, 7);
    let all = ids(&scene);
    for (i, x) in all.iter().enumerate() {
        assert!(*x < scene.next_game_object_id);
        assert!(!all[i + 1..].contains(x));
    }
}

#[test]
fn legacy_elements_become_mesh_objects() {
    let elements = vec![
        LegacySceneElement::<TestData> {
            source: MeshSource::File("meshes/car/scene.gltf".to_string()),
            transform: [1, 0, 0],
        },
        LegacySceneElement::<TestData> {
            source: MeshSource::File("meshes/tree.obj".to_string()),
            transform: [2, 0, 0],
        },
    ];
    let scene = Scene::from_stored(1, Vec::new(), 0, Some("sky.exr".to_string()), elements);
    assert_eq!(scene.game_objects[0].name, "car");
    assert_eq!(scene.game_objects[1].name, "tree");
    assert_eq!(scene.game_objects[1].transform, [2, 0, 0]);
    assert_eq!(scene.ibl, Some("sky.exr".to_string()));
    assert_eq!(scene.game_objects.len(), 5);
}

#[test]
fn unique_names_get_a_number() {
    let mut scene = Scene::new();
    assert_eq!(scene.unique_game_object_name("Box".to_string()), "Box");
    scene.create_game_object("Box", [0, 0, 0]);
    assert_eq!(scene.unique_game_object_name("Box".to_string()), "Box 1");
    scene.create_game_object("Box 1", [0, 0, 0]);
    assert_eq!(scene.unique_game_object_name("Box".to_string()), "Box 2");
    assert!(scene.has_object_named("Sun"));
}

#[test]
fn world_transform_chain_walks_up() {
    let mut scene = Scene::new();
    let a = scene.create_game_object("A", [1, 0, 0]);
    let b = scene.create_game_object("B", [0, 2, 0]);
    let c = scene.create_game_object("C", [0, 0, 3]);
    scene.reparent_game_object(b, Some(a));
    scene.reparent_game_object(c, Some(b));
    assert_eq!(scene.world_transform_chain(c), vec![[0, 0, 3], [0, 2, 0], [1, 0, 0]]);
    assert!(scene.world_transform_chain(GameObjectId(99)).is_empty());
    // a loop in stored data ends where an object comes round again
    scene.find_game_object_mut(a).unwrap().parent = Some(c);
    assert_eq!(
        scene.world_transform_chain(c),
        vec![[0, 0, 3], [0, 2, 0], [1, 0, 0], [0, 0, 3]]
    );
}

#[test]
fn singleton_accessors_reach_their_components() {
    let mut scene = Scene::new();
    assert_eq!(scene.with_primary_camera(|t, cam| (*t, cam.primary)), Some(([0, 1, 5], true)));
    scene.with_sun_mut(|t, sun| {
        t[0] = 10;
        sun.params = 30;
    });
    assert_eq!(scene.with_sun(|t, sun| (t[0], sun.params)), Some((10, 30)));
    assert_eq!(scene.with_local_lights(|_, l| l.count), Some(0));
    let mut other = Scene::new();
    other.with_primary_camera_mut(|t, _| t[2] = 99);
    scene.copy_editor_singletons_from(&other);
    assert_eq!(scene.with_primary_camera(|t, _| t[2]), Some(99));
}

#[test]
fn first_component_index_follows_order() {
    let mut scene = Scene::new();
    let cam = scene.create_camera_object("Cam 2", [0, 0, 0], CameraComponent::default_camera());
    assert_eq!(scene.first_component_index(|c| c.as_camera().is_some()), Some((0, 0)));
    assert_eq!(scene.find_game_object_index(cam), Some(3));
    assert_eq!(scene.first_component_index(|c| c.as_mesh_renderer().is_some()), None);
}

#[test]
fn hierarchy_labels() {
    let mut scene = Scene::new();
    let a = scene.create_game_object("Lamp", [0, 0, 0]);
    let o = scene.find_game_object(a).unwrap();
    assert_eq!(hierarchy_label(o, 0, false), "- Lamp");
    assert_eq!(hierarchy_icon(o), "\u{25A1}");
    assert!(!game_object_has_scene_role_component(o));
    scene.add_component(a, SceneComponent::Sun(SunComponent::default_sun()));
    scene.add_component(
        a,
        SceneComponent::MeshRenderer(MeshRendererComponent::new(MeshSource::File("x.obj".to_string()))),
    );
    scene.find_game_object_mut(a).unwrap().enabled = false;
    let o = scene.find_game_object(a).unwrap();
    assert_eq!(game_object_component_summary(o), "Sun, Mesh Renderer");
    assert_eq!(hierarchy_label(o, 2, true), "        > [off] Lamp [Sun, Mesh Renderer]");
    assert_eq!(hierarchy_icon(o), "\u{2600}");
    assert!(game_object_has_scene_role_component(o));
}

#[test]
fn runtime_scene_bindings() {
    let mut rs: RuntimeScene<u32, u64> = RuntimeScene::default();
    let a = GameObjectId(4);
    assert_eq!(rs.instance_for(a, 0), None);
    rs.bind_instance(a, 0, 100);
    rs.bind_instance(a, 1, 101);
    rs.bind_instance(GameObjectId(5), 0, 200);
    rs.bind_instance(a, 0, 111);
    assert_eq!(rs.instance_for(a, 0), Some(111));
    assert_eq!(rs.instance_for(a, 1), Some(101));
    let stale = rs.retain_bindings(&[(a, 1), (GameObjectId(9), 0)]);
    assert_eq!(stale, vec![111, 200]);
    assert_eq!(rs.instance_for(a, 1), Some(101));
    assert_eq!(rs.instance_for(a, 0), None);
    assert_eq!(rs.remember_mesh("m.mesh".to_string(), 7), 7);
    assert_eq!(rs.remember_mesh("m.mesh".to_string(), 8), 7);
    assert_eq!(rs.mesh_for("m.mesh"), Some(7));
    assert_eq!(rs.clear(), vec![101]);
    assert_eq!(rs.instance_for(a, 1), None);
    assert_eq!(rs.mesh_for("m.mesh"), Some(7));
}

#[test]
fn desired_bindings_are_enabled_mesh_renderers() {
    let mut scene = Scene::new();
    let a = scene.create_mesh_object("A", MeshSource::File("a.obj".to_string()), [0, 0, 0]);
    let b = scene.create_mesh_object("B", MeshSource::File("b.obj".to_string()), [0, 0, 0]);
    let mut off = MeshRendererComponent::new(MeshSource::File("c.obj".to_string()));
    off.enabled = false;
    scene.add_component(a, SceneComponent::MeshRenderer(off));
    scene.add_component(
        a,
        SceneComponent::MeshRenderer(MeshRendererComponent::new(MeshSource::File("d.obj".to_string()))),
    );
    scene.find_game_object_mut(b).unwrap().enabled = false;
    assert_eq!(desired_bindings(&scene), vec![(a, 0), (a, 2)]);
}

#[test]
fn reparent_and_back_restores_parents() {
    let mut scene = Scene::new();
    let a = scene.create_game_object("A", [0, 0, 0]);
    let b = scene.create_game_object("B", [0, 0, 0]);
    let c = scene.create_game_object("C", [0, 0, 0]);
    scene.reparent_game_object(c, Some(a));
    let before: Vec<(u64, Option<u64>)> =
        scene.game_objects.iter().map(|o| (o.id.0, o.parent.map(|p| p.0))).collect();
    assert!(scene.reparent_game_object(c, Some(b)));
    assert!(scene.reparent_game_object(c, Some(a)));
    let mut after: Vec<(u64, Option<u64>)> =
        scene.game_objects.iter().map(|o| (o.id.0, o.parent.map(|p| p.0))).collect();
    let mut sorted_before = before.clone();
    sorted_before.sort();
    after.sort();
    assert_eq!(after, sorted_before);
}

#[test]
fn stale_builtin_mark_gives_way_to_fresh_singletons() {
    let mut old = GameObject::<TestData>::new(GameObjectId(1), "Old", [0, 0, 0]);
    old.builtin = Some(BuiltinGameObjectKind::Sun);
    let mut scene = Scene {
        next_game_object_id: 2,
        game_objects: vec![old],
        render_settings: 0,
        ibl: None,
    };
    scene.ensure_editor_singletons();
    assert_eq!(ids(&scene), vec![1, 2, 3, 4]);
    let names: Vec<&str> = scene.game_objects.iter().map(|o| o.name.as_str()).collect();
    assert_eq!(names, vec!["Old", "Main Camera", "Sun", "Local Lights"]);
    let marks: Vec<Option<BuiltinGameObjectKind>> =
        scene.game_objects.iter().map(|o| o.builtin).collect();
    assert_eq!(
        marks,
        vec![
            None,
            Some(BuiltinGameObjectKind::MainCamera),
            Some(BuiltinGameObjectKind::Sun),
            Some(BuiltinGameObjectKind::LocalLights),
        ]
    );
    assert_eq!(scene.next_game_object_id, 5);
    for o in &scene.game_objects[1..] {
        assert_eq!(o.components.len(), 1);
        assert_eq!(o.parent, None);
    }
    // a second pass finds everything in place and changes nothing
    let before: Vec<(u64, String, Option<BuiltinGameObjectKind>, usize)> = scene
        .game_objects
        .iter()
        .map(|o| (o.id.0, o.name.clone(), o.builtin, o.components.len()))
        .collect();
    scene.ensure_editor_singletons();
    let after: Vec<(u64, String, Option<BuiltinGameObjectKind>, usize)> = scene
        .game_objects
        .iter()
        .map(|o| (o.id.0, o.name.clone(), o.builtin, o.components.len()))
        .collect();
    assert_eq!(after, before);
    assert_eq!(scene.next_game_object_id, 5);
}

#[test]
fn default_scene_components_are_the_role_defaults() {
    let scene = Scene::default();
    assert_eq!(ids(&scene), vec![1, 2, 3]);
    assert_eq!(scene.next_game_object_id, 4);
    assert_eq!(scene.ibl, None);
    let kinds: Vec<&str> = scene
        .game_objects
        .iter()
        .map(|o| {
            assert_eq!(o.components.len(), 1);
            assert_eq!(o.parent, None);
            assert!(o.enabled);
            o.components[0].kind_name()
        })
        .collect();
    assert_eq!(kinds, vec!["Camera", "Sun", "Local Lights"]);
}

#[test]
fn reparent_under_a_later_object_moves_the_subtree_behind_it() {
    let mut scene = Scene::default();
    let a = scene.create_game_object("A", [0, 0, 0]);
    let b = scene.create_game_object("B", [0, 0, 0]);
    let c = scene.create_game_object("C", [0, 0, 0]);
    assert_eq!((a, b, c), (GameObjectId(4), GameObjectId(5), GameObjectId(6)));
    assert!(scene.reparent_game_object(b, Some(a)));
    assert!(scene.reparent_game_object(a, Some(c)));
    assert_eq!(ids(&scene), vec![1, 2, 3, 6, 4, 5]);
    assert_eq!(scene.find_game_object(a).unwrap().parent, Some(c));
    assert_eq!(scene.find_game_object(b).unwrap().parent, Some(a));
    assert_eq!(scene.find_game_object(c).unwrap().parent, None);
}

#[test]
fn reparent_candidates_leave_out_the_object_and_its_subtree() {
    let mut scene = Scene::default();
    let a = scene.create_game_object("A", [0, 0, 0]);
    let b = scene.create_game_object("B", [0, 0, 0]);
    let c = scene.create_game_object("C", [0, 0, 0]);
    assert!(scene.reparent_game_object(b, Some(a)));
    let ids_of = |v: Vec<(GameObjectId, String)>| v.iter().map(|(id, _)| id.0).collect::<Vec<u64>>();
    // neither a itself nor its child b; builtins and c are fine
    assert_eq!(ids_of(scene.reparent_candidates(a)), vec![1, 2, 3, 6]);
    // b is already under a, so a is no candidate
    let for_b = scene.reparent_candidates(b);
    assert_eq!(ids_of(for_b.clone()), vec![1, 2, 3, 6]);
    assert_eq!(for_b[3].1, "C");
    // builtins stay at the top level
    assert!(scene.reparent_candidates(GameObjectId(1)).is_empty());
    assert!(scene.reparent_candidates(GameObjectId(99)).is_empty());
    assert_eq!(for_b[3].0, c);
}

#[test]
fn parent_labels_name_the_parent() {
    let mut scene = Scene::default();
    let a = scene.create_game_object("A", [0, 0, 0]);
    let b = scene.create_game_object("B", [0, 0, 0]);
    assert!(scene.reparent_game_object(b, Some(a)));
    assert_eq!(scene.parent_label(b), "A (4)");
    assert_eq!(scene.parent_label(a), "<root>");
    assert_eq!(scene.parent_label(GameObjectId(77)), "<root>");
    scene.find_game_object_mut(b).unwrap().parent = Some(GameObjectId(40));
    assert_eq!(scene.parent_label(b), "40");
}

#[test]
fn rebinding_a_component_keeps_one_instance_for_it() {
    let mut rs: RuntimeScene<u32, u64> = RuntimeScene::new();
    let a = GameObjectId(4);
    rs.bind_instance(a, 0, 1);
    rs.bind_instance(a, 1, 2);
    rs.bind_instance(a, 0, 3);
    rs.bind_instance(a, 0, 4);
    assert_eq!(rs.clear(), vec![4, 2]);
    assert_eq!(rs.remember_mesh("x".to_string(), 5), 5);
    assert_eq!(rs.remember_mesh("x".to_string(), 6), 5);
    assert_eq!(rs.remember_mesh("y".to_string(), 7), 7);
    assert_eq!(rs.mesh_for("x"), Some(5));
    assert_eq!(rs.mesh_for("y"), Some(7));
}

#[test]
fn normalizing_keeps_the_first_carrier_of_each_id() {
    let objs = vec![
        GameObject::<TestData>::new(GameObjectId(5), "A", [0, 0, 0]),
        GameObject::<TestData>::new(GameObjectId(0), "B", [0, 0, 0]),
        GameObject::<TestData>::new(GameObjectId(5), "C", [0, 0, 0]),
        GameObject::<TestData>::new(GameObjectId(3), "D", [0, 0, 0]),
    ];
    let scene = Scene::from_stored(6, objs, 0, None, Vec::new());
    assert_eq!(&ids(&scene)[..4], &[5, 6, 7, 3]);
    // the editor singletons follow with the next ids
    assert_eq!(&ids(&scene)[4..], &[8, 9, 10]);
    assert_eq!(scene.next_game_object_id, 11);
}

#[test]
fn object_names_from_stem_and_directory() {
    assert_eq!(mesh_object_name_from_parts(Some("Sphere"), Some("models")), "Sphere");
    assert_eq!(mesh_object_name_from_parts(Some("SCENE"), Some("cornell_box")), "cornell box");
    assert_eq!(mesh_object_name_from_parts(Some("scene"), None), "scene");
    assert_eq!(mesh_object_name_from_parts(None, Some("x")), "GameObject");
    assert_eq!(mesh_object_name_from_parts(Some(""), None), "GameObject");
    assert_eq!(mesh_object_name_from_parts(Some("###"), None), "Imported Mesh");
}

#[test]
fn removing_components_spares_the_singletons_own() {
    let mut scene = Scene::default();
    let a = scene.create_game_object("A", [0, 0, 0]);
    let mesh = MeshRendererComponent::new(MeshSource::File("a.obj".to_string()));
    assert!(scene.add_component(a, SceneComponent::MeshRenderer(mesh)));
    assert!(scene.add_component(GameObjectId(2), SceneComponent::Camera(CameraComponent::default_camera())));
    // the sun's own component is protected, the extra camera on it is not
    assert!(!scene.remove_component_at(GameObjectId(2), 0));
    assert!(!scene.remove_component_at(GameObjectId(1), 0));
    assert!(!scene.remove_component_at(a, 5));
    assert!(!scene.remove_component_at(GameObjectId(99), 0));
    assert!(scene.remove_component_at(GameObjectId(2), 1));
    assert_eq!(scene.find_game_object(GameObjectId(2)).unwrap().components.len(), 1);
    assert!(scene.remove_component_at(a, 0));
    assert!(scene.find_game_object(a).unwrap().components.is_empty());
    assert_eq!(ids(&scene), vec![1, 2, 3, 4]);
    assert_eq!(scene.next_game_object_id, 5);
}

#[test]
fn singletons_start_from_the_given_defaults() {
    let d = SceneDefaults::<TestData> {
        camera: 7,
        sun: 8,
        local_lights: 9,
        camera_transform: [1, 1, 1],
        light_transform: [2, 2, 2],
        render_settings: 5,
    };
    let scene = Scene::with_defaults(d);
    assert_eq!(ids(&scene), vec![1, 2, 3]);
    assert_eq!(scene.render_settings, 5);
    let transforms: Vec<[i32; 3]> = scene.game_objects.iter().map(|o| o.transform).collect();
    assert_eq!(transforms, vec![[1, 1, 1], [2, 2, 2], [2, 2, 2]]);
    match &scene.game_objects[0].components[0] {
        SceneComponent::Camera(c) => assert_eq!(c.params, 7),
        _ => panic!("the main camera holds a camera"),
    }
    match &scene.game_objects[1].components[0] {
        SceneComponent::Sun(c) => assert_eq!(c.params, 8),
        _ => panic!("the sun holds a sun"),
    }
    match &scene.game_objects[2].components[0] {
        SceneComponent::LocalLights(c) => assert_eq!((c.params, c.count), (9, 0)),
        _ => panic!("the local lights hold local lights"),
    }
    // the plain constructor takes the defaults of the scene data
    let plain = Scene::new();
    assert_eq!(plain.game_objects[0].transform, [0, 1, 5]);
    match &plain.game_objects[1].components[0] {
        SceneComponent::Sun(c) => assert_eq!(c.params, 3),
        _ => panic!("the sun holds a sun"),
    }
}

#[test]
fn missing_singletons_are_made_from_the_given_defaults() {
    let mut scene = Scene {
        next_game_object_id: 1,
        game_objects: Vec::new(),
        render_settings: 0,
        ibl: None,
    };
    let d = SceneDefaults::<TestData> {
        camera: 1,
        sun: 2,
        local_lights: 3,
        camera_transform: [4, 4, 4],
        light_transform: [5, 5, 5],
        render_settings: 6,
    };
    scene.ensure_editor_singletons_with(&d);
    assert_eq!(scene.game_objects[0].transform, [4, 4, 4]);
    assert_eq!(scene.game_objects[2].transform, [5, 5, 5]);
    // render settings of an existing scene stay
    assert_eq!(scene.render_settings, 0);
}

#[test]
fn legacy_elements_take_ids_from_the_stored_counter() {
    let elements = vec![
        LegacySceneElement::<TestData> { source: MeshSource::File("a.obj".to_string()), transform: [0, 0, 0] },
        LegacySceneElement::<TestData> { source: MeshSource::File("b.obj".to_string()), transform: [0, 0, 0] },
    ];
    let scene = Scene::from_stored(10, Vec::new(), 0, None, elements);
    assert_eq!(ids(&scene), vec![10, 11, 12, 13, 14]);
    assert_eq!(scene.next_game_object_id, 15);
}

#[test]
fn mutable_accessors_hand_back_the_result() {
    let mut scene = Scene::new();
    assert_eq!(scene.with_local_lights_mut(|t, l| { l.count = 4; t[1] = 8; 7 }), Some(7));
    assert_eq!(scene.with_local_lights(|t, l| (t[1], l.count)), Some((8, 4)));
    assert_eq!(scene.with_primary_camera_mut(|_, c| { c.primary = false; 1 }), Some(1));
}

#[test]
fn hierarchy_lists_children_in_scene_order() {
    let mut scene = Scene::default();
    let a = scene.create_game_object("A", [0, 0, 0]);
    let b = scene.create_game_object("B", [0, 0, 0]);
    let c = scene.create_game_object("C", [0, 0, 0]);
    assert!(scene.reparent_game_object(c, Some(a)));
    assert!(scene.reparent_game_object(b, Some(a)));
    let roots: Vec<u64> = hierarchy_children(&scene, None).iter().map(|id| id.0).collect();
    assert_eq!(roots, vec![1, 2, 3, 4]);
    assert_eq!(hierarchy_children(&scene, Some(a)), vec![c, b]);
    assert!(hierarchy_children(&scene, Some(b)).is_empty());
}

#[test]
fn reparenting_only_reorders_and_sets_one_parent() {
    let mut scene = Scene::default();
    let a = scene.create_game_object("A", [0, 0, 0]);
    let b = scene.create_game_object("B", [0, 0, 0]);
    let c = scene.create_game_object("C", [0, 0, 0]);
    assert!(scene.reparent_game_object(b, Some(a)));
    let snapshot = |s: &Scene| {
        let mut v: Vec<(u64, String, Option<u64>)> =
            s.game_objects.iter().map(|o| (o.id.0, o.name.clone(), o.parent.map(|p| p.0))).collect();
        v.sort();
        v
    };
    let mut expected = snapshot(&scene);
    for e in expected.iter_mut() {
        if e.0 == a.0 {
            e.2 = Some(c.0);
        }
    }
    assert!(scene.reparent_game_object(a, Some(c)));
    assert_eq!(snapshot(&scene), expected);
    assert_eq!(ids(&scene), vec![1, 2, 3, 6, 4, 5]);
}
