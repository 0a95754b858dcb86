use glia::render::device::{
    select_physical_device, select_queue_family, DeviceInfo, DeviceKind, DevicePreferences,
    LibraryPreferences, RendererPreferences, SelectionError,
};
use glia::render::font::{texts_as_draw_tasks, FontAtlas};
use glia::render::frame::{
    check_pipeline, is_stale_for_window, latest_scene, swapchain_image_count, swapchain_step,
    Dimensions, ImageSearch, Lap, PipelineCheck, PipelineKey, RenderLoop, RenderNeed, RenderScene,
    RenderTimer, SwapchainStep,
};
use glia::render::layout::{break_lines, generation_label, generation_width, world_texts};
use glia::render::light::{
    count_words, wireframe_words, DirectionalLight, Light, LightCollection, PointLight,
};
use glia::render::memory::{
    descriptor_pool, descriptor_set_count, general_bindings, texture_bindings, vertex_attributes,
    BufferRole, DescriptorKind, VERTEX_STRIDE,
};
use glia::render::model::{is_loadable_texture, DrawTask, MeshInfo, ModelRoom};

fn device(name: &str, kind: DeviceKind, supports_swapchain: bool) -> DeviceInfo {
    DeviceInfo { name: name.to_string(), kind, supports_swapchain }
}

fn prefs(name: Option<&str>, kind: Option<DeviceKind>) -> DevicePreferences {
    DevicePreferences {
        preferred_physical_device: name.map(|n| n.to_string()),
        preferred_physical_device_type: kind,
    }
}

#[test]
fn devices_are_scored() {
    let none = DevicePreferences::default();
    assert_eq!(none.score_physical_device(&device("a", DeviceKind::Other, true)), 0);
    assert_eq!(none.score_physical_device(&device("a", DeviceKind::Cpu, true)), 1);
    assert_eq!(none.score_physical_device(&device("a", DeviceKind::VirtualGpu, true)), 2);
    assert_eq!(none.score_physical_device(&device("a", DeviceKind::IntegratedGpu, true)), 3);
    assert_eq!(none.score_physical_device(&device("a", DeviceKind::DiscreteGpu, true)), 4);
    let p = prefs(Some("b"), Some(DeviceKind::Cpu));
    assert_eq!(p.score_physical_device(&device("a", DeviceKind::Cpu, true)), 7);
    assert_eq!(p.score_physical_device(&device("b", DeviceKind::Other, true)), 12);
    assert_eq!(p.score_physical_device(&device("b", DeviceKind::Cpu, true)), 19);
}

#[test]
fn the_best_device_is_selected() {
    let devices = vec![
        device("a", DeviceKind::IntegratedGpu, true),
        device("b", DeviceKind::DiscreteGpu, true),
        device("c", DeviceKind::DiscreteGpu, true),
        device("d", DeviceKind::DiscreteGpu, false),
        device("e", DeviceKind::Cpu, true),
    ];
    assert_eq!(select_physical_device(&devices, &DevicePreferences::default()), Ok(2));
    assert_eq!(select_physical_device(&devices, &prefs(Some("e"), None)), Ok(4));
    assert_eq!(select_physical_device(&devices, &prefs(Some("d"), None)), Ok(2));
    assert_eq!(select_physical_device(&devices, &prefs(None, Some(DeviceKind::IntegratedGpu))), Ok(0));
    let unfit = vec![device("a", DeviceKind::DiscreteGpu, false)];
    assert_eq!(
        select_physical_device(&unfit, &DevicePreferences::default()),
        Err(SelectionError::NoPhysicalDevice)
    );
}

#[test]
fn the_first_drawing_queue_is_selected() {
    assert_eq!(select_queue_family(&vec![false, true, true]).ok().unwrap().family_idx, 1);
    assert_eq!(
        select_queue_family(&vec![false, false]).err(),
        Some(SelectionError::PhysicalDeviceMissingGraphicsCapabilities)
    );
}

#[test]
fn preferences_are_split() {
    let p = RendererPreferences {
        application_name: Some("app".to_string()),
        application_version: Some((1, 2, 3)),
        ..RendererPreferences::default()
    };
    let (library, device) = p.split();
    assert_eq!(library.application_name.as_deref(), Some("app"));
    assert_eq!(library.application_version, Some((1, 2, 3)));
    assert!(device.preferred_physical_device.is_none());
    assert!(LibraryPreferences::default().application_name.is_none());
}

#[test]
fn glyphs_and_characters_match() {
    let atlas = FontAtlas::new();
    assert_eq!(atlas.texture, "resources/font_atlas.png");
    assert_eq!(atlas.idx_for_char('A'), 0);
    assert_eq!(atlas.idx_for_char('Z'), 25);
    assert_eq!(atlas.idx_for_char('a'), 26);
    assert_eq!(atlas.idx_for_char('z'), 51);
    assert_eq!(atlas.idx_for_char('0'), 52);
    assert_eq!(atlas.idx_for_char('9'), 61);
    assert_eq!(atlas.idx_for_char(' '), 62);
    assert_eq!(atlas.idx_for_char('ß'), 62);
    for i in 0..63 {
        assert_eq!(atlas.idx_for_char(atlas.char_for_idx(i)), i);
    }
    assert_eq!(atlas.char_for_idx(62), ' ');
    assert_eq!(atlas.char_for_idx(900), ' ');
    assert_eq!(atlas.cell_for_char('V'), (1, 0));
    assert_eq!(atlas.cell_for_char('9'), (2, 19));
}

#[test]
fn a_glyph_keeps_its_mesh() {
    let mut atlas = FontAtlas::new();
    assert_eq!(atlas.mesh_by_ord(5, 100), 100);
    assert_eq!(atlas.mesh_by_ord(5, 200), 100);
    assert_eq!(atlas.mesh_by_ord(6, 200), 200);
    assert_eq!(atlas.letters_cache[5], Some(100));
    assert_eq!(atlas.letters_cache[7], None);
}

#[test]
fn texts_are_drawn_glyph_by_glyph() {
    let atlas = FontAtlas::new();
    let draws = texts_as_draw_tasks(&atlas, &vec!["Ab A".to_string(), "bb".to_string()]);
    let seen: Vec<(u32, Vec<(usize, usize)>)> =
        draws.iter().map(|d| (d.glyph, d.placements.clone())).collect();
    assert_eq!(
        seen,
        vec![
            (0, vec![(0, 0), (0, 3)]),
            (27, vec![(0, 1), (1, 0), (1, 1)]),
            (62, vec![(0, 2)]),
        ]
    );
    assert!(texts_as_draw_tasks(&atlas, &vec![]).is_empty());
}

#[test]
fn a_generation_is_labelled() {
    assert_eq!(generation_label(0), "Gen 0");
    assert_eq!(generation_label(1_204), "Gen 1204");
    assert_eq!(generation_label(u64::MAX), format!("Gen {}", u64::MAX));
    assert_eq!(generation_width(0), 2);
    assert_eq!(generation_width(9), 3);
    assert_eq!(generation_width(1_204), 6);
    assert_eq!(generation_width(u64::MAX), 22);
}

#[test]
fn a_message_is_broken_into_lines() {
    assert_eq!(break_lines("abcdefg", 3), vec!["abc", "def", "g"]);
    assert_eq!(break_lines("abcdef", 3), vec!["abc", "def"]);
    assert!(break_lines("", 3).is_empty());
    assert_eq!(break_lines("äöü", 2), vec!["äö", "ü"]);
}

#[test]
fn a_long_message_is_small() {
    let short = world_texts(3, Some("1234567890123456789012345"));
    assert_eq!(short.label, "Gen 3");
    assert_eq!(short.label_width, 3);
    assert!(!short.small);
    assert_eq!(short.lines, vec!["12345678901234567890", "12345"]);
    let exact = "x".repeat(40);
    assert!(!world_texts(3, Some(&exact)).small);
    let long = world_texts(3, Some(&"x".repeat(41)));
    assert!(long.small);
    assert_eq!(long.lines, vec!["x".repeat(40), "x".to_string()]);
    // Bytes count, not characters.
    assert!(world_texts(3, Some(&"ä".repeat(21))).small);
    assert!(world_texts(3, None).lines.is_empty());
}

#[test]
fn lights_are_laid_out_for_the_shaders() {
    let point = Light::Point(PointLight { color: [1, 2, 3], position: [4, 5, 6] });
    let sun = Light::Directional(DirectionalLight { color: [7, 8, 9], direction: [10, 11, 12] });
    assert_eq!(point.to_words(), vec![1, 2, 3, 1f32.to_bits(), 4, 5, 6, 0]);
    assert_eq!(sun.to_words(), vec![7, 8, 9, 2f32.to_bits(), 10, 11, 12, 0]);
    let both = LightCollection(vec![point, sun]);
    let bytes = both.to_bytes();
    assert_eq!(bytes.len(), 64);
    assert_eq!(bytes[..4], 1u32.to_ne_bytes());
    assert_eq!(bytes[12..16], 1f32.to_ne_bytes());
    assert_eq!(bytes[44..48], 2f32.to_ne_bytes());
    assert_eq!(bytes[56..60], 12u32.to_ne_bytes());
    assert_eq!(bytes[60..], [0, 0, 0, 0]);
    assert!(LightCollection(vec![]).to_bytes().is_empty());
    assert_eq!(count_words(5), vec![0, 5, 0, 0]);
    assert_eq!(wireframe_words(true), vec![1, 0, 0, 0]);
    assert_eq!(wireframe_words(false), vec![0, 0, 0, 0]);
}

#[test]
fn buffers_have_their_plans() {
    assert_eq!(BufferRole::Vertex.plan().bytes, 60 * 1024 * 1024);
    assert!(BufferRole::Vertex.plan().usage.vertex);
    assert!(BufferRole::Face.plan().usage.index);
    assert_eq!(BufferRole::Count.plan().bytes, 16);
    assert_eq!(BufferRole::PerMesh.plan().bytes, 65_536);
    assert_eq!(BufferRole::Light.plan().bytes, 98_304);
    assert_eq!(BufferRole::Material.plan().bytes, 16_384);
    assert_eq!(BufferRole::Wireframe.plan().bytes, 16);
    assert_eq!(BufferRole::CamMatrix.plan().bytes, 64);
    assert_eq!(BufferRole::Configuration.plan().bytes, 52_428_800);
    let staging = BufferRole::TextureStaging.plan();
    assert_eq!(staging.bytes, 52_428_800);
    assert!(staging.usage.uniform_texel && staging.usage.transfer_src && !staging.usage.uniform);
    assert!(BufferRole::Light.plan().usage.uniform);
    assert_eq!(BufferRole::Count.binding(), Some(0));
    assert_eq!(BufferRole::CamMatrix.binding(), Some(5));
    assert_eq!(BufferRole::Face.binding(), None);
}

#[test]
fn descriptors_have_their_plans() {
    let general = general_bindings();
    assert_eq!(general.len(), 6);
    assert!(general.iter().enumerate().all(|(i, b)| b.place == i as u32
        && b.kind == DescriptorKind::UniformBuffer
        && b.vertex_stage));
    let texture = texture_bindings();
    assert_eq!(texture[0].kind, DescriptorKind::SampledImage);
    assert_eq!(texture[1].kind, DescriptorKind::Sampler);
    assert!(!texture[1].vertex_stage);
    assert_eq!(descriptor_pool().max_sets, 11);
    assert_eq!(descriptor_pool().uniform_buffers, 3);
    assert_eq!(descriptor_pool().samplers, 10);
    assert_eq!(descriptor_set_count(general.len(), texture.len()), 26);
}

#[test]
fn the_newest_window_is_rendered_to() {
    let mut r = RenderLoop::new();
    assert_eq!(r.need(), RenderNeed::Window);
    assert!(!r.on_window(None));
    assert!(r.on_window(Some(3)));
    assert_eq!(r.need(), RenderNeed::Renderer);
    r.on_renderer();
    assert_eq!(r.need(), RenderNeed::Scene);
    assert!(!r.on_window(Some(3)));
    assert!(!r.on_window(Some(2)));
    assert_eq!(r.need(), RenderNeed::Scene);
    assert!(r.on_window(Some(4)));
    assert_eq!(r.need(), RenderNeed::Renderer);
}

#[test]
fn the_latest_scene_is_drawn() {
    assert_eq!(latest_scene(RenderScene::Sim, &vec![]), RenderScene::Sim);
    assert_eq!(
        latest_scene(RenderScene::Sim, &vec![RenderScene::Menu, RenderScene::MainMenu]),
        RenderScene::MainMenu
    );
}

#[test]
fn swapchains_are_made_when_needed() {
    let small = Dimensions { width: 10, height: 20 };
    let large = Dimensions { width: 100, height: 20 };
    assert_eq!(swapchain_step(None, small), SwapchainStep::Generate);
    assert_eq!(swapchain_step(Some(small), small), SwapchainStep::Regenerate);
    assert_eq!(swapchain_step(Some(small), large), SwapchainStep::Keep);
    assert!(is_stale_for_window(small, small));
    assert!(!is_stale_for_window(small, large));
    assert_eq!(swapchain_image_count(2), 3);
}

#[test]
fn an_image_is_searched_for_three_times_more() {
    let mut s = ImageSearch::begin();
    assert!(s.on_image(true));
    assert!(s.on_image(true));
    assert!(s.on_image(true));
    assert!(!s.on_image(true));
    assert_eq!(s.times_recreated, 3);
    assert!(!ImageSearch::begin().on_image(false));
}

#[test]
fn a_pipeline_serves_what_it_was_made_for() {
    let key = PipelineKey { width: 1, height: 2, depth: 1, color_attachment_count: 1, window_id: 9 };
    assert_eq!(check_pipeline(None, key), PipelineCheck::NoCache);
    assert_eq!(check_pipeline(Some(key), key), PipelineCheck::Hit);
    assert_eq!(check_pipeline(Some(PipelineKey { height: 3, ..key }), key), PipelineCheck::Extent);
    assert_eq!(
        check_pipeline(Some(PipelineKey { color_attachment_count: 2, window_id: 1, ..key }), key),
        PipelineCheck::AttachmentCount
    );
    assert_eq!(check_pipeline(Some(PipelineKey { window_id: 1, ..key }), key), PipelineCheck::WindowId);
}

#[test]
fn laps_are_timed() {
    let mut lap = Lap::new();
    lap.end_lap(5);
    assert_eq!(lap.duration, None);
    lap.begin_lap(5);
    lap.end_lap(9);
    assert_eq!(lap.duration, Some(4));
    let mut t = RenderTimer::begin();
    t.record_load_end(3);
    assert!(t.loads.is_empty());
    t.record_load_start(3);
    t.record_load_end(10);
    t.record_load_end(11);
    assert_eq!(t.loads, vec![7, 8]);
}

fn task(mesh_id: u64, vertices: u32, indices: u32, instances: u32, tex: Option<&str>) -> DrawTask {
    DrawTask {
        mesh: MeshInfo {
            mesh_id,
            vertex_count: vertices,
            index_count: indices,
            vertex_bytes: 32 * vertices as u64,
            index_bytes: 4 * indices as u64,
            tex_file: tex.map(|t| t.to_string()),
        },
        instances,
    }
}

#[test]
fn models_are_loaded_once_and_drawn_in_turn() {
    let mut room = ModelRoom::new();
    let draws = vec![task(7, 4, 6, 2, None), task(8, 3, 3, 5, Some("a.png")), task(7, 4, 6, 1, None)];
    assert!(room.has_room(&draws));
    let loads = room.load(&draws);
    assert_eq!(loads.len(), 2);
    assert_eq!((loads[0].task, loads[0].vertex_byte_start, loads[0].index_byte_start), (0, 0, 0));
    assert_eq!((loads[1].task, loads[1].vertex_byte_start, loads[1].index_byte_start), (1, 128, 24));
    assert!(loads[1].textured && !loads[0].textured);
    let calls = room.draw_calls(&draws);
    let seen: Vec<(u32, u32, u32, i32, u32, bool)> = calls
        .iter()
        .map(|c| (c.index_count, c.instance_count, c.first_index, c.vertex_offset, c.first_instance, c.textured))
        .collect();
    assert_eq!(seen, vec![(6, 2, 0, 0, 0, false), (3, 5, 6, 4, 2, true), (6, 1, 0, 0, 7, false)]);
    assert!(room.load(&draws).is_empty());
    room.invalidate_model_memory();
    assert!(room.find(7).is_none());
    let again = room.load(&draws);
    assert_eq!(again[0].vertex_byte_start, 32 * 7);
    assert_eq!(room.draw_calls(&draws)[0].vertex_offset, 7);
}

#[test]
fn models_that_cannot_be_counted_have_no_room() {
    let room = ModelRoom::new();
    assert!(room.has_room(&vec![task(1, i32::MAX as u32, 1, 1, None)]));
    assert!(!room.has_room(&vec![task(1, i32::MAX as u32, 1, 1, None), task(2, 1, 1, 1, None)]));
    assert!(!room.has_room(&vec![task(1, 1, u32::MAX, 1, None), task(2, 1, 1, 1, None)]));
}

#[test]
fn only_png_textures_are_loaded() {
    assert!(is_loadable_texture("resources/font_atlas.png"));
    assert!(is_loadable_texture(".png"));
    assert!(!is_loadable_texture("png"));
    assert!(!is_loadable_texture("a.jpg"));
    assert!(!is_loadable_texture("a.png "));
}

#[test]
fn a_vertex_is_made_of_its_parts() {
    let parts: Vec<(u32, u32, u32)> =
        vertex_attributes().iter().map(|p| (p.location, p.numbers, p.offset)).collect();
    assert_eq!(parts, vec![(0, 3, 0), (1, 3, 12), (2, 2, 24)]);
    assert_eq!(VERTEX_STRIDE, 32);
}
