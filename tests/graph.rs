use wgpu_mc::frame::{
    entity_draws, push_constants_error, section_bounds, set_push_constants, terrain_draws,
    DepthUse, DrawKind, EntityBatchInfo, LayerRange, PushConstantValue, SectionEntry,
};
use wgpu_mc::graph::{
    blend_preset, pack_error, pipeline_error, push_constant_size, vertex_layout_for, BindGroupDef, BlendPreset,
    ConfigErrorKind, LayoutSource, PipelineConfig, RenderGraph, ResourceConfig, ShaderPackConfig,
    VertexLayout, WmBindGroup,
};
use wgpu_mc::resources::{
    BindGroupEntry, BindingResource, BindingType, BufferBindingType, ResourceBacking, ShaderStages,
};

fn pipeline(geometry: &str, depth: Option<&str>, clear: bool) -> PipelineConfig {
    let named = if geometry == "@geo_entities" { "@bg_entity" } else { "@bg_ssbo_chunks" };
    PipelineConfig {
        geometry: geometry.to_string(),
        bind_groups: vec![
            (0, BindGroupDef::Entries(vec![(0, "@texture_block_atlas".to_string()), (1, "@sampler".to_string())])),
            (1, BindGroupDef::Resource(named.to_string())),
        ],
        push_constants: vec![(0, "@pc_section_position".to_string())],
        output: vec!["@framebuffer_texture".to_string()],
        blending: "alpha_blending".to_string(),
        depth: depth.map(|d| d.to_string()),
        clear,
    }
}

fn pack() -> ShaderPackConfig {
    ShaderPackConfig {
        pipelines: vec![
            ("sky".to_string(), pipeline("@geo_sky_fog", None, true)),
            ("terrain".to_string(), pipeline("@geo_terrain", Some("@texture_depth"), false)),
            ("entity".to_string(), pipeline("@geo_entities", Some("shadow"), false)),
        ],
        resources: vec![
            ("shadow".to_string(), ResourceConfig::Texture2d { src: "pack:shadow.png".to_string() }),
            ("fog_start".to_string(), ResourceConfig::Value),
        ],
    }
}

fn given() -> Vec<(String, ResourceBacking)> {
    vec![
        ("ssbo".to_string(), ResourceBacking::Buffer(41, BufferBindingType::Storage { read_only: true })),
        ("many".to_string(), ResourceBacking::BufferArray(vec![1, 2])),
    ]
}

fn compile(config: ShaderPackConfig) -> RenderGraph {
    match RenderGraph::new(config, &vec![40], given(), 7, 8, &Vec::new(), &Vec::new()) {
        Ok(g) => g,
        Err(e) => panic!("{:?} {}", e.kind, e.name),
    }
}

fn names(g: &RenderGraph) -> Vec<String> {
    g.pipelines.keys().cloned().collect()
}

fn ids(g: &RenderGraph) -> Vec<String> {
    g.resources.iter().map(|r| r.0.clone()).collect()
}

fn error_of(config: ShaderPackConfig) -> (ConfigErrorKind, String) {
    match RenderGraph::new(config, &vec![40], given(), 7, 8, &vec!["custom_bg".to_string()], &vec!["@geo_custom".to_string()]) {
        Ok(_) => panic!("compiled"),
        Err(e) => (e.kind, e.name),
    }
}

#[test]
fn compiles_pipelines_in_order() {
    let g = compile(pack());
    assert_eq!(names(&g), vec!["sky", "terrain", "entity"]);
    assert_eq!(ids(&g), vec!["@texture_block_atlas", "@sampler", "shadow", "ssbo", "many"]);
    let terrain = g.pipelines.get("terrain").unwrap();
    assert_eq!(terrain.config_index, 1);
    assert_eq!(terrain.vertex_layout, VertexLayout::Terrain);
    assert_eq!(terrain.blend, BlendPreset::AlphaBlending);
    assert!(terrain.depth);
    assert_eq!(terrain.color_targets, 1);
    assert_eq!(terrain.push_constant_ranges.len(), 1);
    assert_eq!(terrain.push_constant_ranges[0].stages, ShaderStages::Vertex);
    assert_eq!((terrain.push_constant_ranges[0].start, terrain.push_constant_ranges[0].end), (0, 12));
    match &terrain.bind_groups[0] {
        (0, WmBindGroup::Custom(es)) => assert_eq!(
            es,
            &vec![
                BindGroupEntry { binding: 0, resource: BindingResource::TextureView(7) },
                BindGroupEntry { binding: 1, resource: BindingResource::Sampler(8) },
            ]
        ),
        _ => panic!("expected entries"),
    }
    match &terrain.bind_groups[1] {
        (1, WmBindGroup::Resource(n)) => assert_eq!(n, "@bg_ssbo_chunks"),
        _ => panic!("expected a named group"),
    }
    match &terrain.layouts[0] {
        LayoutSource::Entries(es) => {
            assert_eq!(es[0].ty, BindingType::Texture2D);
            assert_eq!(es[0].visibility, ShaderStages::Fragment);
            assert_eq!(es[1].ty, BindingType::Sampler);
        },
        _ => panic!("expected entries"),
    }
    assert_eq!(g.pipelines.get("sky").unwrap().vertex_layout, VertexLayout::Sky);
}

#[test]
fn recompiling_keeps_names_and_ids() {
    let first = compile(pack());
    let second = compile(pack());
    assert_eq!(names(&first), names(&second));
    assert_eq!(ids(&first), ids(&second));
}

#[test]
fn duplicate_name_moves_to_the_back() {
    let mut p = pack();
    p.pipelines.push(("sky".to_string(), pipeline("@geo_quad", None, false)));
    let g = compile(p);
    assert_eq!(names(&g), vec!["terrain", "entity", "sky"]);
    assert_eq!(g.pipelines.get("sky").unwrap().config_index, 3);
}

#[test]
fn texture_sources_lists_textures() {
    let srcs = pack().texture_sources();
    assert_eq!(srcs, vec![("shadow".to_string(), "pack:shadow.png".to_string())]);
}

#[test]
fn configuration_errors_name_the_culprit() {
    let mut p = pack();
    p.pipelines[0].1.bind_groups.push((2, BindGroupDef::Entries(vec![(0, "missing".to_string())])));
    assert_eq!(error_of(p), (ConfigErrorKind::UnknownResource, "missing".to_string()));

    let mut p = pack();
    p.pipelines[0].1.bind_groups.push((2, BindGroupDef::Entries(vec![(0, "many".to_string())])));
    assert_eq!(error_of(p), (ConfigErrorKind::UnbindableResource, "many".to_string()));

    let mut p = pack();
    p.pipelines[1].1.bind_groups.push((2, BindGroupDef::Resource("nope".to_string())));
    assert_eq!(error_of(p), (ConfigErrorKind::UnknownBindGroup, "nope".to_string()));

    let mut p = pack();
    p.pipelines[1].1.push_constants.push((4, "@pc_unknown".to_string()));
    assert_eq!(error_of(p), (ConfigErrorKind::UnknownPushConstant, "@pc_unknown".to_string()));

    let mut p = pack();
    p.pipelines[1].1.push_constants.push((u32::MAX - 10, "@pc_mat4_model".to_string()));
    assert_eq!(error_of(p), (ConfigErrorKind::PushConstantOutOfRange, "@pc_mat4_model".to_string()));

    let mut p = pack();
    p.pipelines[2].1.geometry = "@geo_unknown".to_string();
    assert_eq!(error_of(p), (ConfigErrorKind::UnknownGeometry, "@geo_unknown".to_string()));

    let mut p = pack();
    p.pipelines[2].1.blending = "additive".to_string();
    assert_eq!(error_of(p), (ConfigErrorKind::UnknownBlend, "additive".to_string()));
}

#[test]
fn custom_names_resolve() {
    let mut p = pack();
    p.pipelines[0].1.bind_groups.push((2, BindGroupDef::Resource("custom_bg".to_string())));
    p.pipelines[0].1.geometry = "@geo_custom".to_string();
    let g = RenderGraph::new(p, &vec![40], given(), 7, 8, &vec!["custom_bg".to_string()], &vec!["x".to_string(), "@geo_custom".to_string()])
        .ok()
        .unwrap();
    let sky = g.pipelines.get("sky").unwrap();
    assert_eq!(sky.vertex_layout, VertexLayout::Custom(1));
    assert!(matches!(sky.layouts[2], LayoutSource::Custom(0)));
}

#[test]
fn name_tables() {
    assert_eq!(push_constant_size(&"@pc_mat4_model".to_string()), Some((ShaderStages::Vertex, 64)));
    assert_eq!(push_constant_size(&"@pc_electrum_color".to_string()), Some((ShaderStages::Fragment, 16)));
    assert_eq!(push_constant_size(&"@pc_total_sections".to_string()), Some((ShaderStages::Vertex, 4)));
    assert_eq!(push_constant_size(&"nope".to_string()), None);
    assert_eq!(blend_preset(&"replace".to_string()), Some(BlendPreset::Replace));
    assert_eq!(blend_preset(&"color_add_alpha_blending".to_string()), Some(BlendPreset::ColorAddAlphaBlending));
    assert_eq!(blend_preset(&"premultiplied_alpha_blending".to_string()), Some(BlendPreset::PremultipliedAlphaBlending));
    assert_eq!(vertex_layout_for(&"@geo_entities".to_string(), &vec![]), Some(VertexLayout::Entities));
    assert_eq!(vertex_layout_for(&"@geo_sun_moon".to_string(), &vec![]), Some(VertexLayout::SunMoon));
    assert_eq!(vertex_layout_for(&"@geo_sky_stars".to_string(), &vec![]), Some(VertexLayout::Sky));
    assert_eq!(vertex_layout_for(&"other".to_string(), &vec![]), None);
}

#[test]
fn backing_descriptions() {
    let b = ResourceBacking::Buffer(3, BufferBindingType::Uniform);
    let l = b.get_bind_group_layout_entry(5);
    assert_eq!(l.binding, 5);
    assert_eq!(l.visibility, ShaderStages::All);
    assert_eq!(l.ty, BindingType::Buffer(BufferBindingType::Uniform));
    assert!(b.is_bindable());
    assert_eq!(b.get_bind_group_entries(5), vec![BindGroupEntry { binding: 5, resource: BindingResource::Buffer(3) }]);
    assert_eq!(
        ResourceBacking::Sampler(4).get_bind_group_entries(1),
        vec![BindGroupEntry { binding: 1, resource: BindingResource::Sampler(4) }]
    );
    let a = ResourceBacking::BufferArray(vec![1, 2, 3]);
    assert_eq!(a.get_bind_group_layout_entry(2).ty, BindingType::Buffer(BufferBindingType::Storage { read_only: true }));
    assert!(!a.is_bindable());
}

#[test]
fn only_first_depth_pass_clears() {
    let g = compile(pack());
    let plans = g.plan_frame(&vec!["@geo_sky_fog".to_string()]);
    assert_eq!(plans.len(), 3);
    assert_eq!(plans[0].depth, DepthUse::NoDepth);
    assert!(plans[0].clear_color);
    assert_eq!(plans[0].draw, DrawKind::Provider(0));
    assert_eq!(plans[1].depth, DepthUse::Scene { clear: true });
    assert_eq!(plans[1].draw, DrawKind::Terrain);
    assert!(!plans[1].clear_color);
    assert_eq!(plans[2].depth, DepthUse::Texture { handle: 40, clear: false });
    assert_eq!(plans[2].draw, DrawKind::Entities);
}

#[test]
fn render_time_errors() {
    // Geometry without a provider fails when the frame is planned.
    let g = compile(pack());
    assert!(g.is_well_formed());
    assert!(g.frame_error(&vec!["@geo_sky_fog".to_string()]).is_none());
    let err = g.try_plan_frame(&Vec::new()).err().unwrap();
    assert_eq!((err.kind, err.name), (ConfigErrorKind::UnknownGeometry, "@geo_sky_fog".to_string()));
    let mut p = pack();
    p.pipelines[0].1.geometry = "@geo_late".to_string();
    let g = RenderGraph::new(p, &vec![40], given(), 7, 8, &vec![], &vec!["@geo_late".to_string()]).ok().unwrap();
    let err = g.try_plan_frame(&vec![]).err().unwrap();
    assert_eq!((err.kind, err.name), (ConfigErrorKind::UnknownGeometry, "@geo_late".to_string()));
    let plans = g.try_plan_frame(&vec!["@geo_late".to_string()]).ok().unwrap();
    assert_eq!(plans[0].draw, DrawKind::Provider(0));

    let mut p = pack();
    p.pipelines[1].1.output = vec!["@framebuffer_texture".to_string(), "bloom".to_string()];
    let err = compile(p).frame_error(&vec!["@geo_sky_fog".to_string()]).unwrap();
    assert_eq!((err.kind, err.name), (ConfigErrorKind::UnknownOutput, "bloom".to_string()));

    let mut p = pack();
    p.pipelines[2].1.depth = Some("ssbo".to_string());
    let err = compile(p).try_plan_frame(&vec!["@geo_sky_fog".to_string()]).err().unwrap();
    assert_eq!((err.kind, err.name), (ConfigErrorKind::UnknownDepthTarget, "ssbo".to_string()));

    // A terrain pass binds only the chunk storage by name.
    let mut p = pack();
    p.pipelines[1].1.bind_groups.push((2, BindGroupDef::Resource("@bg_entity".to_string())));
    let err = compile(p).try_plan_frame(&vec!["@geo_sky_fog".to_string()]).err().unwrap();
    assert_eq!((err.kind, err.name), (ConfigErrorKind::UnknownBindGroup, "@bg_entity".to_string()));

    let mut g = compile(pack());
    g.pipelines.get_mut("sky").unwrap().config_index = 9;
    assert!(!g.is_well_formed());
}

#[test]
fn terrain_draws_follow_visibility() {
    let sections = vec![
        SectionEntry { pos: [3, 1, -2], solid: Some(LayerRange { index_start: 0, index_end: 6, vertex_start: 9 }) },
        SectionEntry { pos: [4, 1, -2], solid: None },
        SectionEntry { pos: [5, 0, 0], solid: Some(LayerRange { index_start: 6, index_end: 12, vertex_start: 10 }) },
        SectionEntry { pos: [6, 0, 0], solid: Some(LayerRange { index_start: 12, index_end: 18, vertex_start: 11 }) },
    ];
    let draws = terrain_draws(&sections, [2, -1], &vec![true, true, false, true]);
    assert_eq!(draws.len(), 2);
    assert_eq!(draws[0].section, 0);
    assert_eq!((draws[0].bounds.rel_x, draws[0].bounds.rel_y, draws[0].bounds.rel_z), (1, 1, -1));
    assert_eq!((draws[0].index_start, draws[0].index_end, draws[0].instance), (0, 6, 9));
    assert_eq!(draws[1].section, 3);
    let b = section_bounds([3, 1, -2], [2, -1]);
    assert_eq!((b.min_x, b.min_y, b.min_z), (16, 16, -16));
    assert_eq!((b.max_x, b.max_y, b.max_z), (32, 32, 0));
}

#[test]
fn push_constant_writes_use_declared_offsets() {
    let mut p = pipeline("@geo_terrain", None, false);
    p.push_constants = vec![(0, "@pc_section_position".to_string()), (16, "@pc_total_sections".to_string())];
    let values = vec![
        PushConstantValue { name: "@pc_total_sections".to_string(), stages: ShaderStages::Vertex, data: vec![1, 0, 0, 0] },
        PushConstantValue { name: "@pc_section_position".to_string(), stages: ShaderStages::Vertex, data: vec![0; 12] },
    ];
    assert!(push_constants_error(&p, &values).is_none());
    let ws = set_push_constants(&p, &values);
    assert_eq!(ws.len(), 2);
    assert_eq!((ws[0].offset, ws[0].value), (0, 1));
    assert_eq!((ws[1].offset, ws[1].value), (16, 0));
    let only_total = vec![PushConstantValue {
        name: "@pc_total_sections".to_string(),
        stages: ShaderStages::Vertex,
        data: vec![1, 0, 0, 0],
    }];
    let err = push_constants_error(&p, &only_total).unwrap();
    assert_eq!((err.kind, err.name), (ConfigErrorKind::UnknownPushConstant, "@pc_section_position".to_string()));
}

#[test]
fn declared_textures_become_registry_entries() {
    let mut config = pack();
    config.resources.push(("noise".to_string(), ResourceConfig::Texture2d { src: "pack:noise.png".to_string() }));
    config.resources.push(("bloom".to_string(), ResourceConfig::Other));
    let entries = config.texture_entries(&vec![40, 52]);
    assert_eq!(entries.len(), 2);
    assert_eq!(entries[0].0, "shadow");
    assert!(matches!(entries[0].1, ResourceBacking::Texture2D(40)));
    assert_eq!(entries[1].0, "noise");
    assert!(matches!(entries[1].1, ResourceBacking::Texture2D(52)));
    let g = RenderGraph::new(config, &vec![40, 52], given(), 7, 8, &Vec::new(), &Vec::new()).ok().unwrap();
    assert_eq!(ids(&g), vec!["@texture_block_atlas", "@sampler", "shadow", "noise", "ssbo", "many"]);
}

#[test]
fn checks_name_the_first_unresolved_name() {
    let registry = vec![("@sampler".to_string(), ResourceBacking::Sampler(1))];
    let mut p = pipeline("@geo_terrain", None, false);
    let e = pipeline_error(0, &p, &registry, &vec![], &vec![]).unwrap();
    assert_eq!((e.kind, e.name), (ConfigErrorKind::UnknownResource, "@texture_block_atlas".to_string()));
    p.bind_groups.clear();
    assert!(pipeline_error(0, &p, &registry, &vec![], &vec![]).is_none());
    let mut config = pack();
    config.pipelines[2].1.blending = "additive".to_string();
    let e = pack_error(&config, &registry, &vec![], &vec![]).unwrap();
    assert_eq!((e.kind, e.name), (ConfigErrorKind::UnknownResource, "@texture_block_atlas".to_string()));
}

#[test]
fn entity_pass_draws_each_batch() {
    let draws = entity_draws(&vec![
        EntityBatchInfo { parts: 6, vertex_count: 120, capacity: 32 },
        EntityBatchInfo { parts: 1, vertex_count: 24, capacity: 4 },
    ]);
    assert_eq!(draws.len(), 2);
    assert_eq!((draws[0].batch, draws[0].parts_per_entity, draws[0].vertex_count, draws[0].instance_count), (0, 6, 120, 32));
    assert_eq!((draws[1].batch, draws[1].parts_per_entity, draws[1].vertex_count, draws[1].instance_count), (1, 1, 24, 4));
}
