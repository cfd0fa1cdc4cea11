//! The frame scheduler: what each render pass of a frame does, which terrain
//! sections it draws, and which push constants it sets.

use vstd::prelude::*;

use crate::graph::{
    find_name, name_position, pipeline_table, pipelines_view, BoundPipeline, BoundView,
    ConfigErrorKind, ConfigErrorView, ConfigurationError, PipelineConfig, PipelineConfigView,
    RenderGraph, WmBindGroup, WmBindGroupView, err_view, groups_view, indices_in, is_text, pipeline_entries,
};
use crate::resources::{
    find_resource, lookup_resource, table_view, BackingView, ResourceBacking, ShaderStages,
};

verus! {

/// Depth attachment of a pass.
#[derive(Clone, Copy, Debug, PartialEq, Eq, Structural)]
pub enum DepthUse {
    NoDepth,
    /// The scene's depth texture.
    Scene { clear: bool },
    /// A 2-D texture of the registry.
    Texture { handle: u32, clear: bool },
}

/// What a pass draws.
#[derive(Clone, Copy, Debug, PartialEq, Eq, Structural)]
pub enum DrawKind {
    Terrain,
    Entities,
    /// Position in the caller's list of geometry providers.
    Provider(usize),
}

/// One render pass of a frame.
#[derive(Clone, Copy, Debug, PartialEq, Eq, Structural)]
pub struct PassPlan {
    /// Position of the pipeline in the graph's order.
    pub pipeline: usize,
    pub config_index: usize,
    pub color_targets: usize,
    pub clear_color: bool,
    pub depth: DepthUse,
    pub draw: DrawKind,
}

/// The first output that is not the frame buffer.
pub open spec fn unknown_output(outs: Seq<Seq<char>>) -> Option<Seq<char>> {
    if exists|i: int| 0 <= i < outs.len() && outs[i] != "@framebuffer_texture"@ {
        let i = choose|i: int|
            0 <= i < outs.len() && outs[i] != "@framebuffer_texture"@ && forall|j: int|
                0 <= j < i ==> outs[j] == "@framebuffer_texture"@;
        Some(outs[i])
    } else {
        None
    }
}

pub open spec fn depth_use(
    depth: Option<Seq<char>>,
    clear: bool,
    res: Seq<(Seq<char>, BackingView)>,
) -> Result<DepthUse, ConfigErrorView> {
    match depth {
        None => Ok(DepthUse::NoDepth),
        Some(n) => if n == "@texture_depth"@ {
            Ok(DepthUse::Scene { clear })
        } else {
            match find_resource(res, n) {
                Some(BackingView::Texture2D(h)) => Ok(DepthUse::Texture { handle: h, clear }),
                _ => Err(err_view(ConfigErrorKind::UnknownDepthTarget, n)),
            }
        },
    }
}

pub open spec fn draw_kind(geo: Seq<char>, providers: Seq<Seq<char>>) -> Option<DrawKind> {
    if geo == "@geo_terrain"@ {
        Some(DrawKind::Terrain)
    } else if geo == "@geo_entities"@ {
        Some(DrawKind::Entities)
    } else {
        match name_position(providers, geo) {
            Some(i) => Some(DrawKind::Provider(i)),
            None => None,
        }
    }
}

/// The first named bind group other than `allowed`.
pub open spec fn unknown_group(gs: Seq<(u32, WmBindGroupView)>, allowed: Seq<char>) -> Option<Seq<char>> {
    if exists|i: int| 0 <= i < gs.len() && gs[i].1 is Resource && gs[i].1->Resource_0 != allowed {
        let i = choose|i: int|
            0 <= i < gs.len() && gs[i].1 is Resource && gs[i].1->Resource_0 != allowed && forall|j: int|
                0 <= j < i ==> !(gs[j].1 is Resource && gs[j].1->Resource_0 != allowed);
        Some(gs[i].1->Resource_0)
    } else {
        None
    }
}

/// The first named bind group that a built-in draw kind cannot bind: terrain
/// binds only the chunk storage, entities only the entity group.
pub open spec fn unbound_group(k: DrawKind, gs: Seq<(u32, WmBindGroupView)>) -> Option<Seq<char>> {
    match k {
        DrawKind::Terrain => unknown_group(gs, "@bg_ssbo_chunks"@),
        DrawKind::Entities => unknown_group(gs, "@bg_entity"@),
        DrawKind::Provider(_) => None,
    }
}

/// The pass of the pipeline at position `i`; `clear_depth` says whether it is
/// the first pass with a depth attachment.
#[verifier::opaque]
pub open spec fn plan_pass(
    i: usize,
    b: BoundView,
    pc: PipelineConfigView,
    clear_depth: bool,
    res: Seq<(Seq<char>, BackingView)>,
    providers: Seq<Seq<char>>,
) -> Result<PassPlan, ConfigErrorView> {
    match unknown_output(pc.output) {
        Some(n) => Err(err_view(ConfigErrorKind::UnknownOutput, n)),
        None => match depth_use(pc.depth, clear_depth, res) {
            Err(e) => Err(e),
            Ok(d) => match draw_kind(pc.geometry, providers) {
                None => Err(err_view(ConfigErrorKind::UnknownGeometry, pc.geometry)),
                Some(k) => match unbound_group(k, b.bind_groups) {
                    Some(n) => Err(err_view(ConfigErrorKind::UnknownBindGroup, n)),
                    None => Ok(
                        PassPlan {
                            pipeline: i,
                            config_index: b.config_index,
                            color_targets: pc.output.len() as usize,
                            clear_color: pc.clear,
                            depth: d,
                            draw: k,
                        },
                    ),
                },
            },
        },
    }
}

/// No pipeline among `es` has a depth attachment.
pub open spec fn no_depth_yet(
    es: Seq<(Seq<char>, BoundView)>,
    configs: Seq<(Seq<char>, PipelineConfigView)>,
) -> bool {
    forall|j: int| 0 <= j < es.len() ==> configs[es[j].1.config_index as int].1.depth is None
}

/// The passes of a frame, one per pipeline in the graph's order, or the first
/// error. Only the first pass with a depth attachment clears depth.
pub open spec fn plan_passes(
    es: Seq<(Seq<char>, BoundView)>,
    configs: Seq<(Seq<char>, PipelineConfigView)>,
    res: Seq<(Seq<char>, BackingView)>,
    providers: Seq<Seq<char>>,
) -> Result<Seq<PassPlan>, ConfigErrorView>
    decreases es.len(),
{
    if es.len() == 0 {
        Ok(Seq::empty())
    } else {
        match plan_passes(es.drop_last(), configs, res, providers) {
            Err(e) => Err(e),
            Ok(ps) => match plan_pass(
                (es.len() - 1) as usize,
                es.last().1,
                configs[es.last().1.config_index as int].1,
                no_depth_yet(es.drop_last(), configs),
                res,
                providers,
            ) {
                Err(e) => Err(e),
                Ok(p) => Ok(ps.push(p)),
            },
        }
    }
}

fn config_error(kind: ConfigErrorKind, name: &String) -> (r: ConfigurationError)
    ensures
        r@ == err_view(kind, name@),
{
    ConfigurationError { kind, name: name.clone() }
}

fn check_outputs(outs: &Vec<String>) -> (r: Option<&String>)
    ensures
        match r {
            Some(n) => unknown_output(outs@.map_values(|s: String| s@)) == Some(n@),
            None => unknown_output(outs@.map_values(|s: String| s@)) is None,
        },
{
    let ghost ov = outs@.map_values(|s: String| s@);
    let mut i: usize = 0;
    while i < outs.len()
        invariant
            i <= outs.len(),
            ov == outs@.map_values(|s: String| s@),
            forall|j: int| 0 <= j < i ==> ov[j] == "@framebuffer_texture"@,
        decreases outs.len() - i,
    {
        if !is_text(&outs[i], "@framebuffer_texture") {
            let ghost w = choose|k: int|
                0 <= k < ov.len() && ov[k] != "@framebuffer_texture"@ && forall|j: int|
                    0 <= j < k ==> ov[j] == "@framebuffer_texture"@;
            assert(ov[i as int] != "@framebuffer_texture"@);
            assert(w == i as int) by {
                if w > i {
                    assert(ov[i as int] == "@framebuffer_texture"@);
                }
            }
            return Some(&outs[i]);
        }
        i = i + 1;
    }
    None
}

fn depth_attachment(
    depth: &Option<String>,
    clear: bool,
    res: &Vec<(String, ResourceBacking)>,
) -> (r: Result<DepthUse, ConfigurationError>)
    ensures
        match r {
            Ok(d) => depth_use(
                match depth {
                    Some(s) => Some(s@),
                    None => None,
                },
                clear,
                table_view(res@),
            ) == Ok::<DepthUse, ConfigErrorView>(d),
            Err(e) => depth_use(
                match depth {
                    Some(s) => Some(s@),
                    None => None,
                },
                clear,
                table_view(res@),
            ) == Err::<DepthUse, ConfigErrorView>(e@),
        },
{
    match depth {
        None => Ok(DepthUse::NoDepth),
        Some(n) => {
            if is_text(n, "@texture_depth") {
                Ok(DepthUse::Scene { clear })
            } else {
                match lookup_resource(res, n) {
                    Some(ResourceBacking::Texture2D(h)) => Ok(DepthUse::Texture { handle: *h, clear }),
                    _ => Err(config_error(ConfigErrorKind::UnknownDepthTarget, n)),
                }
            }
        },
    }
}

fn draw_kind_of(geo: &String, providers: &Vec<String>) -> (r: Option<DrawKind>)
    ensures
        r == draw_kind(geo@, providers@.map_values(|s: String| s@)),
{
    if is_text(geo, "@geo_terrain") {
        Some(DrawKind::Terrain)
    } else if is_text(geo, "@geo_entities") {
        Some(DrawKind::Entities)
    } else {
        match find_name(providers, geo) {
            Some(i) => Some(DrawKind::Provider(i)),
            None => None,
        }
    }
}

fn unknown_group_of<'a>(groups: &'a Vec<(u32, WmBindGroup)>, allowed: &str) -> (r: Option<&'a String>)
    ensures
        match r {
            Some(n) => unknown_group(groups_view(groups@), allowed@) == Some(n@),
            None => unknown_group(groups_view(groups@), allowed@) is None,
        },
{
    let ghost gv = groups_view(groups@);
    let mut i: usize = 0;
    while i < groups.len()
        invariant
            i <= groups.len(),
            gv == groups_view(groups@),
            forall|j: int| 0 <= j < i ==> !(gv[j].1 is Resource && gv[j].1->Resource_0 != allowed@),
        decreases groups.len() - i,
    {
        assert(gv[i as int] == (groups@[i as int].0, groups@[i as int].1@));
        match &groups[i].1 {
            WmBindGroup::Resource(n) => {
                if !is_text(n, allowed) {
                    let ghost w = choose|k: int|
                        0 <= k < gv.len() && gv[k].1 is Resource && gv[k].1->Resource_0 != allowed@
                            && forall|j: int|
                            0 <= j < k ==> !(gv[j].1 is Resource && gv[j].1->Resource_0 != allowed@);
                    assert(w == i as int) by {
                        if w > i {
                            assert(!(gv[i as int].1 is Resource && gv[i as int].1->Resource_0
                                != allowed@));
                        }
                    }
                    return Some(n);
                }
            },
            WmBindGroup::Custom(_) => {},
        }
        i = i + 1;
    }
    None
}

fn unbound_group_of<'a>(k: DrawKind, groups: &'a Vec<(u32, WmBindGroup)>) -> (r: Option<&'a String>)
    ensures
        match r {
            Some(n) => unbound_group(k, groups_view(groups@)) == Some(n@),
            None => unbound_group(k, groups_view(groups@)) is None,
        },
{
    match k {
        DrawKind::Terrain => unknown_group_of(groups, "@bg_ssbo_chunks"),
        DrawKind::Entities => unknown_group_of(groups, "@bg_entity"),
        DrawKind::Provider(_) => None,
    }
}

fn pass_for(
    i: usize,
    b: &BoundPipeline,
    pc: &PipelineConfig,
    clear_depth: bool,
    res: &Vec<(String, ResourceBacking)>,
    providers: &Vec<String>,
) -> (r: Result<PassPlan, ConfigurationError>)
    ensures
        match r {
            Ok(p) => plan_pass(
                i,
                b@,
                pc@,
                clear_depth,
                table_view(res@),
                providers@.map_values(|s: String| s@),
            ) == Ok::<PassPlan, ConfigErrorView>(p),
            Err(e) => plan_pass(
                i,
                b@,
                pc@,
                clear_depth,
                table_view(res@),
                providers@.map_values(|s: String| s@),
            ) == Err::<PassPlan, ConfigErrorView>(e@),
        },
{
    reveal(plan_pass);
    match check_outputs(&pc.output) {
        Some(n) => {
            return Err(config_error(ConfigErrorKind::UnknownOutput, n));
        },
        None => {},
    }
    let depth = match depth_attachment(&pc.depth, clear_depth, res) {
        Err(e) => {
            return Err(e);
        },
        Ok(d) => d,
    };
    match draw_kind_of(&pc.geometry, providers) {
        None => Err(config_error(ConfigErrorKind::UnknownGeometry, &pc.geometry)),
        Some(k) => match unbound_group_of(k, &b.bind_groups) {
            Some(n) => Err(config_error(ConfigErrorKind::UnknownBindGroup, n)),
            None => Ok(
                PassPlan {
                    pipeline: i,
                    config_index: b.config_index,
                    color_targets: pc.output.len(),
                    clear_color: pc.clear,
                    depth,
                    draw: k,
                },
            ),
        },
    }
}

proof fn lemma_passes_error_stays(
    es: Seq<(Seq<char>, BoundView)>,
    configs: Seq<(Seq<char>, PipelineConfigView)>,
    res: Seq<(Seq<char>, BackingView)>,
    providers: Seq<Seq<char>>,
    k: int,
)
    requires
        0 <= k <= es.len(),
        plan_passes(es.take(k), configs, res, providers) is Err,
    ensures
        plan_passes(es, configs, res, providers) == plan_passes(es.take(k), configs, res, providers),
    decreases es.len() - k,
{
    if k < es.len() {
        assert(es.take(k + 1).drop_last() =~= es.take(k));
        lemma_passes_error_stays(es, configs, res, providers, k + 1);
    } else {
        assert(es.take(k) =~= es);
    }
}

proof fn lemma_no_depth_step(
    es: Seq<(Seq<char>, BoundView)>,
    configs: Seq<(Seq<char>, PipelineConfigView)>,
    i: int,
)
    requires
        0 <= i < es.len(),
    ensures
        no_depth_yet(es.take(i + 1), configs) == (no_depth_yet(es.take(i), configs)
            && configs[es[i].1.config_index as int].1.depth is None),
{
    let t = es.take(i + 1);
    if no_depth_yet(es.take(i), configs) && configs[es[i].1.config_index as int].1.depth is None {
        assert forall|j: int| 0 <= j < t.len() implies configs[t[j].1.config_index as int].1.depth is None by {
            if j < i {
                assert(t[j] == es.take(i)[j]);
            }
        }
    }
    if no_depth_yet(t, configs) {
        assert(t[i] == es[i]);
        assert forall|j: int| 0 <= j < i implies configs[es.take(i)[j].1.config_index as int].1.depth is None by {
            assert(t[j] == es.take(i)[j]);
        }
    }
}

impl RenderGraph {
    /// Every compiled pipeline points at a configuration of the shader pack.
    pub fn is_well_formed(&self) -> (r: bool)
        ensures
            r == self.well_formed(),
    {
        let entries = pipeline_entries(&self.pipelines);
        let ghost es = pipeline_table(self.pipelines);
        let mut i: usize = 0;
        while i < entries.len()
            invariant
                i <= entries.len(),
                entries@.len() == es.len(),
                forall|j: int| 0 <= j < es.len() ==> #[trigger] es[j] == (entries@[j].0@, entries@[j].1@),
                es == pipeline_table(self.pipelines),
                forall|j: int| 0 <= j < i ==> #[trigger] es[j].1.config_index < self.config.pipelines.len(),
            decreases entries.len() - i,
        {
            assert(es[i as int] == (entries@[i as int].0@, entries@[i as int].1@));
            if entries[i].1.config_index >= self.config.pipelines.len() {
                assert(es[i as int].1.config_index >= self.config.pipelines.len());
                assert(!indices_in(es, self.config.pipelines.len() as int));
                return false;
            }
            i = i + 1;
        }
        true
    }

    /// The first name that the frame's passes cannot resolve, if any: an
    /// output other than the frame buffer, an unknown depth target, a geometry
    /// kind with no provider, or a named bind group that the draw kind cannot
    /// bind.
    pub fn frame_error(&self, providers: &Vec<String>) -> (r: Option<ConfigurationError>)
        requires
            self.well_formed(),
        ensures
            match r {
                None => plan_passes(
                    pipeline_table(self.pipelines),
                    pipelines_view(self.config.pipelines@),
                    table_view(self.resources@),
                    providers@.map_values(|s: String| s@),
                ) is Ok,
                Some(e) => plan_passes(
                    pipeline_table(self.pipelines),
                    pipelines_view(self.config.pipelines@),
                    table_view(self.resources@),
                    providers@.map_values(|s: String| s@),
                ) == Err::<Seq<PassPlan>, ConfigErrorView>(e@),
            },
    {
        match self.plan_all(providers) {
            Ok(_) => None,
            Err(e) => Some(e),
        }
    }

    /// Plans the render passes of one frame, every name of which resolves (see
    /// [`RenderGraph::frame_error`]): one per pipeline in the graph's order. A
    /// pass clears color where its configuration asks to; only the first pass
    /// with a depth attachment clears depth, later ones load it.
    pub fn plan_frame(&self, providers: &Vec<String>) -> (r: Vec<PassPlan>)
        requires
            self.well_formed(),
            plan_passes(
                pipeline_table(self.pipelines),
                pipelines_view(self.config.pipelines@),
                table_view(self.resources@),
                providers@.map_values(|s: String| s@),
            ) is Ok,
        ensures
            plan_passes(
                pipeline_table(self.pipelines),
                pipelines_view(self.config.pipelines@),
                table_view(self.resources@),
                providers@.map_values(|s: String| s@),
            ) == Ok::<Seq<PassPlan>, ConfigErrorView>(r@),
    {
        self.plan_all(providers).unwrap()
    }

    /// The passes of one frame, or the first name that they cannot resolve.
    pub fn try_plan_frame(&self, providers: &Vec<String>) -> (r: Result<Vec<PassPlan>, ConfigurationError>)
        requires
            self.well_formed(),
        ensures
            match r {
                Ok(ps) => plan_passes(
                    pipeline_table(self.pipelines),
                    pipelines_view(self.config.pipelines@),
                    table_view(self.resources@),
                    providers@.map_values(|s: String| s@),
                ) == Ok::<Seq<PassPlan>, ConfigErrorView>(ps@),
                Err(e) => plan_passes(
                    pipeline_table(self.pipelines),
                    pipelines_view(self.config.pipelines@),
                    table_view(self.resources@),
                    providers@.map_values(|s: String| s@),
                ) == Err::<Seq<PassPlan>, ConfigErrorView>(e@),
            },
    {
        match self.frame_error(providers) {
            Some(e) => Err(e),
            None => Ok(self.plan_frame(providers)),
        }
    }

    fn plan_all(&self, providers: &Vec<String>) -> (r: Result<Vec<PassPlan>, ConfigurationError>)
        requires
            self.well_formed(),
        ensures
            match r {
                Ok(ps) => plan_passes(
                    pipeline_table(self.pipelines),
                    pipelines_view(self.config.pipelines@),
                    table_view(self.resources@),
                    providers@.map_values(|s: String| s@),
                ) == Ok::<Seq<PassPlan>, ConfigErrorView>(ps@),
                Err(e) => plan_passes(
                    pipeline_table(self.pipelines),
                    pipelines_view(self.config.pipelines@),
                    table_view(self.resources@),
                    providers@.map_values(|s: String| s@),
                ) == Err::<Seq<PassPlan>, ConfigErrorView>(e@),
            },
    {
        let entries = pipeline_entries(&self.pipelines);
        let ghost es = pipeline_table(self.pipelines);
        let ghost configs = pipelines_view(self.config.pipelines@);
        let ghost rv = table_view(self.resources@);
        let ghost pv = providers@.map_values(|s: String| s@);
        let mut plans: Vec<PassPlan> = Vec::new();
        let mut depth_seen = false;
        let mut i: usize = 0;
        assert(es.take(0) =~= Seq::<(Seq<char>, BoundView)>::empty());
        while i < entries.len()
            invariant
                i <= entries.len(),
                self.well_formed(),
                entries@.len() == es.len(),
                forall|j: int| 0 <= j < es.len() ==> #[trigger] es[j] == (entries@[j].0@, entries@[j].1@),
                es == pipeline_table(self.pipelines),
                configs == pipelines_view(self.config.pipelines@),
                rv == table_view(self.resources@),
                pv == providers@.map_values(|s: String| s@),
                depth_seen == !no_depth_yet(es.take(i as int), configs),
                plan_passes(es.take(i as int), configs, rv, pv) == Ok::<Seq<PassPlan>, ConfigErrorView>(
                    plans@,
                ),
            decreases entries.len() - i,
        {
            assert(es.take(i as int + 1).drop_last() =~= es.take(i as int));
            let b: &BoundPipeline = entries[i].1;
            assert(es[i as int] == (entries@[i as int].0@, b@));
            assert(es[i as int].1.config_index < self.config.pipelines.len());
            let pc = &self.config.pipelines[b.config_index].1;
            match pass_for(i, b, pc, !depth_seen, &self.resources, providers) {
                Err(e) => {
                    proof {
                        lemma_passes_error_stays(es, configs, rv, pv, i as int + 1);
                    }
                    return Err(e);
                },
                Ok(p) => {
                    plans.push(p);
                },
            }
            let has_depth = match &pc.depth {
                Some(_) => true,
                None => false,
            };
            proof {
                lemma_no_depth_step(es, configs, i as int);
            }
            depth_seen = depth_seen || has_depth;
            i = i + 1;
        }
        assert(es.take(entries.len() as int) =~= es);
        Ok(plans)
    }
}

/// Index and vertex ranges of one render layer of a section.
#[derive(Clone, Copy, Debug, PartialEq, Eq, Structural)]
pub struct LayerRange {
    pub index_start: u32,
    pub index_end: u32,
    pub vertex_start: u32,
}

/// A loaded chunk section: its position in section units and its solid layer.
pub struct SectionEntry {
    pub pos: [i32; 3],
    pub solid: Option<LayerRange>,
}

/// A section's position relative to the camera's section, and its box in
/// blocks.
#[derive(Clone, Copy, Debug, PartialEq, Eq, Structural)]
pub struct SectionBounds {
    pub rel_x: i64,
    pub rel_y: i64,
    pub rel_z: i64,
    pub min_x: i64,
    pub min_y: i64,
    pub min_z: i64,
    pub max_x: i64,
    pub max_y: i64,
    pub max_z: i64,
}

pub open spec fn bounds_of(pos: [i32; 3], camera: [i32; 2]) -> SectionBounds {
    let (x, y, z) = (pos[0] - camera[0], pos[1] as int, pos[2] - camera[1]);
    SectionBounds {
        rel_x: x as i64,
        rel_y: y as i64,
        rel_z: z as i64,
        min_x: (16 * x) as i64,
        min_y: (16 * y) as i64,
        min_z: (16 * z) as i64,
        max_x: (16 * x + 16) as i64,
        max_y: (16 * y + 16) as i64,
        max_z: (16 * z + 16) as i64,
    }
}

/// The box of a section relative to the camera's section, which is given as
/// (x, z); the frustum test runs on this box.
pub fn section_bounds(pos: [i32; 3], camera: [i32; 2]) -> (r: SectionBounds)
    ensures
        r == bounds_of(pos, camera),
{
    let x = pos[0] as i64 - camera[0] as i64;
    let y = pos[1] as i64;
    let z = pos[2] as i64 - camera[1] as i64;
    SectionBounds {
        rel_x: x,
        rel_y: y,
        rel_z: z,
        min_x: 16 * x,
        min_y: 16 * y,
        min_z: 16 * z,
        max_x: 16 * x + 16,
        max_y: 16 * y + 16,
        max_z: 16 * z + 16,
    }
}

/// One indexed draw of a section's solid layer. The instance range is the one
/// instance `instance`.
#[derive(Clone, Copy, Debug, PartialEq, Eq, Structural)]
pub struct TerrainDraw {
    pub section: usize,
    pub bounds: SectionBounds,
    pub index_start: u32,
    pub index_end: u32,
    pub instance: u32,
}

/// The draws of the terrain pass: one for each section that passed the
/// frustum test (`visible`, one flag per section) and has a solid layer, in
/// section order.
pub open spec fn terrain_plan(
    sections: Seq<SectionEntry>,
    camera: [i32; 2],
    visible: Seq<bool>,
) -> Seq<TerrainDraw>
    decreases sections.len(),
{
    if sections.len() == 0 {
        Seq::empty()
    } else {
        let i = sections.len() - 1;
        terrain_plan(sections.drop_last(), camera, visible) + if i < visible.len() && visible[i] {
            match sections[i].solid {
                Some(l) => seq![
                    TerrainDraw {
                        section: i as usize,
                        bounds: bounds_of(sections[i].pos, camera),
                        index_start: l.index_start,
                        index_end: l.index_end,
                        instance: l.vertex_start,
                    },
                ],
                None => Seq::empty(),
            }
        } else {
            Seq::empty()
        }
    }
}

pub fn terrain_draws(sections: &Vec<SectionEntry>, camera: [i32; 2], visible: &Vec<bool>) -> (r: Vec<
    TerrainDraw,
>)
    ensures
        r@ == terrain_plan(sections@, camera, visible@),
{
    let mut draws: Vec<TerrainDraw> = Vec::new();
    let mut i: usize = 0;
    while i < sections.len()
        invariant
            i <= sections.len(),
            draws@ == terrain_plan(sections@.take(i as int), camera, visible@),
        decreases sections.len() - i,
    {
        assert(sections@.take(i as int + 1).drop_last() =~= sections@.take(i as int));
        let ghost before = draws@;
        if i < visible.len() && visible[i] {
            match &sections[i].solid {
                Some(l) => {
                    draws.push(
                        TerrainDraw {
                            section: i,
                            bounds: section_bounds(sections[i].pos, camera),
                            index_start: l.index_start,
                            index_end: l.index_end,
                            instance: l.vertex_start,
                        },
                    );
                },
                None => {},
            }
        }
        assert(draws@ =~= terrain_plan(sections@.take(i as int + 1), camera, visible@));
        i = i + 1;
    }
    assert(sections@.take(sections.len() as int) =~= sections@);
    draws
}

/// A push constant value that a pass provides: bytes and the stages that see
/// them.
pub struct PushConstantValue {
    pub name: String,
    pub stages: ShaderStages,
    pub data: Vec<u8>,
}

/// Writes `values[value]` at `offset` for `stages`.
#[derive(Clone, Copy, Debug, PartialEq, Eq, Structural)]
pub struct PushConstantWrite {
    pub stages: ShaderStages,
    pub offset: u32,
    pub value: usize,
}

pub open spec fn value_names(vs: Seq<PushConstantValue>) -> Seq<Seq<char>> {
    vs.map_values(|v: PushConstantValue| v.name@)
}

/// The writes for the push constants a pipeline declares: each declared name
/// takes the first value of that name; a name with no value is an error.
pub open spec fn push_writes(pcs: Seq<(u32, Seq<char>)>, vs: Seq<PushConstantValue>) -> Result<
    Seq<PushConstantWrite>,
    ConfigErrorView,
>
    decreases pcs.len(),
{
    if pcs.len() == 0 {
        Ok(Seq::empty())
    } else {
        match push_writes(pcs.drop_last(), vs) {
            Err(e) => Err(e),
            Ok(ws) => match name_position(value_names(vs), pcs.last().1) {
                None => Err(err_view(ConfigErrorKind::UnknownPushConstant, pcs.last().1)),
                Some(k) => Ok(
                    ws.push(
                        PushConstantWrite {
                            stages: vs[k as int].stages,
                            offset: pcs.last().0,
                            value: k,
                        },
                    ),
                ),
            },
        }
    }
}

proof fn lemma_writes_error_stays(pcs: Seq<(u32, Seq<char>)>, vs: Seq<PushConstantValue>, k: int)
    requires
        0 <= k <= pcs.len(),
        push_writes(pcs.take(k), vs) is Err,
    ensures
        push_writes(pcs, vs) == push_writes(pcs.take(k), vs),
    decreases pcs.len() - k,
{
    if k < pcs.len() {
        assert(pcs.take(k + 1).drop_last() =~= pcs.take(k));
        lemma_writes_error_stays(pcs, vs, k + 1);
    } else {
        assert(pcs.take(k) =~= pcs);
    }
}

fn find_value(vs: &Vec<PushConstantValue>, n: &String) -> (r: Option<usize>)
    ensures
        r == name_position(value_names(vs@), n@),
        r matches Some(k) ==> k < vs.len(),
{
    let ghost ns = value_names(vs@);
    let mut i: usize = 0;
    while i < vs.len()
        invariant
            i <= vs.len(),
            ns == value_names(vs@),
            forall|j: int| 0 <= j < i ==> ns[j] != n@,
        decreases vs.len() - i,
    {
        if vs[i].name.eq(n) {
            let ghost w = choose|k: int|
                0 <= k < ns.len() && ns[k] == n@ && forall|j: int| 0 <= j < k ==> ns[j] != n@;
            assert(ns[i as int] == n@);
            assert(w == i as int) by {
                if w > i {
                    assert(ns[i as int] != n@);
                }
            }
            return Some(i);
        }
        i = i + 1;
    }
    None
}

/// The first push constant that `pipeline` declares and `values` does not
/// supply, if any.
pub fn push_constants_error(pipeline: &PipelineConfig, values: &Vec<PushConstantValue>) -> (r: Option<
    ConfigurationError,
>)
    ensures
        match r {
            None => push_writes(pipeline@.push_constants, values@) is Ok,
            Some(e) => push_writes(pipeline@.push_constants, values@) == Err::<
                Seq<PushConstantWrite>,
                ConfigErrorView,
            >(e@),
        },
{
    let ghost pv = pipeline@.push_constants;
    let mut i: usize = 0;
    assert(pv.take(0) =~= Seq::<(u32, Seq<char>)>::empty());
    while i < pipeline.push_constants.len()
        invariant
            i <= pipeline.push_constants.len(),
            pv == pipeline@.push_constants,
            push_writes(pv.take(i as int), values@) is Ok,
        decreases pipeline.push_constants.len() - i,
    {
        assert(pv.take(i as int + 1).drop_last() =~= pv.take(i as int));
        let name = &pipeline.push_constants[i].1;
        if find_value(values, name).is_none() {
            let e = config_error(ConfigErrorKind::UnknownPushConstant, name);
            proof {
                lemma_writes_error_stays(pv, values@, i as int + 1);
            }
            return Some(e);
        }
        i = i + 1;
    }
    assert(pv.take(pipeline.push_constants.len() as int) =~= pv);
    None
}

/// The push-constant writes of a pass of `pipeline`, where `values` supplies
/// every push constant it declares (see [`push_constants_error`]): each
/// declared name takes the first value of that name, at the declared offset.
pub fn set_push_constants(pipeline: &PipelineConfig, values: &Vec<PushConstantValue>) -> (r: Vec<
    PushConstantWrite,
>)
    requires
        push_writes(pipeline@.push_constants, values@) is Ok,
    ensures
        push_writes(pipeline@.push_constants, values@) == Ok::<Seq<PushConstantWrite>, ConfigErrorView>(
            r@,
        ),
{
    let ghost pv = pipeline@.push_constants;
    let mut ws: Vec<PushConstantWrite> = Vec::new();
    let mut i: usize = 0;
    assert(pv.take(0) =~= Seq::<(u32, Seq<char>)>::empty());
    while i < pipeline.push_constants.len()
        invariant
            i <= pipeline.push_constants.len(),
            pv == pipeline@.push_constants,
            push_writes(pv, values@) is Ok,
            push_writes(pv.take(i as int), values@) == Ok::<Seq<PushConstantWrite>, ConfigErrorView>(
                ws@,
            ),
        decreases pipeline.push_constants.len() - i,
    {
        assert(pv.take(i as int + 1).drop_last() =~= pv.take(i as int));
        proof {
            if push_writes(pv.take(i as int + 1), values@) is Err {
                lemma_writes_error_stays(pv, values@, i as int + 1);
            }
        }
        let k = find_value(values, &pipeline.push_constants[i].1).unwrap();
        ws.push(
            PushConstantWrite { stages: values[k].stages, offset: pipeline.push_constants[i].0, value: k },
        );
        i = i + 1;
    }
    assert(pv.take(pipeline.push_constants.len() as int) =~= pv);
    ws
}

/// Per-type entity instances: parts per entity, vertices of the model and
/// instance slots.
#[derive(Clone, Copy, Debug, PartialEq, Eq, Structural)]
pub struct EntityBatchInfo {
    pub parts: u32,
    pub vertex_count: u32,
    pub capacity: u32,
}

/// One instanced draw of the entity pass: vertices `0..vertex_count`,
/// instances `0..instance_count`, with the part count as push constant.
#[derive(Clone, Copy, Debug, PartialEq, Eq, Structural)]
pub struct EntityDraw {
    pub batch: usize,
    pub parts_per_entity: u32,
    pub vertex_count: u32,
    pub instance_count: u32,
}

pub open spec fn entity_draw_of(i: int, b: EntityBatchInfo) -> EntityDraw {
    EntityDraw {
        batch: i as usize,
        parts_per_entity: b.parts,
        vertex_count: b.vertex_count,
        instance_count: b.capacity,
    }
}

/// The draws of the entity pass: one instanced draw per batch, in order.
pub fn entity_draws(batches: &Vec<EntityBatchInfo>) -> (r: Vec<EntityDraw>)
    ensures
        r@.len() == batches@.len(),
        forall|i: int| 0 <= i < r@.len() ==> r@[i] == entity_draw_of(i, batches@[i]),
{
    let mut r: Vec<EntityDraw> = Vec::new();
    let mut i: usize = 0;
    while i < batches.len()
        invariant
            i <= batches.len(),
            r@.len() == i,
            forall|j: int| 0 <= j < i ==> r@[j] == entity_draw_of(j, batches@[j]),
        decreases batches.len() - i,
    {
        let b = batches[i];
        r.push(
            EntityDraw {
                batch: i,
                parts_per_entity: b.parts,
                vertex_count: b.vertex_count,
                instance_count: b.capacity,
            },
        );
        i = i + 1;
    }
    r
}

pub open spec fn clears_depth(d: DepthUse) -> bool {
    match d {
        DepthUse::NoDepth => false,
        DepthUse::Scene { clear } => clear,
        DepthUse::Texture { clear, .. } => clear,
    }
}

proof fn lemma_plan_shape(
    es: Seq<(Seq<char>, BoundView)>,
    configs: Seq<(Seq<char>, PipelineConfigView)>,
    res: Seq<(Seq<char>, BackingView)>,
    providers: Seq<Seq<char>>,
)
    requires
        plan_passes(es, configs, res, providers) is Ok,
    ensures
        ({
            let ps = plan_passes(es, configs, res, providers)->Ok_0;
            &&& ps.len() == es.len()
            &&& forall|j: int|
                0 <= j < ps.len() ==> ((#[trigger] ps[j]).depth is NoDepth <==> configs[es[j].1.config_index as int].1.depth is None)
            &&& forall|j: int|
                0 <= j < ps.len() ==> (clears_depth((#[trigger] ps[j]).depth) <==> (!(ps[j].depth is NoDepth)
                    && no_depth_yet(es.take(j), configs)))
        }),
    decreases es.len(),
{
    reveal(plan_pass);
    if es.len() > 0 {
        let pre = es.drop_last();
        lemma_plan_shape(pre, configs, res, providers);
        let ps0 = plan_passes(pre, configs, res, providers)->Ok_0;
        let ps = plan_passes(es, configs, res, providers)->Ok_0;
        let n = es.len() - 1;
        assert(es.take(n) =~= pre);
        assert forall|j: int| 0 <= j < n implies es.take(j) =~= pre.take(j) && es[j] == pre[j] && ps[j] == ps0[j] by {}
    }
}

/// In a planned frame the first pass with a depth attachment clears depth and
/// every later pass loads it: depth is cleared at most once per frame.
pub proof fn lemma_single_depth_clear(
    es: Seq<(Seq<char>, BoundView)>,
    configs: Seq<(Seq<char>, PipelineConfigView)>,
    res: Seq<(Seq<char>, BackingView)>,
    providers: Seq<Seq<char>>,
)
    requires
        plan_passes(es, configs, res, providers) is Ok,
    ensures
        ({
            let ps = plan_passes(es, configs, res, providers)->Ok_0;
            &&& forall|i: int, j: int|
                0 <= i < j < ps.len() && clears_depth(ps[i].depth) ==> !clears_depth(ps[j].depth)
            &&& forall|i: int|
                0 <= i < ps.len() && !(ps[i].depth is NoDepth) && (forall|j: int|
                    0 <= j < i ==> ps[j].depth is NoDepth) ==> clears_depth(ps[i].depth)
        }),
{
    lemma_plan_shape(es, configs, res, providers);
    let ps = plan_passes(es, configs, res, providers)->Ok_0;
    assert forall|i: int, j: int|
        0 <= i < j < ps.len() && clears_depth(ps[i].depth) implies !clears_depth(ps[j].depth) by {
        assert(es.take(j)[i] == es[i]);
        assert(!(ps[i].depth is NoDepth));
    }
    assert forall|i: int|
        0 <= i < ps.len() && !(ps[i].depth is NoDepth) && (forall|j: int|
            0 <= j < i ==> ps[j].depth is NoDepth) implies clears_depth(ps[i].depth) by {
        assert forall|j: int| 0 <= j < es.take(i).len() implies configs[es.take(i)[j].1.config_index as int].1.depth is None by {
            assert(es.take(i)[j] == es[j]);
            assert(ps[j].depth is NoDepth);
        }
    }
}

} // verus!
