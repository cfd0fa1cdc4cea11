//! The render graph compiler: from a shader-pack configuration and the resource
//! registry to an ordered set of bound pipelines.

use linked_hash_map::LinkedHashMap;
use vstd::prelude::*;

use crate::block::{distinct_keys, has_key, key_index};
use crate::resources::{
    entries_of, find_resource, layout_entry_of, lookup_resource, table_view, BackingView,
    BindGroupEntry, BindGroupLayoutEntry, ResourceBacking, ShaderStages,
};

verus! {

#[verifier::external_type_specification]
#[verifier::external_body]
#[verifier::reject_recursive_types(K)]
#[verifier::reject_recursive_types(V)]
#[verifier::reject_recursive_types(S)]
pub struct ExLinkedHashMap<K, V, S>(LinkedHashMap<K, V, S>);

/// Compares a string with a literal.
pub(crate) fn is_text(s: &String, lit: &str) -> (r: bool)
    ensures
        r == (s@ == lit@),
{
    let l: String = lit.to_owned();
    s.eq(&l)
}

/// Where the bind groups of a pipeline come from.
pub enum BindGroupDef {
    /// `(binding, resource id)` pairs, each resolved through the registry.
    Entries(Vec<(u32, String)>),
    /// A named bind group: a built-in one or one the caller supplies.
    Resource(String),
}

pub enum BindGroupDefView {
    Entries(Seq<(u32, Seq<char>)>),
    Resource(Seq<char>),
}

pub open spec fn named_view(v: Seq<(u32, String)>) -> Seq<(u32, Seq<char>)> {
    v.map_values(|e: (u32, String)| (e.0, e.1@))
}

impl View for BindGroupDef {
    type V = BindGroupDefView;

    open spec fn view(&self) -> BindGroupDefView {
        match self {
            BindGroupDef::Entries(es) => BindGroupDefView::Entries(named_view(es@)),
            BindGroupDef::Resource(n) => BindGroupDefView::Resource(n@),
        }
    }
}

/// One pipeline of a shader pack.
pub struct PipelineConfig {
    pub geometry: String,
    pub bind_groups: Vec<(u32, BindGroupDef)>,
    pub push_constants: Vec<(u32, String)>,
    pub output: Vec<String>,
    pub blending: String,
    pub depth: Option<String>,
    pub clear: bool,
}

pub struct PipelineConfigView {
    pub geometry: Seq<char>,
    pub bind_groups: Seq<(u32, BindGroupDefView)>,
    pub push_constants: Seq<(u32, Seq<char>)>,
    pub output: Seq<Seq<char>>,
    pub blending: Seq<char>,
    pub depth: Option<Seq<char>>,
    pub clear: bool,
}

impl View for PipelineConfig {
    type V = PipelineConfigView;

    open spec fn view(&self) -> PipelineConfigView {
        PipelineConfigView {
            geometry: self.geometry@,
            bind_groups: self.bind_groups@.map_values(|e: (u32, BindGroupDef)| (e.0, e.1@)),
            push_constants: named_view(self.push_constants@),
            output: self.output@.map_values(|s: String| s@),
            blending: self.blending@,
            depth: match self.depth {
                Some(d) => Some(d@),
                None => None,
            },
            clear: self.clear,
        }
    }
}

/// A resource declared by a shader pack. Scalars and matrices are handled by
/// another part of the renderer; 2-D textures are loaded from `src`.
pub enum ResourceConfig {
    Value,
    Texture2d { src: String },
    Other,
}

pub struct ShaderPackConfig {
    pub pipelines: Vec<(String, PipelineConfig)>,
    pub resources: Vec<(String, ResourceConfig)>,
}

pub open spec fn pipelines_view(v: Seq<(String, PipelineConfig)>) -> Seq<(Seq<char>, PipelineConfigView)> {
    v.map_values(|e: (String, PipelineConfig)| (e.0@, e.1@))
}

/// The 2-D textures that a list of resource declarations asks to load, as
/// `(resource id, source path)`, in order.
pub open spec fn texture_requests(rs: Seq<(String, ResourceConfig)>) -> Seq<(Seq<char>, Seq<char>)>
    decreases rs.len(),
{
    if rs.len() == 0 {
        Seq::empty()
    } else {
        texture_requests(rs.drop_last()) + match rs.last().1 {
            ResourceConfig::Texture2d { src } => seq![(rs.last().0@, src@)],
            _ => Seq::empty(),
        }
    }
}

impl ShaderPackConfig {
    /// The textures to load before compiling: `(resource id, source path)`.
    pub fn texture_sources(&self) -> (r: Vec<(String, String)>)
        ensures
            r@.map_values(|e: (String, String)| (e.0@, e.1@)) == texture_requests(self.resources@),
    {
        let mut r: Vec<(String, String)> = Vec::new();
        let mut i: usize = 0;
        while i < self.resources.len()
            invariant
                i <= self.resources.len(),
                r@.map_values(|e: (String, String)| (e.0@, e.1@)) == texture_requests(
                    self.resources@.take(i as int),
                ),
            decreases self.resources.len() - i,
        {
            let ghost before = r@.map_values(|e: (String, String)| (e.0@, e.1@));
            assert(self.resources@.take(i as int + 1).drop_last() =~= self.resources@.take(i as int));
            match &self.resources[i].1 {
                ResourceConfig::Texture2d { src } => {
                    r.push((self.resources[i].0.clone(), src.clone()));
                    assert(r@.map_values(|e: (String, String)| (e.0@, e.1@)) =~= before + seq![
                        (self.resources@[i as int].0@, src@),
                    ]);
                },
                _ => {
                    assert(r@.map_values(|e: (String, String)| (e.0@, e.1@)) =~= before
                        + Seq::<(Seq<char>, Seq<char>)>::empty());
                },
            }
            i = i + 1;
        }
        assert(self.resources@.take(self.resources.len() as int) =~= self.resources@);
        r
    }
}

/// Built-in bind-group layouts that the renderer owns.
#[derive(Clone, Copy, Debug, PartialEq, Eq, Structural)]
pub enum BuiltinLayout {
    ChunkStorage,
    Entity,
}

/// The layout of one bind group of a pipeline.
pub enum LayoutSource {
    Entries(Vec<BindGroupLayoutEntry>),
    Builtin(BuiltinLayout),
    /// Position in the caller's list of custom layouts.
    Custom(usize),
}

pub enum LayoutView {
    Entries(Seq<BindGroupLayoutEntry>),
    Builtin(BuiltinLayout),
    Custom(usize),
}

impl View for LayoutSource {
    type V = LayoutView;

    open spec fn view(&self) -> LayoutView {
        match self {
            LayoutSource::Entries(es) => LayoutView::Entries(es@),
            LayoutSource::Builtin(b) => LayoutView::Builtin(*b),
            LayoutSource::Custom(i) => LayoutView::Custom(*i),
        }
    }
}

/// A bind group of a pipeline: a named one, looked up when drawing, or one
/// made from the resolved entries.
pub enum WmBindGroup {
    Resource(String),
    Custom(Vec<BindGroupEntry>),
}

pub enum WmBindGroupView {
    Resource(Seq<char>),
    Custom(Seq<BindGroupEntry>),
}

impl View for WmBindGroup {
    type V = WmBindGroupView;

    open spec fn view(&self) -> WmBindGroupView {
        match self {
            WmBindGroup::Resource(n) => WmBindGroupView::Resource(n@),
            WmBindGroup::Custom(es) => WmBindGroupView::Custom(es@),
        }
    }
}

#[derive(Clone, Copy, Debug, PartialEq, Eq, Structural)]
pub struct PushConstantRange {
    pub stages: ShaderStages,
    pub start: u32,
    pub end: u32,
}

/// Vertex buffer layout of a geometry kind.
#[derive(Clone, Copy, Debug, PartialEq, Eq, Structural)]
pub enum VertexLayout {
    /// Terrain: no vertex buffer, an index buffer into shared storage.
    Terrain,
    /// Entities: entity vertices and per-instance data.
    Entities,
    Quad,
    SunMoon,
    Sky,
    /// Position in the caller's list of custom geometry layouts.
    Custom(usize),
}

#[derive(Clone, Copy, Debug, PartialEq, Eq, Structural)]
pub enum BlendPreset {
    AlphaBlending,
    PremultipliedAlphaBlending,
    Replace,
    ColorAddAlphaBlending,
}

#[derive(Clone, Copy, Debug, PartialEq, Eq, Structural)]
pub enum ConfigErrorKind {
    UnknownResource,
    UnbindableResource,
    UnknownBindGroup,
    UnknownPushConstant,
    PushConstantOutOfRange,
    UnknownGeometry,
    UnknownBlend,
    UnknownOutput,
    UnknownDepthTarget,
}

/// A configuration that names something the renderer cannot resolve.
#[derive(Debug)]
pub struct ConfigurationError {
    pub kind: ConfigErrorKind,
    pub name: String,
}

pub struct ConfigErrorView {
    pub kind: ConfigErrorKind,
    pub name: Seq<char>,
}

impl View for ConfigurationError {
    type V = ConfigErrorView;

    open spec fn view(&self) -> ConfigErrorView {
        ConfigErrorView { kind: self.kind, name: self.name@ }
    }
}

pub open spec fn err_view(kind: ConfigErrorKind, name: Seq<char>) -> ConfigErrorView {
    ConfigErrorView { kind, name }
}

/// Stages and byte size of each push constant the renderer knows.
pub open spec fn push_constant_layout(name: Seq<char>) -> Option<(ShaderStages, u32)> {
    if name == "@pc_mat4_model"@ {
        Some((ShaderStages::Vertex, 64))
    } else if name == "@pc_section_position"@ {
        Some((ShaderStages::Vertex, 12))
    } else if name == "@pc_total_sections"@ {
        Some((ShaderStages::Vertex, 4))
    } else if name == "@pc_parts_per_entity"@ {
        Some((ShaderStages::Vertex, 4))
    } else if name == "@pc_electrum_color"@ {
        Some((ShaderStages::Fragment, 16))
    } else {
        None
    }
}

pub fn push_constant_size(name: &String) -> (r: Option<(ShaderStages, u32)>)
    ensures
        r == push_constant_layout(name@),
{
    if is_text(name, "@pc_mat4_model") {
        Some((ShaderStages::Vertex, 64))
    } else if is_text(name, "@pc_section_position") {
        Some((ShaderStages::Vertex, 12))
    } else if is_text(name, "@pc_total_sections") {
        Some((ShaderStages::Vertex, 4))
    } else if is_text(name, "@pc_parts_per_entity") {
        Some((ShaderStages::Vertex, 4))
    } else if is_text(name, "@pc_electrum_color") {
        Some((ShaderStages::Fragment, 16))
    } else {
        None
    }
}

/// Position of the first name equal to `n`.
pub open spec fn name_position(names: Seq<Seq<char>>, n: Seq<char>) -> Option<usize> {
    if exists|i: int| 0 <= i < names.len() && names[i] == n {
        Some(
            (choose|i: int|
                0 <= i < names.len() && names[i] == n && forall|j: int|
                    0 <= j < i ==> names[j] != n) as usize,
        )
    } else {
        None
    }
}

pub fn find_name(names: &Vec<String>, n: &String) -> (r: Option<usize>)
    ensures
        r == name_position(names@.map_values(|s: String| s@), n@),
{
    let ghost ns = names@.map_values(|s: String| s@);
    let mut i: usize = 0;
    while i < names.len()
        invariant
            i <= names.len(),
            ns == names@.map_values(|s: String| s@),
            forall|j: int| 0 <= j < i ==> ns[j] != n@,
        decreases names.len() - i,
    {
        if names[i].eq(n) {
            let ghost w = choose|k: int|
                0 <= k < ns.len() && ns[k] == n@ && forall|j: int| 0 <= j < k ==> ns[j] != n@;
            assert(ns[i as int] == n@);
            assert(w == i as int) by {
                if w > i {
                    assert(ns[i as int] != n@);
                }
            }
            return Some(i);
        }
        i = i + 1;
    }
    None
}

/// The vertex layout of a geometry kind: built in, or the caller's custom one.
pub open spec fn geometry_layout(geo: Seq<char>, custom: Seq<Seq<char>>) -> Option<VertexLayout> {
    if geo == "@geo_terrain"@ {
        Some(VertexLayout::Terrain)
    } else if geo == "@geo_entities"@ {
        Some(VertexLayout::Entities)
    } else if geo == "@geo_quad"@ {
        Some(VertexLayout::Quad)
    } else if geo == "@geo_sun_moon"@ {
        Some(VertexLayout::SunMoon)
    } else if geo == "@geo_sky_scatter"@ || geo == "@geo_sky_stars"@ || geo == "@geo_sky_fog"@ {
        Some(VertexLayout::Sky)
    } else {
        match name_position(custom, geo) {
            Some(i) => Some(VertexLayout::Custom(i)),
            None => None,
        }
    }
}

pub fn vertex_layout_for(geo: &String, custom: &Vec<String>) -> (r: Option<VertexLayout>)
    ensures
        r == geometry_layout(geo@, custom@.map_values(|s: String| s@)),
{
    if is_text(geo, "@geo_terrain") {
        Some(VertexLayout::Terrain)
    } else if is_text(geo, "@geo_entities") {
        Some(VertexLayout::Entities)
    } else if is_text(geo, "@geo_quad") {
        Some(VertexLayout::Quad)
    } else if is_text(geo, "@geo_sun_moon") {
        Some(VertexLayout::SunMoon)
    } else if is_text(geo, "@geo_sky_scatter") || is_text(geo, "@geo_sky_stars") || is_text(
        geo,
        "@geo_sky_fog",
    ) {
        Some(VertexLayout::Sky)
    } else {
        match find_name(custom, geo) {
            Some(i) => Some(VertexLayout::Custom(i)),
            None => None,
        }
    }
}

pub open spec fn blend_of(name: Seq<char>) -> Option<BlendPreset> {
    if name == "alpha_blending"@ {
        Some(BlendPreset::AlphaBlending)
    } else if name == "premultiplied_alpha_blending"@ {
        Some(BlendPreset::PremultipliedAlphaBlending)
    } else if name == "replace"@ {
        Some(BlendPreset::Replace)
    } else if name == "color_add_alpha_blending"@ {
        Some(BlendPreset::ColorAddAlphaBlending)
    } else {
        None
    }
}

pub fn blend_preset(name: &String) -> (r: Option<BlendPreset>)
    ensures
        r == blend_of(name@),
{
    if is_text(name, "alpha_blending") {
        Some(BlendPreset::AlphaBlending)
    } else if is_text(name, "premultiplied_alpha_blending") {
        Some(BlendPreset::PremultipliedAlphaBlending)
    } else if is_text(name, "replace") {
        Some(BlendPreset::Replace)
    } else if is_text(name, "color_add_alpha_blending") {
        Some(BlendPreset::ColorAddAlphaBlending)
    } else {
        None
    }
}

/// The resolved layout and bind-group entries of an entry list, or the first
/// id that cannot be resolved.
pub open spec fn resolve_entries(es: Seq<(u32, Seq<char>)>, res: Seq<(Seq<char>, BackingView)>) -> Result<
    (Seq<BindGroupLayoutEntry>, Seq<BindGroupEntry>),
    ConfigErrorView,
>
    decreases es.len(),
{
    if es.len() == 0 {
        Ok((Seq::empty(), Seq::empty()))
    } else {
        match resolve_entries(es.drop_last(), res) {
            Err(e) => Err(e),
            Ok((ls, bs)) => {
                let (binding, id) = es.last();
                match find_resource(res, id) {
                    None => Err(err_view(ConfigErrorKind::UnknownResource, id)),
                    Some(b) => match entries_of(b, binding) {
                        None => Err(err_view(ConfigErrorKind::UnbindableResource, id)),
                        Some(more) => Ok((ls.push(layout_entry_of(b, binding)), bs + more)),
                    },
                }
            },
        }
    }
}

/// One bind group of a pipeline: its slot and group, and its layout.
pub open spec fn resolve_group(
    slot: u32,
    def: BindGroupDefView,
    res: Seq<(Seq<char>, BackingView)>,
    custom_groups: Seq<Seq<char>>,
) -> Result<((u32, WmBindGroupView), LayoutView), ConfigErrorView> {
    match def {
        BindGroupDefView::Entries(es) => match resolve_entries(es, res) {
            Err(e) => Err(e),
            Ok((ls, bs)) => Ok(((slot, WmBindGroupView::Custom(bs)), LayoutView::Entries(ls))),
        },
        BindGroupDefView::Resource(n) => if n == "@bg_ssbo_chunks"@ {
            Ok(((slot, WmBindGroupView::Resource(n)), LayoutView::Builtin(BuiltinLayout::ChunkStorage)))
        } else if n == "@bg_entity"@ {
            Ok(((slot, WmBindGroupView::Resource(n)), LayoutView::Builtin(BuiltinLayout::Entity)))
        } else {
            match name_position(custom_groups, n) {
                Some(i) => Ok(((slot, WmBindGroupView::Resource(n)), LayoutView::Custom(i))),
                None => Err(err_view(ConfigErrorKind::UnknownBindGroup, n)),
            }
        },
    }
}

pub open spec fn resolve_groups(
    defs: Seq<(u32, BindGroupDefView)>,
    res: Seq<(Seq<char>, BackingView)>,
    custom_groups: Seq<Seq<char>>,
) -> Result<(Seq<(u32, WmBindGroupView)>, Seq<LayoutView>), ConfigErrorView>
    decreases defs.len(),
{
    if defs.len() == 0 {
        Ok((Seq::empty(), Seq::empty()))
    } else {
        match resolve_groups(defs.drop_last(), res, custom_groups) {
            Err(e) => Err(e),
            Ok((gs, ls)) => match resolve_group(defs.last().0, defs.last().1, res, custom_groups) {
                Err(e) => Err(e),
                Ok((g, l)) => Ok((gs.push(g), ls.push(l))),
            },
        }
    }
}

pub open spec fn resolve_push_constants(pcs: Seq<(u32, Seq<char>)>) -> Result<
    Seq<PushConstantRange>,
    ConfigErrorView,
>
    decreases pcs.len(),
{
    if pcs.len() == 0 {
        Ok(Seq::empty())
    } else {
        match resolve_push_constants(pcs.drop_last()) {
            Err(e) => Err(e),
            Ok(rs) => {
                let (offset, name) = pcs.last();
                match push_constant_layout(name) {
                    None => Err(err_view(ConfigErrorKind::UnknownPushConstant, name)),
                    Some((stages, size)) => if offset + size > u32::MAX {
                        Err(err_view(ConfigErrorKind::PushConstantOutOfRange, name))
                    } else {
                        Ok(rs.push(PushConstantRange { stages, start: offset, end: (offset + size) as u32 }))
                    },
                }
            },
        }
    }
}

/// A compiled pipeline. `config_index` is the position of its configuration in
/// the graph's shader pack.
pub struct BoundPipeline {
    pub config_index: usize,
    pub bind_groups: Vec<(u32, WmBindGroup)>,
    pub layouts: Vec<LayoutSource>,
    pub push_constant_ranges: Vec<PushConstantRange>,
    pub vertex_layout: VertexLayout,
    pub blend: BlendPreset,
    pub color_targets: usize,
    pub depth: bool,
}

pub struct BoundView {
    pub config_index: usize,
    pub bind_groups: Seq<(u32, WmBindGroupView)>,
    pub layouts: Seq<LayoutView>,
    pub push_constant_ranges: Seq<PushConstantRange>,
    pub vertex_layout: VertexLayout,
    pub blend: BlendPreset,
    pub color_targets: usize,
    pub depth: bool,
}

pub open spec fn groups_view(v: Seq<(u32, WmBindGroup)>) -> Seq<(u32, WmBindGroupView)> {
    v.map_values(|e: (u32, WmBindGroup)| (e.0, e.1@))
}

pub open spec fn layouts_view(v: Seq<LayoutSource>) -> Seq<LayoutView> {
    v.map_values(|l: LayoutSource| l@)
}

impl View for BoundPipeline {
    type V = BoundView;

    open spec fn view(&self) -> BoundView {
        BoundView {
            config_index: self.config_index,
            bind_groups: groups_view(self.bind_groups@),
            layouts: layouts_view(self.layouts@),
            push_constant_ranges: self.push_constant_ranges@,
            vertex_layout: self.vertex_layout,
            blend: self.blend,
            color_targets: self.color_targets,
            depth: self.depth,
        }
    }
}

/// The compiled form of the pipeline at position `index` of a shader pack.
#[verifier::opaque]
pub open spec fn compile_pipeline(
    index: usize,
    pc: PipelineConfigView,
    res: Seq<(Seq<char>, BackingView)>,
    custom_groups: Seq<Seq<char>>,
    custom_geometry: Seq<Seq<char>>,
) -> Result<BoundView, ConfigErrorView> {
    match resolve_groups(pc.bind_groups, res, custom_groups) {
        Err(e) => Err(e),
        Ok((gs, ls)) => match resolve_push_constants(pc.push_constants) {
            Err(e) => Err(e),
            Ok(pcs) => match geometry_layout(pc.geometry, custom_geometry) {
                None => Err(err_view(ConfigErrorKind::UnknownGeometry, pc.geometry)),
                Some(vl) => match blend_of(pc.blending) {
                    None => Err(err_view(ConfigErrorKind::UnknownBlend, pc.blending)),
                    Some(blend) => Ok(
                        BoundView {
                            config_index: index,
                            bind_groups: gs,
                            layouts: ls,
                            push_constant_ranges: pcs,
                            vertex_layout: vl,
                            blend,
                            color_targets: pc.output.len() as usize,
                            depth: pc.depth is Some,
                        },
                    ),
                },
            },
        },
    }
}

/// Entries of the compiled pipeline map, in iteration order.
pub uninterp spec fn pipeline_table(m: LinkedHashMap<String, BoundPipeline>) -> Seq<(Seq<char>, BoundView)>;

/// The table after an insertion: a new name goes last; an existing name takes
/// the new value and moves to the back.
pub open spec fn table_insert(t: Seq<(Seq<char>, BoundView)>, k: Seq<char>, v: BoundView) -> Seq<
    (Seq<char>, BoundView),
> {
    if has_key(t, k) {
        t.remove(key_index(t, k)).push((k, v))
    } else {
        t.push((k, v))
    }
}

/// Every pipeline of a shader pack compiled in order, or the first error.
pub open spec fn compile_all(
    ps: Seq<(Seq<char>, PipelineConfigView)>,
    res: Seq<(Seq<char>, BackingView)>,
    custom_groups: Seq<Seq<char>>,
    custom_geometry: Seq<Seq<char>>,
) -> Result<Seq<(Seq<char>, BoundView)>, ConfigErrorView>
    decreases ps.len(),
{
    if ps.len() == 0 {
        Ok(Seq::empty())
    } else {
        match compile_all(ps.drop_last(), res, custom_groups, custom_geometry) {
            Err(e) => Err(e),
            Ok(t) => match compile_pipeline(
                (ps.len() - 1) as usize,
                ps.last().1,
                res,
                custom_groups,
                custom_geometry,
            ) {
                Err(e) => Err(e),
                Ok(b) => Ok(table_insert(t, ps.last().0, b)),
            },
        }
    }
}

/// Relies on `LinkedHashMap::new`: an empty map.
#[verifier::external_body]
fn new_pipeline_map() -> (r: LinkedHashMap<String, BoundPipeline>)
    ensures
        pipeline_table(r) == Seq::<(Seq<char>, BoundView)>::empty(),
{
    LinkedHashMap::new()
}

/// Relies on `LinkedHashMap::insert`: an existing key has its value replaced
/// and moves to the back of the order; a new key is appended.
#[verifier::external_body]
fn pipeline_insert(m: &mut LinkedHashMap<String, BoundPipeline>, k: String, v: BoundPipeline)
    ensures
        distinct_keys(pipeline_table(*old(m))) ==> pipeline_table(*final(m)) == table_insert(
            pipeline_table(*old(m)),
            k@,
            v@,
        ),
{
    m.insert(k, v);
}

/// Relies on `LinkedHashMap::iter`: every entry, in the map's order.
#[verifier::external_body]
pub(crate) fn pipeline_entries<'a>(m: &'a LinkedHashMap<String, BoundPipeline>) -> (r: Vec<
    (&'a String, &'a BoundPipeline),
>)
    ensures
        r@.map_values(|e: (&'a String, &'a BoundPipeline)| (e.0@, e.1@)) == pipeline_table(*m),
{
    m.iter().collect()
}

proof fn lemma_entries_error_stays(es: Seq<(u32, Seq<char>)>, res: Seq<(Seq<char>, BackingView)>, k: int)
    requires
        0 <= k <= es.len(),
        resolve_entries(es.take(k), res) is Err,
    ensures
        resolve_entries(es, res) == resolve_entries(es.take(k), res),
    decreases es.len() - k,
{
    if k < es.len() {
        assert(es.take(k + 1).drop_last() =~= es.take(k));
        lemma_entries_error_stays(es, res, k + 1);
    } else {
        assert(es.take(k) =~= es);
    }
}

proof fn lemma_groups_error_stays(
    defs: Seq<(u32, BindGroupDefView)>,
    res: Seq<(Seq<char>, BackingView)>,
    cg: Seq<Seq<char>>,
    k: int,
)
    requires
        0 <= k <= defs.len(),
        resolve_groups(defs.take(k), res, cg) is Err,
    ensures
        resolve_groups(defs, res, cg) == resolve_groups(defs.take(k), res, cg),
    decreases defs.len() - k,
{
    if k < defs.len() {
        assert(defs.take(k + 1).drop_last() =~= defs.take(k));
        lemma_groups_error_stays(defs, res, cg, k + 1);
    } else {
        assert(defs.take(k) =~= defs);
    }
}

proof fn lemma_push_constants_error_stays(pcs: Seq<(u32, Seq<char>)>, k: int)
    requires
        0 <= k <= pcs.len(),
        resolve_push_constants(pcs.take(k)) is Err,
    ensures
        resolve_push_constants(pcs) == resolve_push_constants(pcs.take(k)),
    decreases pcs.len() - k,
{
    if k < pcs.len() {
        assert(pcs.take(k + 1).drop_last() =~= pcs.take(k));
        lemma_push_constants_error_stays(pcs, k + 1);
    } else {
        assert(pcs.take(k) =~= pcs);
    }
}

proof fn lemma_compile_error_stays(
    ps: Seq<(Seq<char>, PipelineConfigView)>,
    res: Seq<(Seq<char>, BackingView)>,
    cg: Seq<Seq<char>>,
    cgeo: Seq<Seq<char>>,
    k: int,
)
    requires
        0 <= k <= ps.len(),
        compile_all(ps.take(k), res, cg, cgeo) is Err,
    ensures
        compile_all(ps, res, cg, cgeo) == compile_all(ps.take(k), res, cg, cgeo),
    decreases ps.len() - k,
{
    if k < ps.len() {
        assert(ps.take(k + 1).drop_last() =~= ps.take(k));
        lemma_compile_error_stays(ps, res, cg, cgeo, k + 1);
    } else {
        assert(ps.take(k) =~= ps);
    }
}

fn config_error(kind: ConfigErrorKind, name: &String) -> (r: ConfigurationError)
    ensures
        r@ == err_view(kind, name@),
{
    ConfigurationError { kind, name: name.clone() }
}

fn extend_entries(bs: &mut Vec<BindGroupEntry>, more: &Vec<BindGroupEntry>)
    ensures
        final(bs)@ == old(bs)@ + more@,
{
    let mut j: usize = 0;
    while j < more.len()
        invariant
            j <= more.len(),
            bs@ == old(bs)@ + more@.take(j as int),
        decreases more.len() - j,
    {
        bs.push(more[j]);
        j = j + 1;
        assert(bs@ =~= old(bs)@ + more@.take(j as int));
    }
    assert(more@.take(more.len() as int) =~= more@);
}

/// The first unresolvable id of an entry list, if any.
fn entries_error(es: &Vec<(u32, String)>, res: &Vec<(String, ResourceBacking)>) -> (r: Option<
    ConfigurationError,
>)
    ensures
        match r {
            None => resolve_entries(named_view(es@), table_view(res@)) is Ok,
            Some(e) => resolve_entries(named_view(es@), table_view(res@)) == Err::<
                (Seq<BindGroupLayoutEntry>, Seq<BindGroupEntry>),
                ConfigErrorView,
            >(e@),
        },
{
    let ghost ev = named_view(es@);
    let ghost rv = table_view(res@);
    let mut i: usize = 0;
    assert(ev.take(0) =~= Seq::<(u32, Seq<char>)>::empty());
    while i < es.len()
        invariant
            i <= es.len(),
            ev == named_view(es@),
            rv == table_view(res@),
            resolve_entries(ev.take(i as int), rv) is Ok,
        decreases es.len() - i,
    {
        assert(ev.take(i as int + 1).drop_last() =~= ev.take(i as int));
        let id = &es[i].1;
        let found = lookup_resource(res, id);
        let kind = match found {
            None => Some(ConfigErrorKind::UnknownResource),
            Some(backing) => if backing.is_bindable() {
                None
            } else {
                Some(ConfigErrorKind::UnbindableResource)
            },
        };
        match kind {
            Some(k) => {
                let e = config_error(k, id);
                proof {
                    lemma_entries_error_stays(ev, rv, i as int + 1);
                }
                return Some(e);
            },
            None => {},
        }
        i = i + 1;
    }
    assert(ev.take(es.len() as int) =~= ev);
    None
}

/// The error of one bind group, if any.
fn group_error(
    slot: u32,
    def: &BindGroupDef,
    res: &Vec<(String, ResourceBacking)>,
    custom_groups: &Vec<String>,
) -> (r: Option<ConfigurationError>)
    ensures
        match r {
            None => resolve_group(slot, def@, table_view(res@), custom_groups@.map_values(|s: String| s@))
                is Ok,
            Some(e) => resolve_group(
                slot,
                def@,
                table_view(res@),
                custom_groups@.map_values(|s: String| s@),
            ) == Err::<((u32, WmBindGroupView), LayoutView), ConfigErrorView>(e@),
        },
{
    match def {
        BindGroupDef::Entries(es) => entries_error(es, res),
        BindGroupDef::Resource(n) => {
            if is_text(n, "@bg_ssbo_chunks") || is_text(n, "@bg_entity") {
                None
            } else {
                match find_name(custom_groups, n) {
                    Some(_) => None,
                    None => Some(config_error(ConfigErrorKind::UnknownBindGroup, n)),
                }
            }
        },
    }
}

/// The first error among the bind groups of a pipeline, if any.
fn groups_error(
    defs: &Vec<(u32, BindGroupDef)>,
    res: &Vec<(String, ResourceBacking)>,
    custom_groups: &Vec<String>,
) -> (r: Option<ConfigurationError>)
    ensures
        match r {
            None => resolve_groups(
                defs@.map_values(|e: (u32, BindGroupDef)| (e.0, e.1@)),
                table_view(res@),
                custom_groups@.map_values(|s: String| s@),
            ) is Ok,
            Some(e) => resolve_groups(
                defs@.map_values(|e: (u32, BindGroupDef)| (e.0, e.1@)),
                table_view(res@),
                custom_groups@.map_values(|s: String| s@),
            ) == Err::<(Seq<(u32, WmBindGroupView)>, Seq<LayoutView>), ConfigErrorView>(e@),
        },
{
    let ghost dv = defs@.map_values(|e: (u32, BindGroupDef)| (e.0, e.1@));
    let ghost rv = table_view(res@);
    let ghost cv = custom_groups@.map_values(|s: String| s@);
    let mut i: usize = 0;
    assert(dv.take(0) =~= Seq::<(u32, BindGroupDefView)>::empty());
    while i < defs.len()
        invariant
            i <= defs.len(),
            dv == defs@.map_values(|e: (u32, BindGroupDef)| (e.0, e.1@)),
            rv == table_view(res@),
            cv == custom_groups@.map_values(|s: String| s@),
            resolve_groups(dv.take(i as int), rv, cv) is Ok,
        decreases defs.len() - i,
    {
        assert(dv.take(i as int + 1).drop_last() =~= dv.take(i as int));
        let r = group_error(defs[i].0, &defs[i].1, res, custom_groups);
        assert(resolve_group(dv[i as int].0, dv[i as int].1, rv, cv) == resolve_group(
            dv[i as int].0,
            defs@[i as int].1@,
            rv,
            cv,
        ));
        match r {
            Some(e) => {
                proof {
                    lemma_groups_error_stays(dv, rv, cv, i as int + 1);
                }
                return Some(e);
            },
            None => {},
        }
        i = i + 1;
    }
    assert(dv.take(defs.len() as int) =~= dv);
    None
}

/// The first unknown or out-of-range push constant of a pipeline, if any.
fn push_constants_error(pcs: &Vec<(u32, String)>) -> (r: Option<ConfigurationError>)
    ensures
        match r {
            None => resolve_push_constants(named_view(pcs@)) is Ok,
            Some(e) => resolve_push_constants(named_view(pcs@)) == Err::<
                Seq<PushConstantRange>,
                ConfigErrorView,
            >(e@),
        },
{
    let ghost pv = named_view(pcs@);
    let mut i: usize = 0;
    assert(pv.take(0) =~= Seq::<(u32, Seq<char>)>::empty());
    while i < pcs.len()
        invariant
            i <= pcs.len(),
            pv == named_view(pcs@),
            resolve_push_constants(pv.take(i as int)) is Ok,
        decreases pcs.len() - i,
    {
        assert(pv.take(i as int + 1).drop_last() =~= pv.take(i as int));
        let name = &pcs[i].1;
        let kind = match push_constant_size(name) {
            None => Some(ConfigErrorKind::UnknownPushConstant),
            Some((_, size)) => if pcs[i].0 > u32::MAX - size {
                Some(ConfigErrorKind::PushConstantOutOfRange)
            } else {
                None
            },
        };
        match kind {
            Some(k) => {
                let e = config_error(k, name);
                proof {
                    lemma_push_constants_error_stays(pv, i as int + 1);
                }
                return Some(e);
            },
            None => {},
        }
        i = i + 1;
    }
    assert(pv.take(pcs.len() as int) =~= pv);
    None
}

/// The first name of a pipeline that cannot be resolved, if any: in its bind
/// groups, its push constants, its geometry kind, then its blend preset.
pub fn pipeline_error(
    index: usize,
    pc: &PipelineConfig,
    res: &Vec<(String, ResourceBacking)>,
    custom_groups: &Vec<String>,
    custom_geometry: &Vec<String>,
) -> (r: Option<ConfigurationError>)
    ensures
        match r {
            None => compile_pipeline(
                index,
                pc@,
                table_view(res@),
                custom_groups@.map_values(|s: String| s@),
                custom_geometry@.map_values(|s: String| s@),
            ) is Ok,
            Some(e) => compile_pipeline(
                index,
                pc@,
                table_view(res@),
                custom_groups@.map_values(|s: String| s@),
                custom_geometry@.map_values(|s: String| s@),
            ) == Err::<BoundView, ConfigErrorView>(e@),
        },
{
    reveal(compile_pipeline);
    match groups_error(&pc.bind_groups, res, custom_groups) {
        Some(e) => {
            return Some(e);
        },
        None => {},
    }
    match push_constants_error(&pc.push_constants) {
        Some(e) => {
            return Some(e);
        },
        None => {},
    }
    if vertex_layout_for(&pc.geometry, custom_geometry).is_none() {
        return Some(config_error(ConfigErrorKind::UnknownGeometry, &pc.geometry));
    }
    if blend_preset(&pc.blending).is_none() {
        return Some(config_error(ConfigErrorKind::UnknownBlend, &pc.blending));
    }
    None
}

/// The first name of a shader pack that cannot be resolved, if any, with its
/// pipelines taken in order.
pub fn pack_error(
    config: &ShaderPackConfig,
    res: &Vec<(String, ResourceBacking)>,
    custom_groups: &Vec<String>,
    custom_geometry: &Vec<String>,
) -> (r: Option<ConfigurationError>)
    ensures
        match r {
            None => compile_all(
                pipelines_view(config.pipelines@),
                table_view(res@),
                custom_groups@.map_values(|s: String| s@),
                custom_geometry@.map_values(|s: String| s@),
            ) is Ok,
            Some(e) => compile_all(
                pipelines_view(config.pipelines@),
                table_view(res@),
                custom_groups@.map_values(|s: String| s@),
                custom_geometry@.map_values(|s: String| s@),
            ) == Err::<Seq<(Seq<char>, BoundView)>, ConfigErrorView>(e@),
        },
{
    let ghost ps = pipelines_view(config.pipelines@);
    let ghost rv = table_view(res@);
    let ghost cg = custom_groups@.map_values(|s: String| s@);
    let ghost cgeo = custom_geometry@.map_values(|s: String| s@);
    let mut i: usize = 0;
    assert(ps.take(0) =~= Seq::<(Seq<char>, PipelineConfigView)>::empty());
    while i < config.pipelines.len()
        invariant
            i <= config.pipelines.len(),
            ps == pipelines_view(config.pipelines@),
            rv == table_view(res@),
            cg == custom_groups@.map_values(|s: String| s@),
            cgeo == custom_geometry@.map_values(|s: String| s@),
            compile_all(ps.take(i as int), rv, cg, cgeo) is Ok,
        decreases config.pipelines.len() - i,
    {
        assert(ps.take(i as int + 1).drop_last() =~= ps.take(i as int));
        let r = pipeline_error(i, &config.pipelines[i].1, res, custom_groups, custom_geometry);
        assert(compile_pipeline(i, ps[i as int].1, rv, cg, cgeo) == compile_pipeline(
            i,
            config.pipelines@[i as int].1@,
            rv,
            cg,
            cgeo,
        ));
        match r {
            Some(e) => {
                proof {
                    lemma_compile_error_stays(ps, rv, cg, cgeo, i as int + 1);
                }
                return Some(e);
            },
            None => {},
        }
        i = i + 1;
    }
    assert(ps.take(config.pipelines.len() as int) =~= ps);
    None
}

proof fn lemma_entries_step(es: Seq<(u32, Seq<char>)>, res: Seq<(Seq<char>, BackingView)>, i: int)
    requires
        0 <= i < es.len(),
        resolve_entries(es, res) is Ok,
    ensures
        resolve_entries(es.take(i), res) is Ok,
        find_resource(res, es[i].1) matches Some(b) && entries_of(b, es[i].0) is Some,
        resolve_entries(es.take(i + 1), res) == Ok::<
            (Seq<BindGroupLayoutEntry>, Seq<BindGroupEntry>),
            ConfigErrorView,
        >(
            (
                resolve_entries(es.take(i), res)->Ok_0.0.push(
                    layout_entry_of(find_resource(res, es[i].1)->Some_0, es[i].0),
                ),
                resolve_entries(es.take(i), res)->Ok_0.1 + entries_of(
                    find_resource(res, es[i].1)->Some_0,
                    es[i].0,
                )->Some_0,
            ),
        ),
{
    assert(es.take(i + 1).drop_last() =~= es.take(i));
    if resolve_entries(es.take(i + 1), res) is Err {
        lemma_entries_error_stays(es, res, i + 1);
    }
    if resolve_entries(es.take(i), res) is Err {
        lemma_entries_error_stays(es, res, i);
    }
}

proof fn lemma_groups_step(
    defs: Seq<(u32, BindGroupDefView)>,
    res: Seq<(Seq<char>, BackingView)>,
    cg: Seq<Seq<char>>,
    i: int,
)
    requires
        0 <= i < defs.len(),
        resolve_groups(defs, res, cg) is Ok,
    ensures
        resolve_groups(defs.take(i), res, cg) is Ok,
        resolve_group(defs[i].0, defs[i].1, res, cg) is Ok,
        resolve_groups(defs.take(i + 1), res, cg) == Ok::<
            (Seq<(u32, WmBindGroupView)>, Seq<LayoutView>),
            ConfigErrorView,
        >(
            (
                resolve_groups(defs.take(i), res, cg)->Ok_0.0.push(
                    resolve_group(defs[i].0, defs[i].1, res, cg)->Ok_0.0,
                ),
                resolve_groups(defs.take(i), res, cg)->Ok_0.1.push(
                    resolve_group(defs[i].0, defs[i].1, res, cg)->Ok_0.1,
                ),
            ),
        ),
{
    assert(defs.take(i + 1).drop_last() =~= defs.take(i));
    if resolve_groups(defs.take(i + 1), res, cg) is Err {
        lemma_groups_error_stays(defs, res, cg, i + 1);
    }
}

/// The layout entry and bind-group entries of one `(binding, id)` pair.
fn entry_for(binding: u32, id: &String, res: &Vec<(String, ResourceBacking)>) -> (r: (
    BindGroupLayoutEntry,
    Vec<BindGroupEntry>,
))
    requires
        find_resource(table_view(res@), id@) matches Some(b) && entries_of(b, binding) is Some,
    ensures
        find_resource(table_view(res@), id@) matches Some(b) && r.0 == layout_entry_of(b, binding)
            && entries_of(b, binding) == Some(r.1@),
{
    let backing = lookup_resource(res, id).unwrap();
    (backing.get_bind_group_layout_entry(binding), backing.get_bind_group_entries(binding))
}

#[verifier::rlimit(30)]
fn compile_entries(es: &Vec<(u32, String)>, res: &Vec<(String, ResourceBacking)>) -> (r: (
    Vec<BindGroupLayoutEntry>,
    Vec<BindGroupEntry>,
))
    requires
        resolve_entries(named_view(es@), table_view(res@)) is Ok,
    ensures
        resolve_entries(named_view(es@), table_view(res@)) == Ok::<
            (Seq<BindGroupLayoutEntry>, Seq<BindGroupEntry>),
            ConfigErrorView,
        >((r.0@, r.1@)),
{
    let ghost ev = named_view(es@);
    let ghost rv = table_view(res@);
    let mut ls: Vec<BindGroupLayoutEntry> = Vec::new();
    let mut bs: Vec<BindGroupEntry> = Vec::new();
    let mut i: usize = 0;
    assert(ev.take(0) =~= Seq::<(u32, Seq<char>)>::empty());
    while i < es.len()
        invariant
            i <= es.len(),
            ev == named_view(es@),
            rv == table_view(res@),
            resolve_entries(ev, rv) is Ok,
            resolve_entries(ev.take(i as int), rv) == Ok::<
                (Seq<BindGroupLayoutEntry>, Seq<BindGroupEntry>),
                ConfigErrorView,
            >((ls@, bs@)),
        decreases es.len() - i,
    {
        proof {
            lemma_entries_step(ev, rv, i as int);
        }
        let (binding, id) = (es[i].0, &es[i].1);
        assert(ev[i as int] == (binding, id@));
        let (l, more) = entry_for(binding, id, res);
        ls.push(l);
        extend_entries(&mut bs, &more);
        i = i + 1;
    }
    assert(ev.take(es.len() as int) =~= ev);
    (ls, bs)
}

fn compile_group(
    slot: u32,
    def: &BindGroupDef,
    res: &Vec<(String, ResourceBacking)>,
    custom_groups: &Vec<String>,
) -> (r: ((u32, WmBindGroup), LayoutSource))
    requires
        resolve_group(slot, def@, table_view(res@), custom_groups@.map_values(|s: String| s@)) is Ok,
    ensures
        resolve_group(slot, def@, table_view(res@), custom_groups@.map_values(|s: String| s@))
            == Ok::<((u32, WmBindGroupView), LayoutView), ConfigErrorView>(
            ((r.0.0, r.0.1@), r.1@),
        ),
{
    match def {
        BindGroupDef::Entries(es) => {
            let (ls, bs) = compile_entries(es, res);
            ((slot, WmBindGroup::Custom(bs)), LayoutSource::Entries(ls))
        },
        BindGroupDef::Resource(n) => {
            if is_text(n, "@bg_ssbo_chunks") {
                ((slot, WmBindGroup::Resource(n.clone())), LayoutSource::Builtin(BuiltinLayout::ChunkStorage))
            } else if is_text(n, "@bg_entity") {
                ((slot, WmBindGroup::Resource(n.clone())), LayoutSource::Builtin(BuiltinLayout::Entity))
            } else {
                let i = find_name(custom_groups, n).unwrap();
                ((slot, WmBindGroup::Resource(n.clone())), LayoutSource::Custom(i))
            }
        },
    }
}

fn compile_groups(
    defs: &Vec<(u32, BindGroupDef)>,
    res: &Vec<(String, ResourceBacking)>,
    custom_groups: &Vec<String>,
) -> (r: (Vec<(u32, WmBindGroup)>, Vec<LayoutSource>))
    requires
        resolve_groups(
            defs@.map_values(|e: (u32, BindGroupDef)| (e.0, e.1@)),
            table_view(res@),
            custom_groups@.map_values(|s: String| s@),
        ) is Ok,
    ensures
        resolve_groups(
            defs@.map_values(|e: (u32, BindGroupDef)| (e.0, e.1@)),
            table_view(res@),
            custom_groups@.map_values(|s: String| s@),
        ) == Ok::<(Seq<(u32, WmBindGroupView)>, Seq<LayoutView>), ConfigErrorView>(
            (groups_view(r.0@), layouts_view(r.1@)),
        ),
{
    let ghost dv = defs@.map_values(|e: (u32, BindGroupDef)| (e.0, e.1@));
    let ghost rv = table_view(res@);
    let ghost cv = custom_groups@.map_values(|s: String| s@);
    let mut gs: Vec<(u32, WmBindGroup)> = Vec::new();
    let mut ls: Vec<LayoutSource> = Vec::new();
    let mut i: usize = 0;
    assert(dv.take(0) =~= Seq::<(u32, BindGroupDefView)>::empty());
    assert(groups_view(gs@) =~= Seq::<(u32, WmBindGroupView)>::empty());
    assert(layouts_view(ls@) =~= Seq::<LayoutView>::empty());
    while i < defs.len()
        invariant
            i <= defs.len(),
            dv == defs@.map_values(|e: (u32, BindGroupDef)| (e.0, e.1@)),
            rv == table_view(res@),
            cv == custom_groups@.map_values(|s: String| s@),
            resolve_groups(dv, rv, cv) is Ok,
            resolve_groups(dv.take(i as int), rv, cv) == Ok::<
                (Seq<(u32, WmBindGroupView)>, Seq<LayoutView>),
                ConfigErrorView,
            >((groups_view(gs@), layouts_view(ls@))),
        decreases defs.len() - i,
    {
        proof {
            lemma_groups_step(dv, rv, cv, i as int);
        }
        assert(dv[i as int] == (defs@[i as int].0, defs@[i as int].1@));
        let (g, l) = compile_group(defs[i].0, &defs[i].1, res, custom_groups);
        let ghost gv = (g.0, g.1@);
        let ghost lv = l@;
        let ghost gs0 = gs@;
        let ghost ls0 = ls@;
        gs.push(g);
        ls.push(l);
        assert(groups_view(gs@) =~= groups_view(gs0).push(gv));
        assert(layouts_view(ls@) =~= layouts_view(ls0).push(lv));
        i = i + 1;
    }
    assert(dv.take(defs.len() as int) =~= dv);
    (gs, ls)
}

fn compile_push_constants(pcs: &Vec<(u32, String)>) -> (r: Vec<PushConstantRange>)
    requires
        resolve_push_constants(named_view(pcs@)) is Ok,
    ensures
        resolve_push_constants(named_view(pcs@)) == Ok::<Seq<PushConstantRange>, ConfigErrorView>(
            r@,
        ),
{
    let ghost pv = named_view(pcs@);
    let mut rs: Vec<PushConstantRange> = Vec::new();
    let mut i: usize = 0;
    assert(pv.take(0) =~= Seq::<(u32, Seq<char>)>::empty());
    while i < pcs.len()
        invariant
            i <= pcs.len(),
            pv == named_view(pcs@),
            resolve_push_constants(pv) is Ok,
            resolve_push_constants(pv.take(i as int)) == Ok::<Seq<PushConstantRange>, ConfigErrorView>(
                rs@,
            ),
        decreases pcs.len() - i,
    {
        assert(pv.take(i as int + 1).drop_last() =~= pv.take(i as int));
        proof {
            if resolve_push_constants(pv.take(i as int + 1)) is Err {
                lemma_push_constants_error_stays(pv, i as int + 1);
            }
        }
        let offset = pcs[i].0;
        let (stages, size) = push_constant_size(&pcs[i].1).unwrap();
        rs.push(PushConstantRange { stages, start: offset, end: offset + size });
        i = i + 1;
    }
    assert(pv.take(pcs.len() as int) =~= pv);
    rs
}

/// Compiles the pipeline at position `index` of a shader pack, every name of
/// which resolves (see [`pipeline_error`]).
pub fn compile_pipeline_config(
    index: usize,
    pc: &PipelineConfig,
    res: &Vec<(String, ResourceBacking)>,
    custom_groups: &Vec<String>,
    custom_geometry: &Vec<String>,
) -> (r: BoundPipeline)
    requires
        compile_pipeline(
            index,
            pc@,
            table_view(res@),
            custom_groups@.map_values(|s: String| s@),
            custom_geometry@.map_values(|s: String| s@),
        ) is Ok,
    ensures
        compile_pipeline(
            index,
            pc@,
            table_view(res@),
            custom_groups@.map_values(|s: String| s@),
            custom_geometry@.map_values(|s: String| s@),
        ) == Ok::<BoundView, ConfigErrorView>(r@),
{
    reveal(compile_pipeline);
    let (bind_groups, layouts) = compile_groups(&pc.bind_groups, res, custom_groups);
    let push_constant_ranges = compile_push_constants(&pc.push_constants);
    let vertex_layout = vertex_layout_for(&pc.geometry, custom_geometry).unwrap();
    let blend = blend_preset(&pc.blending).unwrap();
    let depth = match &pc.depth {
        Some(_) => true,
        None => false,
    };
    BoundPipeline {
        config_index: index,
        bind_groups,
        layouts,
        push_constant_ranges,
        vertex_layout,
        blend,
        color_targets: pc.output.len(),
        depth,
    }
}

/// Inserting into a table with distinct keys keeps them distinct.
proof fn lemma_table_insert_distinct(t: Seq<(Seq<char>, BoundView)>, k: Seq<char>, v: BoundView)
    requires
        distinct_keys(t),
    ensures
        distinct_keys(table_insert(t, k, v)),
        table_insert(t, k, v).len() > 0 && table_insert(t, k, v).last().0 == k,
{
    let t2 = table_insert(t, k, v);
    if has_key(t, k) {
        let i = key_index(t, k);
        let r = t.remove(i);
        assert forall|a: int, b: int|
            0 <= a < t2.len() && 0 <= b < t2.len() && a != b implies t2[a].0 != t2[b].0 by {
            let ia = if a < i { a } else { a + 1 };
            let ib = if b < i { b } else { b + 1 };
            if a < r.len() && b < r.len() {
                assert(t2[a] == t[ia] && t2[b] == t[ib]);
            } else if a < r.len() {
                assert(t2[a] == t[ia]);
                assert(ia != i);
            } else {
                assert(t2[b] == t[ib]);
                assert(ib != i);
            }
        }
    } else {
        assert forall|a: int, b: int|
            0 <= a < t2.len() && 0 <= b < t2.len() && a != b implies t2[a].0 != t2[b].0 by {
            if a < t.len() && b < t.len() {
                assert(t2[a] == t[a] && t2[b] == t[b]);
            } else if a < t.len() {
                assert(t2[a] == t[a]);
            } else {
                assert(t2[b] == t[b]);
            }
        }
    }
}

proof fn lemma_compiled_keys_distinct(
    ps: Seq<(Seq<char>, PipelineConfigView)>,
    res: Seq<(Seq<char>, BackingView)>,
    cg: Seq<Seq<char>>,
    cgeo: Seq<Seq<char>>,
)
    ensures
        compile_all(ps, res, cg, cgeo) matches Ok(t) ==> distinct_keys(t),
    decreases ps.len(),
{
    if ps.len() > 0 {
        lemma_compiled_keys_distinct(ps.drop_last(), res, cg, cgeo);
        if let Ok(t) = compile_all(ps.drop_last(), res, cg, cgeo) {
            if let Ok(b) = compile_pipeline((ps.len() - 1) as usize, ps.last().1, res, cg, cgeo) {
                lemma_table_insert_distinct(t, ps.last().0, b);
            }
        }
    }
}

/// The resources that the compiler itself provides, ahead of the caller's.
pub open spec fn reserved_resources(block_atlas: u32, sampler: u32) -> Seq<(Seq<char>, BackingView)> {
    seq![
        ("@texture_block_atlas"@, BackingView::Texture2D(block_atlas)),
        ("@sampler"@, BackingView::Sampler(sampler)),
    ]
}

/// Registry entries for the 2-D textures a shader pack declares: each
/// requested id with the handle that the host loaded for it.
pub open spec fn texture_table(reqs: Seq<(Seq<char>, Seq<char>)>, handles: Seq<u32>) -> Seq<
    (Seq<char>, BackingView),
> {
    Seq::new(reqs.len(), |i: int| (reqs[i].0, BackingView::Texture2D(handles[i])))
}

impl ShaderPackConfig {
    /// The registry entries of the declared 2-D textures, in declaration
    /// order; `handles[i]` is the handle of the `i`-th texture of
    /// [`ShaderPackConfig::texture_sources`].
    pub fn texture_entries(&self, handles: &Vec<u32>) -> (r: Vec<(String, ResourceBacking)>)
        requires
            handles.len() == texture_requests(self.resources@).len(),
        ensures
            table_view(r@) == texture_table(texture_requests(self.resources@), handles@),
    {
        let sources = self.texture_sources();
        let ghost reqs = texture_requests(self.resources@);
        assert(sources@.len() == reqs.len());
        let mut r: Vec<(String, ResourceBacking)> = Vec::new();
        let mut i: usize = 0;
        while i < sources.len()
            invariant
                i <= sources.len(),
                sources@.len() == reqs.len(),
                handles.len() == reqs.len(),
                sources@.map_values(|e: (String, String)| (e.0@, e.1@)) == reqs,
                table_view(r@) == texture_table(reqs, handles@).take(i as int),
            decreases sources.len() - i,
        {
            let ghost before = table_view(r@);
            assert(sources@.map_values(|e: (String, String)| (e.0@, e.1@))[i as int] == reqs[i as int]);
            let ghost item = (reqs[i as int].0, BackingView::Texture2D(handles@[i as int]));
            r.push((sources[i].0.clone(), ResourceBacking::Texture2D(handles[i])));
            assert(table_view(r@) =~= before.push(item));
            assert(texture_table(reqs, handles@).take(i as int + 1) =~= texture_table(reqs, handles@).take(
                i as int,
            ).push(item));
            i = i + 1;
        }
        assert(texture_table(reqs, handles@).take(sources.len() as int) =~= texture_table(
            reqs,
            handles@,
        ));
        r
    }
}

/// Compiles every pipeline of a shader pack against a registry, in order,
/// where every name resolves (see [`pack_error`]).
pub fn create_pipelines(
    config: &ShaderPackConfig,
    registry: &Vec<(String, ResourceBacking)>,
    custom_bind_groups: &Vec<String>,
    custom_geometry: &Vec<String>,
) -> (m: LinkedHashMap<String, BoundPipeline>)
    requires
        compile_all(
            pipelines_view(config.pipelines@),
            table_view(registry@),
            custom_bind_groups@.map_values(|s: String| s@),
            custom_geometry@.map_values(|s: String| s@),
        ) is Ok,
    ensures
        compile_all(
            pipelines_view(config.pipelines@),
            table_view(registry@),
            custom_bind_groups@.map_values(|s: String| s@),
            custom_geometry@.map_values(|s: String| s@),
        ) == Ok::<Seq<(Seq<char>, BoundView)>, ConfigErrorView>(pipeline_table(m)),
{
    let ghost ps = pipelines_view(config.pipelines@);
    let ghost rv = table_view(registry@);
    let ghost cg = custom_bind_groups@.map_values(|s: String| s@);
    let ghost cgeo = custom_geometry@.map_values(|s: String| s@);
    let mut pipelines = new_pipeline_map();
    let mut i: usize = 0;
    assert(ps.take(0) =~= Seq::<(Seq<char>, PipelineConfigView)>::empty());
    while i < config.pipelines.len()
        invariant
            i <= config.pipelines.len(),
            ps == pipelines_view(config.pipelines@),
            rv == table_view(registry@),
            cg == custom_bind_groups@.map_values(|s: String| s@),
            cgeo == custom_geometry@.map_values(|s: String| s@),
            compile_all(ps, rv, cg, cgeo) is Ok,
            compile_all(ps.take(i as int), rv, cg, cgeo) == Ok::<
                Seq<(Seq<char>, BoundView)>,
                ConfigErrorView,
            >(pipeline_table(pipelines)),
        decreases config.pipelines.len() - i,
    {
        assert(ps.take(i as int + 1).drop_last() =~= ps.take(i as int));
        proof {
            if compile_all(ps.take(i as int + 1), rv, cg, cgeo) is Err {
                lemma_compile_error_stays(ps, rv, cg, cgeo, i as int + 1);
            }
            lemma_compiled_keys_distinct(ps.take(i as int), rv, cg, cgeo);
        }
        let entry = &config.pipelines[i];
        let b = compile_pipeline_config(i, &entry.1, registry, custom_bind_groups, custom_geometry);
        pipeline_insert(&mut pipelines, entry.0.clone(), b);
        i = i + 1;
    }
    assert(ps.take(config.pipelines.len() as int) =~= ps);
    pipelines
}

/// The compiled state: the shader pack, its pipelines by name in order, and
/// the resources they bind.
pub struct RenderGraph {
    pub config: ShaderPackConfig,
    pub pipelines: LinkedHashMap<String, BoundPipeline>,
    pub resources: Vec<(String, ResourceBacking)>,
}

/// The registry of a graph compiled from `config`: the reserved entries, the
/// declared 2-D textures with their loaded handles, then the given resources.
pub open spec fn registry_of(
    config: ShaderPackConfig,
    handles: Seq<u32>,
    given: Seq<(Seq<char>, BackingView)>,
    block_atlas: u32,
    sampler: u32,
) -> Seq<(Seq<char>, BackingView)> {
    reserved_resources(block_atlas, sampler) + texture_table(texture_requests(config.resources@), handles)
        + given
}

impl RenderGraph {
    /// Compiles a shader pack. The registry holds the block atlas and the
    /// default sampler first, then the declared 2-D textures with the handles
    /// the host loaded for them (`texture_handles`, in the order of
    /// [`ShaderPackConfig::texture_sources`]), then `resources`; each id
    /// resolves to its first entry. A pack with a name that cannot be resolved
    /// is refused with the first such name, taking pipelines in order;
    /// otherwise every pipeline is compiled.
    pub fn new(
        config: ShaderPackConfig,
        texture_handles: &Vec<u32>,
        resources: Vec<(String, ResourceBacking)>,
        block_atlas: u32,
        sampler: u32,
        custom_bind_groups: &Vec<String>,
        custom_geometry: &Vec<String>,
    ) -> (r: Result<RenderGraph, ConfigurationError>)
        requires
            texture_handles.len() == texture_requests(config.resources@).len(),
        ensures
            match r {
                Ok(g) => {
                    &&& g.well_formed()
                    &&& g.config == config
                    &&& table_view(g.resources@) == registry_of(
                        config,
                        texture_handles@,
                        table_view(resources@),
                        block_atlas,
                        sampler,
                    )
                    &&& compile_all(
                        pipelines_view(config.pipelines@),
                        table_view(g.resources@),
                        custom_bind_groups@.map_values(|s: String| s@),
                        custom_geometry@.map_values(|s: String| s@),
                    ) == Ok::<Seq<(Seq<char>, BoundView)>, ConfigErrorView>(pipeline_table(g.pipelines))
                },
                Err(e) => compile_all(
                    pipelines_view(config.pipelines@),
                    registry_of(config, texture_handles@, table_view(resources@), block_atlas, sampler),
                    custom_bind_groups@.map_values(|s: String| s@),
                    custom_geometry@.map_values(|s: String| s@),
                ) == Err::<Seq<(Seq<char>, BoundView)>, ConfigErrorView>(e@),
            },
    {
        let mut registry: Vec<(String, ResourceBacking)> = Vec::new();
        registry.push(("@texture_block_atlas".to_owned(), ResourceBacking::Texture2D(block_atlas)));
        registry.push(("@sampler".to_owned(), ResourceBacking::Sampler(sampler)));
        let ghost reserved = table_view(registry@);
        assert(reserved =~= reserved_resources(block_atlas, sampler));
        let mut textures = config.texture_entries(texture_handles);
        let ghost tex = table_view(textures@);
        registry.append(&mut textures);
        let mut given = resources;
        registry.append(&mut given);
        assert(table_view(registry@) =~= reserved_resources(block_atlas, sampler) + tex + table_view(
            resources@,
        ));
        match pack_error(&config, &registry, custom_bind_groups, custom_geometry) {
            Some(e) => {
                return Err(e);
            },
            None => {},
        }
        let pipelines = create_pipelines(&config, &registry, custom_bind_groups, custom_geometry);
        proof {
            lemma_compiled_indices(
                pipelines_view(config.pipelines@),
                table_view(registry@),
                custom_bind_groups@.map_values(|s: String| s@),
                custom_geometry@.map_values(|s: String| s@),
            );
        }
        Ok(RenderGraph { config, pipelines, resources: registry })
    }
}

pub open spec fn names_of<T>(t: Seq<(Seq<char>, T)>) -> Seq<Seq<char>> {
    t.map_values(|e: (Seq<char>, T)| e.0)
}

pub open spec fn resource_ids(t: Seq<(Seq<char>, BackingView)>) -> Seq<Seq<char>> {
    names_of(t)
}

proof fn lemma_insert_same_names(
    t1: Seq<(Seq<char>, BoundView)>,
    t2: Seq<(Seq<char>, BoundView)>,
    k: Seq<char>,
    v1: BoundView,
    v2: BoundView,
)
    requires
        distinct_keys(t1),
        distinct_keys(t2),
        names_of(t1) == names_of(t2),
    ensures
        names_of(table_insert(t1, k, v1)) == names_of(table_insert(t2, k, v2)),
{
    assert(t1.len() == names_of(t1).len() && t2.len() == names_of(t2).len());
    assert forall|j: int| 0 <= j < t1.len() implies t1[j].0 == t2[j].0 by {
        assert(names_of(t1)[j] == names_of(t2)[j]);
    }
    if has_key(t1, k) {
        let i1 = key_index(t1, k);
        assert(t2[i1].0 == k);
        let i2 = key_index(t2, k);
        assert(i1 == i2);
        assert(names_of(table_insert(t1, k, v1)) =~= names_of(table_insert(t2, k, v2)));
    } else {
        assert(!has_key(t2, k)) by {
            if has_key(t2, k) {
                let j = choose|j: int| 0 <= j < t2.len() && t2[j].0 == k;
                assert(t1[j].0 == k);
            }
        }
        assert(names_of(table_insert(t1, k, v1)) =~= names_of(table_insert(t2, k, v2)));
    }
}

/// Compiling one shader pack twice, even against registries whose handles or
/// custom layouts differ, gives the same pipeline names in the same order,
/// where both compilations succeed.
pub proof fn lemma_recompile_same_pipeline_names(
    ps: Seq<(Seq<char>, PipelineConfigView)>,
    res1: Seq<(Seq<char>, BackingView)>,
    res2: Seq<(Seq<char>, BackingView)>,
    cg1: Seq<Seq<char>>,
    cg2: Seq<Seq<char>>,
    cgeo1: Seq<Seq<char>>,
    cgeo2: Seq<Seq<char>>,
)
    requires
        compile_all(ps, res1, cg1, cgeo1) is Ok,
        compile_all(ps, res2, cg2, cgeo2) is Ok,
    ensures
        names_of(compile_all(ps, res1, cg1, cgeo1)->Ok_0) == names_of(
            compile_all(ps, res2, cg2, cgeo2)->Ok_0,
        ),
    decreases ps.len(),
{
    if ps.len() == 0 {
    } else {
        let pre = ps.drop_last();
        lemma_recompile_same_pipeline_names(pre, res1, res2, cg1, cg2, cgeo1, cgeo2);
        lemma_compiled_keys_distinct(pre, res1, cg1, cgeo1);
        lemma_compiled_keys_distinct(pre, res2, cg2, cgeo2);
        let t1 = compile_all(pre, res1, cg1, cgeo1)->Ok_0;
        let t2 = compile_all(pre, res2, cg2, cgeo2)->Ok_0;
        let b1 = compile_pipeline((ps.len() - 1) as usize, ps.last().1, res1, cg1, cgeo1)->Ok_0;
        let b2 = compile_pipeline((ps.len() - 1) as usize, ps.last().1, res2, cg2, cgeo2)->Ok_0;
        lemma_insert_same_names(t1, t2, ps.last().0, b1, b2);
    }
}

/// The registry of a compiled graph holds the reserved ids and then the ids it
/// was given, whatever the handles; two graphs compiled from the same resource
/// ids hold the same ids.
pub proof fn lemma_recompile_same_resource_ids(
    given1: Seq<(Seq<char>, BackingView)>,
    given2: Seq<(Seq<char>, BackingView)>,
    atlas1: u32,
    atlas2: u32,
    sampler1: u32,
    sampler2: u32,
)
    requires
        resource_ids(given1) == resource_ids(given2),
    ensures
        resource_ids(reserved_resources(atlas1, sampler1) + given1) == resource_ids(
            reserved_resources(atlas2, sampler2) + given2,
        ),
{
    assert(resource_ids(reserved_resources(atlas1, sampler1) + given1) =~= resource_ids(
        reserved_resources(atlas2, sampler2) + given2,
    )) by {
        assert(given1.len() == resource_ids(given1).len());
        assert(given2.len() == resource_ids(given2).len());
        assert forall|j: int| 0 <= j < given1.len() implies given1[j].0 == given2[j].0 by {
            assert(resource_ids(given1)[j] == resource_ids(given2)[j]);
        }
    }
}

/// Each compiled pipeline points at a configuration of the shader pack.
pub open spec fn indices_in(t: Seq<(Seq<char>, BoundView)>, n: int) -> bool {
    forall|j: int| 0 <= j < t.len() ==> #[trigger] t[j].1.config_index < n
}

proof fn lemma_compiled_indices(
    ps: Seq<(Seq<char>, PipelineConfigView)>,
    res: Seq<(Seq<char>, BackingView)>,
    cg: Seq<Seq<char>>,
    cgeo: Seq<Seq<char>>,
)
    ensures
        compile_all(ps, res, cg, cgeo) matches Ok(t) ==> indices_in(t, ps.len() as int),
    decreases ps.len(),
{
    reveal(compile_pipeline);
    if ps.len() > 0 {
        lemma_compiled_indices(ps.drop_last(), res, cg, cgeo);
        lemma_compiled_keys_distinct(ps.drop_last(), res, cg, cgeo);
        if let Ok(t) = compile_all(ps.drop_last(), res, cg, cgeo) {
            if let Ok(b) = compile_pipeline((ps.len() - 1) as usize, ps.last().1, res, cg, cgeo) {
                let t2 = table_insert(t, ps.last().0, b);
                assert forall|j: int| 0 <= j < t2.len() implies #[trigger] t2[j].1.config_index
                    < ps.len() by {
                    if has_key(t, ps.last().0) {
                        let i = key_index(t, ps.last().0);
                        if j < t2.len() - 1 {
                            if j < i {
                                assert(t2[j] == t[j]);
                            } else {
                                assert(t2[j] == t[j + 1]);
                            }
                        }
                    } else {
                        if j < t.len() {
                            assert(t2[j] == t[j]);
                        }
                    }
                }
            }
        }
    }
}

impl RenderGraph {
    /// Every compiled pipeline points at a configuration of the shader pack.
    pub open spec fn well_formed(&self) -> bool {
        indices_in(pipeline_table(self.pipelines), self.config.pipelines.len() as int)
    }
}

} // verus!
