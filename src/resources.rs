//! Resource backings of a render graph and the bind-group descriptions they
//! give. GPU objects are named by integer handles that the host owns.

use vstd::prelude::*;

verus! {

/// Shader stages that see a binding or a push constant.
#[derive(Clone, Copy, Debug, PartialEq, Eq, Structural)]
pub enum ShaderStages {
    Vertex,
    Fragment,
    All,
}

#[derive(Clone, Copy, Debug, PartialEq, Eq, Structural)]
pub enum BufferBindingType {
    Uniform,
    Storage { read_only: bool },
}

/// A live GPU resource that a graph binds.
pub enum ResourceBacking {
    Buffer(u32, BufferBindingType),
    BufferArray(Vec<u32>),
    Texture2D(u32),
    Sampler(u32),
}

pub enum BackingView {
    Buffer(u32, BufferBindingType),
    BufferArray(Seq<u32>),
    Texture2D(u32),
    Sampler(u32),
}

impl View for ResourceBacking {
    type V = BackingView;

    open spec fn view(&self) -> BackingView {
        match self {
            ResourceBacking::Buffer(h, t) => BackingView::Buffer(*h, *t),
            ResourceBacking::BufferArray(hs) => BackingView::BufferArray(hs@),
            ResourceBacking::Texture2D(h) => BackingView::Texture2D(*h),
            ResourceBacking::Sampler(h) => BackingView::Sampler(*h),
        }
    }
}

/// What kind of resource a bind-group layout slot takes.
#[derive(Clone, Copy, Debug, PartialEq, Eq, Structural)]
pub enum BindingType {
    Buffer(BufferBindingType),
    /// A 2-D float texture read without filtering.
    Texture2D,
    /// A non-filtering sampler.
    Sampler,
}

#[derive(Clone, Copy, Debug, PartialEq, Eq, Structural)]
pub struct BindGroupLayoutEntry {
    pub binding: u32,
    pub visibility: ShaderStages,
    pub ty: BindingType,
}

#[derive(Clone, Copy, Debug, PartialEq, Eq, Structural)]
pub enum BindingResource {
    Buffer(u32),
    TextureView(u32),
    Sampler(u32),
}

#[derive(Clone, Copy, Debug, PartialEq, Eq, Structural)]
pub struct BindGroupEntry {
    pub binding: u32,
    pub resource: BindingResource,
}

/// The layout entry that a backing takes at `binding`: buffers are seen by all
/// stages, a buffer array as one read-only storage buffer, textures and
/// samplers by the fragment stage.
pub open spec fn layout_entry_of(b: BackingView, binding: u32) -> BindGroupLayoutEntry {
    match b {
        BackingView::Buffer(_, t) => BindGroupLayoutEntry {
            binding,
            visibility: ShaderStages::All,
            ty: BindingType::Buffer(t),
        },
        BackingView::BufferArray(_) => BindGroupLayoutEntry {
            binding,
            visibility: ShaderStages::All,
            ty: BindingType::Buffer(BufferBindingType::Storage { read_only: true }),
        },
        BackingView::Texture2D(_) => BindGroupLayoutEntry {
            binding,
            visibility: ShaderStages::Fragment,
            ty: BindingType::Texture2D,
        },
        BackingView::Sampler(_) => BindGroupLayoutEntry {
            binding,
            visibility: ShaderStages::Fragment,
            ty: BindingType::Sampler,
        },
    }
}

/// The bind-group entries of a backing at `index`; a buffer array has no
/// single-slot form.
pub open spec fn entries_of(b: BackingView, index: u32) -> Option<Seq<BindGroupEntry>> {
    match b {
        BackingView::Buffer(h, _) => Some(
            seq![BindGroupEntry { binding: index, resource: BindingResource::Buffer(h) }],
        ),
        BackingView::Texture2D(h) => Some(
            seq![BindGroupEntry { binding: index, resource: BindingResource::TextureView(h) }],
        ),
        BackingView::Sampler(h) => Some(
            seq![BindGroupEntry { binding: index, resource: BindingResource::Sampler(h) }],
        ),
        BackingView::BufferArray(_) => None,
    }
}

impl ResourceBacking {
    pub fn get_bind_group_layout_entry(&self, binding: u32) -> (r: BindGroupLayoutEntry)
        ensures
            r == layout_entry_of(self@, binding),
    {
        match self {
            ResourceBacking::Buffer(_, buffer_ty) => BindGroupLayoutEntry {
                binding,
                visibility: ShaderStages::All,
                ty: BindingType::Buffer(*buffer_ty),
            },
            ResourceBacking::BufferArray(_) => BindGroupLayoutEntry {
                binding,
                visibility: ShaderStages::All,
                ty: BindingType::Buffer(BufferBindingType::Storage { read_only: true }),
            },
            ResourceBacking::Texture2D(_) => BindGroupLayoutEntry {
                binding,
                visibility: ShaderStages::Fragment,
                ty: BindingType::Texture2D,
            },
            ResourceBacking::Sampler(_) => BindGroupLayoutEntry {
                binding,
                visibility: ShaderStages::Fragment,
                ty: BindingType::Sampler,
            },
        }
    }

    /// The bind-group entries at `index`; a buffer array has no single-slot
    /// form and is left out.
    pub fn get_bind_group_entries(&self, index: u32) -> (r: Vec<BindGroupEntry>)
        requires
            !(self@ is BufferArray),
        ensures
            entries_of(self@, index) == Some(r@),
    {
        let resource = match self {
            ResourceBacking::Buffer(h, _) => BindingResource::Buffer(*h),
            ResourceBacking::Texture2D(h) => BindingResource::TextureView(*h),
            ResourceBacking::Sampler(h) => BindingResource::Sampler(*h),
            ResourceBacking::BufferArray(_) => {
                assert(false);
                BindingResource::Buffer(0)
            },
        };
        let mut v: Vec<BindGroupEntry> = Vec::new();
        v.push(BindGroupEntry { binding: index, resource });
        assert(v@ =~= seq![BindGroupEntry { binding: index, resource }]);
        v
    }

    /// Whether the backing has a single-slot binding form.
    pub fn is_bindable(&self) -> (r: bool)
        ensures
            r == !(self@ is BufferArray),
    {
        match self {
            ResourceBacking::BufferArray(_) => false,
            _ => true,
        }
    }
}

/// The backing of the first entry named `id`.
pub open spec fn find_resource(t: Seq<(Seq<char>, BackingView)>, id: Seq<char>) -> Option<BackingView> {
    if exists|i: int| 0 <= i < t.len() && t[i].0 == id {
        let i = choose|i: int|
            0 <= i < t.len() && t[i].0 == id && forall|j: int| 0 <= j < i ==> t[j].0 != id;
        Some(t[i].1)
    } else {
        None
    }
}

pub open spec fn table_view(t: Seq<(String, ResourceBacking)>) -> Seq<(Seq<char>, BackingView)> {
    t.map_values(|e: (String, ResourceBacking)| (e.0@, e.1@))
}

/// The first entry named `id`.
pub fn lookup_resource<'a>(t: &'a Vec<(String, ResourceBacking)>, id: &String) -> (r: Option<
    &'a ResourceBacking,
>)
    ensures
        match r {
            Some(b) => find_resource(table_view(t@), id@) == Some(b@),
            None => find_resource(table_view(t@), id@) is None,
        },
{
    let ghost tv = table_view(t@);
    let mut i: usize = 0;
    while i < t.len()
        invariant
            i <= t.len(),
            tv == table_view(t@),
            forall|j: int| 0 <= j < i ==> tv[j].0 != id@,
        decreases t.len() - i,
    {
        if t[i].0.eq(id) {
            let ghost w = choose|k: int|
                0 <= k < tv.len() && tv[k].0 == id@ && forall|j: int| 0 <= j < k ==> tv[j].0 != id@;
            assert(0 <= i < tv.len() && tv[i as int].0 == id@ && forall|j: int|
                0 <= j < i ==> tv[j].0 != id@);
            assert(w == i as int) by {
                if w < i {
                } else if w > i {
                    assert(tv[i as int].0 != id@);
                }
            }
            return Some(&t[i].1);
        }
        i = i + 1;
    }
    None
}

} // verus!
