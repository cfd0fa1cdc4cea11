//! Block variant resolution: from a block and its state properties to a baked
//! mesh and a stable small handle.

use indexmap::IndexMap;
use std::sync::Arc;
use vstd::prelude::*;

use crate::mesh::{
    all_groups, append_groups, combined, CubeOrComplexMesh, MeshFaces, MeshView,
    ModelMesh,
};

verus! {

#[verifier::external_type_specification]
#[verifier::external_body]
#[verifier::reject_recursive_types(K)]
#[verifier::reject_recursive_types(V)]
#[verifier::reject_recursive_types(S)]
pub struct ExIndexMap<K, V, S>(IndexMap<K, V, S>);

/// Entries of a variant table, in insertion order: state key and candidate meshes.
pub uninterp spec fn variant_table(m: IndexMap<String, Vec<Arc<ModelMesh>>>) -> Seq<(Seq<char>, Seq<MeshView>)>;

/// Entries of a multipart mesh cache, in insertion order.
pub uninterp spec fn mesh_cache(m: IndexMap<String, Arc<ModelMesh>>) -> Seq<(Seq<char>, MeshView)>;

pub open spec fn mesh_views(v: Seq<Arc<ModelMesh>>) -> Seq<MeshView> {
    v.map_values(|a: Arc<ModelMesh>| a@)
}

/// Relies on `Arc::clone`: the new pointer refers to the same allocation.
#[verifier::external_body]
pub(crate) fn share_mesh(m: &Arc<ModelMesh>) -> (r: Arc<ModelMesh>)
    ensures
        r@ == m@,
{
    m.clone()
}

/// Relies on `IndexMap::get_full`: the position and value of the entry whose
/// key equals `key`, if there is one.
#[verifier::external_body]
fn variant_lookup<'a>(m: &'a IndexMap<String, Vec<Arc<ModelMesh>>>, key: &String) -> (r: Option<
    (usize, &'a Vec<Arc<ModelMesh>>),
>)
    ensures
        match r {
            Some((i, v)) => {
                &&& i < variant_table(*m).len()
                &&& forall|j: int|
                    0 <= j < variant_table(*m).len() ==> (variant_table(*m)[j].0 == key@ <==> j
                        == i)
                &&& mesh_views(v@) == variant_table(*m)[i as int].1
            },
            None => forall|j: int|
                0 <= j < variant_table(*m).len() ==> variant_table(*m)[j].0 != key@,
        },
{
    match m.get_full(key) {
        Some((i, _, v)) => Some((i, v)),
        None => None,
    }
}

/// Relies on `IndexMap::get_index`: the entry at position `i`, if `i` is below
/// the length.
#[verifier::external_body]
fn variant_at<'a>(m: &'a IndexMap<String, Vec<Arc<ModelMesh>>>, i: usize) -> (r: Option<
    &'a Vec<Arc<ModelMesh>>,
>)
    ensures
        match r {
            Some(v) => i < variant_table(*m).len() && mesh_views(v@) == variant_table(
                *m,
            )[i as int].1,
            None => i >= variant_table(*m).len(),
        },
{
    match m.get_index(i) {
        Some((_, v)) => Some(v),
        None => None,
    }
}

/// Relies on `IndexMap::get_full`: the position and value of the entry whose
/// key equals `key`, if there is one.
#[verifier::external_body]
fn cache_lookup<'a>(m: &'a IndexMap<String, Arc<ModelMesh>>, key: &String) -> (r: Option<
    (usize, &'a Arc<ModelMesh>),
>)
    ensures
        match r {
            Some((i, v)) => {
                &&& i < mesh_cache(*m).len()
                &&& forall|j: int|
                    0 <= j < mesh_cache(*m).len() ==> (mesh_cache(*m)[j].0 == key@ <==> j == i)
                &&& v@ == mesh_cache(*m)[i as int].1
            },
            None => forall|j: int| 0 <= j < mesh_cache(*m).len() ==> mesh_cache(*m)[j].0 != key@,
        },
{
    match m.get_full(key) {
        Some((i, _, v)) => Some((i, v)),
        None => None,
    }
}

/// Relies on `IndexMap::get_index`: the entry at position `i`, if `i` is below
/// the length.
#[verifier::external_body]
fn cache_at<'a>(m: &'a IndexMap<String, Arc<ModelMesh>>, i: usize) -> (r: Option<&'a Arc<ModelMesh>>)
    ensures
        match r {
            Some(v) => i < mesh_cache(*m).len() && v@ == mesh_cache(*m)[i as int].1,
            None => i >= mesh_cache(*m).len(),
        },
{
    match m.get_index(i) {
        Some((_, v)) => Some(v),
        None => None,
    }
}

/// Relies on `IndexMap::len`: the number of entries.
#[verifier::external_body]
fn cache_len(m: &IndexMap<String, Arc<ModelMesh>>) -> (r: usize)
    ensures
        r == mesh_cache(*m).len(),
{
    m.len()
}

/// Relies on `IndexMap::insert_full`: an equivalent key keeps its position and
/// its value is replaced; otherwise the pair goes last. Returns the position.
#[verifier::external_body]
fn cache_insert_full(m: &mut IndexMap<String, Arc<ModelMesh>>, key: String, mesh: Arc<ModelMesh>) -> (r:
    usize)
    ensures
        r <= mesh_cache(*old(m)).len(),
        r < mesh_cache(*old(m)).len() ==> forall|j: int|
            0 <= j < mesh_cache(*old(m)).len() ==> (mesh_cache(*old(m))[j].0 == key@ <==> j == r),
        r < mesh_cache(*old(m)).len() ==> mesh_cache(*final(m)) == mesh_cache(*old(m)).update(
            r as int,
            (key@, mesh@),
        ),
        r == mesh_cache(*old(m)).len() ==> forall|j: int|
            0 <= j < mesh_cache(*old(m)).len() ==> mesh_cache(*old(m))[j].0 != key@,
        r == mesh_cache(*old(m)).len() ==> mesh_cache(*final(m)) == mesh_cache(*old(m)).push(
            (key@, mesh@),
        ),
{
    m.insert_full(key, mesh).0
}

/// Value of one state property.
pub enum StateValue {
    Bool(bool),
    String(String),
}

pub enum StateValueView {
    Bool(bool),
    Str(Seq<char>),
}

impl View for StateValue {
    type V = StateValueView;

    open spec fn view(&self) -> StateValueView {
        match self {
            StateValue::Bool(b) => StateValueView::Bool(*b),
            StateValue::String(s) => StateValueView::Str(s@),
        }
    }
}

pub open spec fn value_text(v: StateValueView) -> Seq<char> {
    match v {
        StateValueView::Bool(true) => seq!['t', 'r', 'u', 'e'],
        StateValueView::Bool(false) => seq!['f', 'a', 'l', 's', 'e'],
        StateValueView::Str(s) => s,
    }
}

pub open spec fn props_view(p: Seq<(String, StateValue)>) -> Seq<(Seq<char>, StateValueView)> {
    p.map_values(|e: (String, StateValue)| (e.0@, e.1@))
}

/// `name=value` for one property.
pub open spec fn prop_text(p: (Seq<char>, StateValueView)) -> Seq<char> {
    p.0 + seq!['='] + value_text(p.1)
}

/// The canonical state key: `k=v` for each property, in the order given,
/// joined by commas.
pub open spec fn canonical_key(ps: Seq<(Seq<char>, StateValueView)>) -> Seq<char>
    decreases ps.len(),
{
    if ps.len() == 0 {
        Seq::empty()
    } else if ps.len() == 1 {
        prop_text(ps[0])
    } else {
        canonical_key(ps.drop_last()) + seq![','] + prop_text(ps.last())
    }
}

fn value_equals(a: &StateValue, b: &StateValue) -> (r: bool)
    ensures
        r == (a@ == b@),
{
    match (a, b) {
        (StateValue::Bool(x), StateValue::Bool(y)) => *x == *y,
        (StateValue::String(x), StateValue::String(y)) => x.eq(y),
        _ => false,
    }
}

/// Builds the canonical state key of `props`.
pub fn canonical_state_key(props: &Vec<(String, StateValue)>) -> (r: String)
    ensures
        r@ == canonical_key(props_view(props@)),
{
    let mut s = String::new();
    let mut i: usize = 0;
    while i < props.len()
        invariant
            i <= props.len(),
            s@ == canonical_key(props_view(props@).take(i as int)),
        decreases props.len() - i,
    {
        let ghost ps = props_view(props@);
        assert(ps.take(i as int + 1).drop_last() =~= ps.take(i as int));
        if i > 0 {
            s.append(",");
            proof {
                reveal_strlit(",");
            }
        }
        s.append(props[i].0.as_str());
        s.append("=");
        proof {
            reveal_strlit("=");
        }
        match &props[i].1 {
            StateValue::Bool(b) => {
                if *b {
                    s.append("true");
                    proof {
                        reveal_strlit("true");
                    }
                } else {
                    s.append("false");
                    proof {
                        reveal_strlit("false");
                    }
                }
            },
            StateValue::String(v) => {
                s.append(v.as_str());
            },
        }
        proof {
            if i == 0 {
                assert(s@ =~= prop_text(ps[0]));
            } else {
                assert(s@ =~= canonical_key(ps.take(i as int)) + seq![','] + prop_text(ps[i as int]));
            }
        }
        i = i + 1;
    }
    proof {
        assert(props_view(props@).take(props.len() as int) =~= props_view(props@));
    }
    s
}

/// One case of a multipart block: the meshes in `apply` are part of the block
/// when every `(name, value)` condition in `when` is among the state properties.
pub struct MultipartCase {
    pub when: Vec<(String, StateValue)>,
    pub apply: Vec<Arc<ModelMesh>>,
}

pub struct CaseView {
    pub when: Seq<(Seq<char>, StateValueView)>,
    pub apply: Seq<MeshView>,
}

impl View for MultipartCase {
    type V = CaseView;

    open spec fn view(&self) -> CaseView {
        CaseView { when: props_view(self.when@), apply: mesh_views(self.apply@) }
    }
}

pub open spec fn has_prop(
    ps: Seq<(Seq<char>, StateValueView)>,
    name: Seq<char>,
    value: StateValueView,
) -> bool {
    exists|k: int| 0 <= k < ps.len() && ps[k] == (name, value)
}

pub open spec fn case_applies(c: CaseView, ps: Seq<(Seq<char>, StateValueView)>) -> bool {
    forall|j: int| 0 <= j < c.when.len() ==> has_prop(ps, c.when[j].0, c.when[j].1)
}

/// The part meshes of every applying case, in case order.
pub open spec fn applied_parts(cases: Seq<CaseView>, ps: Seq<(Seq<char>, StateValueView)>) -> Seq<
    MeshView,
>
    decreases cases.len(),
{
    if cases.len() == 0 {
        Seq::empty()
    } else {
        applied_parts(cases.drop_last(), ps) + if case_applies(cases.last(), ps) {
            cases.last().apply
        } else {
            Seq::empty()
        }
    }
}

/// The mesh generated for a multipart block under the given properties.
pub open spec fn generated_mesh(cases: Seq<CaseView>, ps: Seq<(Seq<char>, StateValueView)>) -> MeshView {
    combined(applied_parts(cases, ps))
}

impl MultipartCase {
    /// Whether every condition of the case holds among `props`.
    pub fn applies(&self, props: &Vec<(String, StateValue)>) -> (r: bool)
        ensures
            r == case_applies(self@, props_view(props@)),
    {
        let ghost ps = props_view(props@);
        let mut j: usize = 0;
        while j < self.when.len()
            invariant
                j <= self.when.len(),
                ps == props_view(props@),
                forall|jj: int| 0 <= jj < j ==> has_prop(ps, self@.when[jj].0, self@.when[jj].1),
            decreases self.when.len() - j,
        {
            let mut found = false;
            let mut k: usize = 0;
            while k < props.len()
                invariant
                    j < self.when.len(),
                    k <= props.len(),
                    ps == props_view(props@),
                    found ==> has_prop(ps, self@.when[j as int].0, self@.when[j as int].1),
                    !found ==> forall|kk: int|
                        0 <= kk < k ==> ps[kk] != (self@.when[j as int].0, self@.when[j as int].1),
                decreases props.len() - k,
            {
                if props[k].0.eq(&self.when[j].0) && value_equals(&props[k].1, &self.when[j].1) {
                    assert(ps[k as int] == (self@.when[j as int].0, self@.when[j as int].1));
                    found = true;
                }
                k = k + 1;
            }
            if !found {
                assert(ps.len() == props@.len());
                assert(!has_prop(ps, self@.when[j as int].0, self@.when[j as int].1));
                return false;
            }
            j = j + 1;
        }
        true
    }
}

/// A block whose mesh is put together from cases, with a cache of the meshes
/// generated so far. A key's position in the cache is its handle.
pub struct Multipart {
    pub cases: Vec<MultipartCase>,
    pub keys: IndexMap<String, Arc<ModelMesh>>,
}

pub struct MultipartView {
    pub cases: Seq<CaseView>,
    pub cache: Seq<(Seq<char>, MeshView)>,
}

impl View for Multipart {
    type V = MultipartView;

    open spec fn view(&self) -> MultipartView {
        MultipartView {
            cases: self.cases@.map_values(|c: MultipartCase| c@),
            cache: mesh_cache(self.keys),
        }
    }
}

/// Errors of variant resolution.
#[derive(Clone, Copy, Debug, PartialEq, Eq, Structural)]
pub enum ResolveError {
    /// No variant has the requested state key.
    UnknownVariant,
    /// The variant exists but lists no mesh.
    EmptyVariant,
    /// The variant's position does not fit in a 16-bit handle.
    HandleOverflow,
}

pub const MAX_HANDLE: usize = 65535;

impl Multipart {
    /// Joins the part meshes of every case that applies to `props` into one mesh.
    pub fn generate_mesh(&self, props: &Vec<(String, StateValue)>) -> (r: Arc<ModelMesh>)
        ensures
            r@ == generated_mesh(self@.cases, props_view(props@)),
    {
        let ghost ps = props_view(props@);
        let ghost cases = self@.cases;
        let mut groups: Vec<MeshFaces> = Vec::new();
        let mut transparent = true;
        let ghost mut parts: Seq<MeshView> = Seq::empty();
        let mut i: usize = 0;
        while i < self.cases.len()
            invariant
                i <= self.cases.len(),
                ps == props_view(props@),
                cases == self@.cases,
                parts == applied_parts(cases.take(i as int), ps),
                groups@.map_values(|g: MeshFaces| g@) == all_groups(parts),
                transparent == (forall|k: int| 0 <= k < parts.len() ==> #[trigger] parts[k].transparent),
            decreases self.cases.len() - i,
        {
            assert(cases.take(i as int + 1).drop_last() =~= cases.take(i as int));
            let case = &self.cases[i];
            if case.applies(props) {
                let mut j: usize = 0;
                while j < case.apply.len()
                    invariant
                        i < self.cases.len(),
                        case == &self.cases[i as int],
                        j <= case.apply.len(),
                        parts == applied_parts(cases.take(i as int), ps) + case@.apply.take(j as int),
                        groups@.map_values(|g: MeshFaces| g@) == all_groups(parts),
                        transparent == (forall|k: int| 0 <= k < parts.len() ==> #[trigger] parts[k].transparent),
                    decreases case.apply.len() - j,
                {
                    let part: &ModelMesh = &case.apply[j];
                    append_groups(&mut groups, part);
                    transparent = transparent && part.transparent;
                    proof {
                        let next = parts.push(part@);
                        assert(next.drop_last() =~= parts);
                        assert(case@.apply.take(j as int + 1) =~= case@.apply.take(j as int).push(part@));
                        assert(applied_parts(cases.take(i as int), ps) + case@.apply.take(j as int + 1) =~= next);
                        if transparent {
                            assert forall|k: int| 0 <= k < next.len() implies #[trigger] next[k].transparent by {
                                if k < parts.len() {
                                    assert(next[k] == parts[k]);
                                }
                            }
                        } else {
                            if !part.transparent {
                                assert(!next[parts.len() as int].transparent);
                            } else {
                                let k = choose|k: int| 0 <= k < parts.len() && !#[trigger] parts[k].transparent;
                                assert(!next[k].transparent);
                            }
                        }
                        parts = next;
                    }
                    j = j + 1;
                }
                assert(case@.apply.take(case.apply.len() as int) =~= case@.apply);
            } else {
                assert(parts + Seq::<MeshView>::empty() =~= parts);
            }
            i = i + 1;
        }
        assert(cases.take(self.cases.len() as int) =~= cases);
        Arc::new(ModelMesh { shape: CubeOrComplexMesh::Complex(groups), transparent })
    }
}

/// Where the key `k` stands in a table of keyed entries.
pub open spec fn key_index<T>(t: Seq<(Seq<char>, T)>, k: Seq<char>) -> int {
    choose|i: int| 0 <= i < t.len() && t[i].0 == k
}

pub open spec fn has_key<T>(t: Seq<(Seq<char>, T)>, k: Seq<char>) -> bool {
    exists|i: int| 0 <= i < t.len() && t[i].0 == k
}

/// No key stands twice in the table.
pub open spec fn distinct_keys<T>(t: Seq<(Seq<char>, T)>) -> bool {
    forall|i: int, j: int| 0 <= i < t.len() && 0 <= j < t.len() && i != j ==> t[i].0 != t[j].0
}

/// The result of a lookup in a multipart cache: the mesh and handle of `k`.
pub open spec fn cache_hit(c: Seq<(Seq<char>, MeshView)>, k: Seq<char>) -> Result<
    (MeshView, u16),
    ResolveError,
> {
    let i = key_index(c, k);
    if i > MAX_HANDLE {
        Err(ResolveError::HandleOverflow)
    } else {
        Ok((c[i].1, i as u16))
    }
}

/// What storing a freshly generated `mesh` under `k` does to a cache, and what
/// it returns: the key keeps an existing handle, or takes the next one.
pub open spec fn store(c: Seq<(Seq<char>, MeshView)>, k: Seq<char>, mesh: MeshView) -> (
    Seq<(Seq<char>, MeshView)>,
    Result<u16, ResolveError>,
) {
    if has_key(c, k) {
        let i = key_index(c, k);
        if i > MAX_HANDLE {
            (c, Err(ResolveError::HandleOverflow))
        } else {
            (c.update(i, (k, mesh)), Ok(i as u16))
        }
    } else if c.len() > MAX_HANDLE {
        (c, Err(ResolveError::HandleOverflow))
    } else {
        (c.push((k, mesh)), Ok(c.len() as u16))
    }
}

impl Multipart {
    /// Looks `key` up among the meshes generated so far.
    pub fn cached(&self, key: &String) -> (r: Option<Result<(Arc<ModelMesh>, u16), ResolveError>>)
        ensures
            has_key(self@.cache, key@) <==> r is Some,
            r matches Some(res) ==> match res {
                Ok((m, h)) => cache_hit(self@.cache, key@) == Ok::<(MeshView, u16), ResolveError>((m@, h)),
                Err(e) => cache_hit(self@.cache, key@) == Err::<(MeshView, u16), ResolveError>(e),
            },
    {
        match cache_lookup(&self.keys, key) {
            Some((i, m)) => {
                assert(self@.cache[i as int].0 == key@);
                if i > MAX_HANDLE {
                    Some(Err(ResolveError::HandleOverflow))
                } else {
                    Some(Ok((share_mesh(m), i as u16)))
                }
            },
            None => None,
        }
    }

    /// Stores a generated mesh under `key` and returns the key's handle. Where
    /// the key is already cached (another caller generated it first), it keeps
    /// its handle and the mesh is replaced.
    pub fn store_mesh(&mut self, key: String, mesh: Arc<ModelMesh>) -> (r: Result<u16, ResolveError>)
        ensures
            final(self)@.cases == old(self)@.cases,
            (final(self)@.cache, r) == store(old(self)@.cache, key@, mesh@),
    {
        let ghost c = self@.cache;
        let ghost k = key@;
        let ghost mv = mesh@;
        match cache_lookup(&self.keys, &key) {
            Some((i, _)) => {
                assert(c[i as int].0 == k);
                if i > MAX_HANDLE {
                    return Err(ResolveError::HandleOverflow);
                }
            },
            None => {
                if cache_len(&self.keys) > MAX_HANDLE {
                    return Err(ResolveError::HandleOverflow);
                }
            },
        }
        let h = cache_insert_full(&mut self.keys, key, mesh);
        proof {
            if h < c.len() {
                assert(c[h as int].0 == k);
            }
        }
        Ok(h as u16)
    }
}

/// A block type: a table of pre-baked variants keyed by state key, or a
/// multipart block whose meshes are generated on demand.
pub enum Block {
    Multipart(Multipart),
    Variants(IndexMap<String, Vec<Arc<ModelMesh>>>),
}

pub enum BlockView {
    Multipart(MultipartView),
    Variants(Seq<(Seq<char>, Seq<MeshView>)>),
}

impl View for Block {
    type V = BlockView;

    open spec fn view(&self) -> BlockView {
        match self {
            Block::Multipart(m) => BlockView::Multipart(m@),
            Block::Variants(t) => BlockView::Variants(variant_table(*t)),
        }
    }
}

/// The mesh behind handle `h` of a block: the first candidate of the variant at
/// that position, or the cached multipart mesh there.
pub open spec fn model_at(b: BlockView, h: int) -> Option<MeshView> {
    match b {
        BlockView::Variants(t) => if 0 <= h < t.len() && t[h].1.len() > 0 {
            Some(t[h].1[0])
        } else {
            None
        },
        BlockView::Multipart(m) => if 0 <= h < m.cache.len() {
            Some(m.cache[h].1)
        } else {
            None
        },
    }
}

/// Resolution of state properties on a block: the block afterwards, and the
/// mesh and handle (or the error).
pub open spec fn resolve(b: BlockView, ps: Seq<(Seq<char>, StateValueView)>) -> (
    BlockView,
    Result<(MeshView, u16), ResolveError>,
) {
    let k = canonical_key(ps);
    match b {
        BlockView::Variants(t) => if !has_key(t, k) {
            (b, Err(ResolveError::UnknownVariant))
        } else {
            let i = key_index(t, k);
            if t[i].1.len() == 0 {
                (b, Err(ResolveError::EmptyVariant))
            } else if i > MAX_HANDLE {
                (b, Err(ResolveError::HandleOverflow))
            } else {
                (b, Ok((t[i].1[0], i as u16)))
            }
        },
        BlockView::Multipart(m) => if has_key(m.cache, k) {
            (b, cache_hit(m.cache, k))
        } else {
            let g = generated_mesh(m.cases, ps);
            let (c2, h) = store(m.cache, k, g);
            (
                BlockView::Multipart(MultipartView { cases: m.cases, cache: c2 }),
                match h {
                    Ok(h) => Ok((g, h)),
                    Err(e) => Err(e),
                },
            )
        },
    }
}

pub open spec fn result_view(r: Result<(Arc<ModelMesh>, u16), ResolveError>) -> Result<
    (MeshView, u16),
    ResolveError,
> {
    match r {
        Ok((m, h)) => Ok((m@, h)),
        Err(e) => Err(e),
    }
}

impl Block {
    /// The mesh behind handle `key`; the seed is reserved for weighted variant
    /// choice, and the first candidate is always taken.
    pub fn get_model(&self, key: u16, _seed: u8) -> (r: Arc<ModelMesh>)
        requires
            model_at(self@, key as int) is Some,
        ensures
            model_at(self@, key as int) == Some(r@),
    {
        match self {
            Block::Multipart(multipart) => share_mesh(cache_at(&multipart.keys, key as usize).unwrap()),
            Block::Variants(variants) => {
                let candidates = variant_at(variants, key as usize).unwrap();
                share_mesh(&candidates[0])
            },
        }
    }

    /// Whether handle `key` stands for a mesh: a variant with at least one
    /// candidate, or a cached multipart mesh.
    pub fn has_model(&self, key: u16) -> (r: bool)
        ensures
            r == model_at(self@, key as int) is Some,
    {
        match self {
            Block::Multipart(multipart) => (key as usize) < cache_len(&multipart.keys),
            Block::Variants(variants) => match variant_at(variants, key as usize) {
                Some(candidates) => candidates.len() > 0,
                None => false,
            },
        }
    }

    /// The read-only part of resolution: the result for a variant block, or
    /// for a multipart block whose cache holds the key; `None` where a
    /// multipart mesh still has to be generated and stored.
    pub fn resolve_cached(&self, props: &Vec<(String, StateValue)>) -> (r: Option<
        Result<(Arc<ModelMesh>, u16), ResolveError>,
    >)
        ensures
            r is None <==> (self@ is Multipart && !has_key(
                self@->Multipart_0.cache,
                canonical_key(props_view(props@)),
            )),
            r matches Some(res) ==> resolve(self@, props_view(props@)) == (self@, result_view(res)),
    {
        let key = canonical_state_key(props);
        match self {
            Block::Multipart(multipart) => multipart.cached(&key),
            Block::Variants(variants) => Some(
                match variant_lookup(variants, &key) {
                    None => Err(ResolveError::UnknownVariant),
                    Some((i, candidates)) => {
                        assert(variant_table(*variants)[i as int].0 == key@);
                        if candidates.len() == 0 {
                            Err(ResolveError::EmptyVariant)
                        } else if i > MAX_HANDLE {
                            Err(ResolveError::HandleOverflow)
                        } else {
                            Ok((share_mesh(&candidates[0]), i as u16))
                        }
                    },
                },
            ),
        }
    }

    /// Resolves state properties to a mesh and its handle. Variant blocks look
    /// the canonical key up in their table; multipart blocks return the cached
    /// mesh, or generate, cache and return it.
    pub fn get_model_by_key(&mut self, props: &Vec<(String, StateValue)>, _seed: u8) -> (r: Result<
        (Arc<ModelMesh>, u16),
        ResolveError,
    >)
        ensures
            (final(self)@, result_view(r)) == resolve(old(self)@, props_view(props@)),
    {
        match self.resolve_cached(props) {
            Some(res) => {
                return res;
            },
            None => {},
        }
        let key = canonical_state_key(props);
        match self {
            Block::Multipart(multipart) => {
                let mesh = multipart.generate_mesh(props);
                let shared = share_mesh(&mesh);
                match multipart.store_mesh(key, mesh) {
                    Ok(h) => Ok((shared, h)),
                    Err(e) => Err(e),
                }
            },
            Block::Variants(_) => Err(ResolveError::UnknownVariant),
        }
    }
}

/// Every block type that has been loaded, keyed by name; a block's position is
/// the `block` half of a [`crate::mesh::BlockstateKey`].
pub struct BlockManager {
    pub blocks: IndexMap<String, Block>,
}

/// Entries of the block table, in insertion order.
pub uninterp spec fn block_table(m: IndexMap<String, Block>) -> Seq<(Seq<char>, BlockView)>;

/// Relies on `IndexMap::get_index`: the entry at position `i`, if `i` is below
/// the length.
#[verifier::external_body]
fn block_at<'a>(m: &'a IndexMap<String, Block>, i: usize) -> (r: Option<&'a Block>)
    ensures
        match r {
            Some(b) => i < block_table(*m).len() && b@ == block_table(*m)[i as int].1,
            None => i >= block_table(*m).len(),
        },
{
    match m.get_index(i) {
        Some((_, b)) => Some(b),
        None => None,
    }
}

impl View for BlockManager {
    type V = Seq<(Seq<char>, BlockView)>;

    open spec fn view(&self) -> Seq<(Seq<char>, BlockView)> {
        block_table(self.blocks)
    }
}

/// The mesh that a cell state stands for: none for air or for a key that names
/// no loaded block or no mesh.
pub open spec fn state_model(
    blocks: Seq<(Seq<char>, BlockView)>,
    state: crate::mesh::ChunkBlockState,
) -> Option<MeshView> {
    match state {
        crate::mesh::ChunkBlockState::Air => None,
        crate::mesh::ChunkBlockState::State(k) => if (k.block as int) < blocks.len() {
            model_at(blocks[k.block as int].1, k.augment as int)
        } else {
            None
        },
    }
}

impl BlockManager {
    /// The block at position `i`.
    pub fn block(&self, i: usize) -> (r: Option<&Block>)
        ensures
            match r {
                Some(b) => i < self@.len() && b@ == self@[i as int].1,
                None => i >= self@.len(),
            },
    {
        block_at(&self.blocks, i)
    }
}

proof fn lemma_key_index_unique<T>(t: Seq<(Seq<char>, T)>, k: Seq<char>, i: int)
    requires
        distinct_keys(t),
        0 <= i < t.len(),
        t[i].0 == k,
    ensures
        key_index(t, k) == i,
{
}

/// Storing a key keeps every key of the cache once.
pub proof fn lemma_store_keeps_keys_distinct(
    c: Seq<(Seq<char>, MeshView)>,
    t: Seq<char>,
    m: MeshView,
)
    requires
        distinct_keys(c),
    ensures
        distinct_keys(store(c, t, m).0),
{
    let c2 = store(c, t, m).0;
    if has_key(c, t) {
        let i = key_index(c, t);
        assert forall|a: int, b: int|
            0 <= a < c2.len() && 0 <= b < c2.len() && a != b implies c2[a].0 != c2[b].0 by {
            if a != i && b != i {
                assert(c2[a] == c[a] && c2[b] == c[b]);
            } else if a == i {
                assert(c2[b] == c[b]);
            } else {
                assert(c2[a] == c[a]);
            }
        }
    } else if c.len() <= MAX_HANDLE {
        assert forall|a: int, b: int|
            0 <= a < c2.len() && 0 <= b < c2.len() && a != b implies c2[a].0 != c2[b].0 by {
            if a < c.len() && b < c.len() {
                assert(c2[a] == c[a] && c2[b] == c[b]);
            } else if a < c.len() {
                assert(c2[a] == c[a]);
            } else {
                assert(c2[b] == c[b]);
            }
        }
    }
}

/// A cached key keeps its handle: storing any key afterwards, the same one
/// again as a racing caller does or another one, leaves it where it was, and no
/// key ever stands at two positions.
pub proof fn lemma_cache_handle_stable(
    c: Seq<(Seq<char>, MeshView)>,
    k: Seq<char>,
    t: Seq<char>,
    m: MeshView,
)
    requires
        distinct_keys(c),
        has_key(c, k),
    ensures
        distinct_keys(store(c, t, m).0),
        has_key(store(c, t, m).0, k),
        key_index(store(c, t, m).0, k) == key_index(c, k),
{
    lemma_store_keeps_keys_distinct(c, t, m);
    let c2 = store(c, t, m).0;
    let i = key_index(c, k);
    assert(c2[i].0 == k);
    lemma_key_index_unique(c2, k, i);
}

/// Two callers that both missed the cache and both store a mesh for one key
/// receive the same handle.
pub proof fn lemma_racing_stores_agree(
    c: Seq<(Seq<char>, MeshView)>,
    k: Seq<char>,
    m1: MeshView,
    m2: MeshView,
)
    requires
        distinct_keys(c),
    ensures
        store(c, k, m1).1 is Ok ==> store(store(c, k, m1).0, k, m2).1 == store(c, k, m1).1,
{
    let (c1, h1) = store(c, k, m1);
    if h1 is Ok {
        lemma_store_keeps_keys_distinct(c, k, m1);
        if has_key(c, k) {
            let i = key_index(c, k);
            assert(c1[i].0 == k);
            lemma_key_index_unique(c1, k, i);
        } else {
            let i = c.len() as int;
            assert(c1[i].0 == k);
            lemma_key_index_unique(c1, k, i);
        }
    }
}

/// Resolving the same properties twice gives the same mesh and handle, and the
/// second resolution leaves the block as the first left it.
pub proof fn lemma_resolve_idempotent(b: BlockView, ps: Seq<(Seq<char>, StateValueView)>)
    ensures
        resolve(resolve(b, ps).0, ps) == resolve(b, ps),
{
    let k = canonical_key(ps);
    if let BlockView::Multipart(m) = b {
        if !has_key(m.cache, k) && m.cache.len() <= MAX_HANDLE {
            let g = generated_mesh(m.cases, ps);
            let c2 = m.cache.push((k, g));
            let i = m.cache.len() as int;
            assert(c2[i].0 == k);
            assert forall|j: int| 0 <= j < c2.len() && c2[j].0 == k implies j == i by {
                if j < i {
                    assert(c2[j] == m.cache[j]);
                }
            }
            assert(has_key(c2, k));
            assert(key_index(c2, k) == i);
        }
    }
}

} // verus!
