//! The chunk mesh baker: walks a chunk's cells and emits the vertices of every
//! visible face.

use std::sync::Arc;
use vstd::arithmetic::div_mod::{lemma_fundamental_div_mod, lemma_mod_mod};
use vstd::prelude::*;

use crate::block::{state_model, BlockManager, BlockView};
use crate::mesh::{
    face_or_empty, opt_view, BlockMeshVertex, BlockstateKey, ChunkBlockState, CubeOrComplexMesh,
    Direction, FacesView, MeshFaces, ModelMesh, ShapeView,
};

verus! {

/// Cells along x and along z.
pub const CHUNK_WIDTH: usize = 16;

/// Cells in one horizontal slice.
pub const CHUNK_AREA: usize = 256;

/// Cells along y.
pub const CHUNK_HEIGHT: usize = 384;

/// Cells in a chunk.
pub const CHUNK_VOLUME: usize = 98304;

/// Cells along y in one section.
pub const CHUNK_SECTION_HEIGHT: usize = 16;

/// Number of cells in one section.
pub const SECTION_VOLUME: usize = 4096;

/// Sections in a chunk.
pub const CHUNK_SECTIONS: usize = 24;

/// A chunk column, placed by its position in chunk-grid units.
pub struct Chunk {
    pub pos: [i32; 2],
}

impl Chunk {
    /// Every absolute coordinate of the chunk and of its neighbours fits in `i32`.
    pub open spec fn in_range(&self) -> bool {
        &&& self.pos[0] * 16 - 1 >= i32::MIN
        &&& self.pos[0] * 16 + 16 <= i32::MAX
        &&& self.pos[1] * 16 - 1 >= i32::MIN
        &&& self.pos[1] * 16 + 16 <= i32::MAX
    }
}

/// Source of cell states, queried in absolute coordinates, across chunk
/// borders too.
pub trait BlockStateProvider {
    spec fn state_at(&self, x: int, y: int, z: int) -> ChunkBlockState;

    spec fn section_reported_empty(&self, section: int) -> bool;

    fn get_state(&self, x: i32, y: i16, z: i32) -> (r: ChunkBlockState)
        ensures
            r == self.state_at(x as int, y as int, z as int),
    ;

    fn is_section_empty(&self, section: usize) -> (r: bool)
        ensures
            r == self.section_reported_empty(section as int),
    ;
}

/// One emitted vertex with the chunk-local cell it belongs to.
#[derive(Clone, Copy, Debug, PartialEq, Eq, Structural)]
pub struct BakedVertex {
    pub vertex: BlockMeshVertex,
    pub x: u32,
    pub y: u32,
    pub z: u32,
    pub key: BlockstateKey,
}

/// Column of cell `i` in scan order.
#[verifier::opaque]
pub open spec fn cell_x(i: int) -> int {
    i % 16
}

/// Height of cell `i` in scan order.
#[verifier::opaque]
pub open spec fn cell_y(i: int) -> int {
    i / 256
}

/// Row of cell `i` in scan order.
#[verifier::opaque]
pub open spec fn cell_z(i: int) -> int {
    (i % 256) / 16
}

/// The state of cell `i` of the chunk at (cx, cz).
pub open spec fn cell_state<P: BlockStateProvider>(p: P, cx: int, cz: int, i: int) -> ChunkBlockState {
    p.state_at(cx * 16 + cell_x(i), cell_y(i), cz * 16 + cell_z(i))
}

/// A face next to the cell at (x, y, z) is drawn unless that cell holds a mesh
/// that is not transparent; air, a cell outside the world and a state with no
/// mesh all leave it visible.
#[verifier::opaque]
pub open spec fn shows_through<P: BlockStateProvider>(
    blocks: Seq<(Seq<char>, BlockView)>,
    p: P,
    x: int,
    y: int,
    z: int,
) -> bool {
    match state_model(blocks, p.state_at(x, y, z)) {
        None => true,
        Some(m) => m.transparent,
    }
}

/// The face of the cell at (x, y, z) that looks in direction `d` can be seen.
pub open spec fn face_visible<P: BlockStateProvider>(
    blocks: Seq<(Seq<char>, BlockView)>,
    p: P,
    x: int,
    y: int,
    z: int,
    d: Direction,
) -> bool {
    shows_through(blocks, p, x + d.offset().0, y + d.offset().1, z + d.offset().2)
}

/// The records of one face list placed in a cell; nothing where the face is
/// hidden or undefined.
pub open spec fn face_records(
    face: Option<Seq<BlockMeshVertex>>,
    visible: bool,
    x: u32,
    y: u32,
    z: u32,
    key: BlockstateKey,
) -> Seq<BakedVertex> {
    if visible {
        face_or_empty(face).map_values(
            |v: BlockMeshVertex| BakedVertex { vertex: v, x: x, y: y, z: z, key: key },
        )
    } else {
        Seq::empty()
    }
}

/// The records of all six faces of a face group, drawn unconditionally.
pub open spec fn group_records(g: FacesView, x: u32, y: u32, z: u32, key: BlockstateKey) -> Seq<
    BakedVertex,
> {
    face_records(g.north, true, x, y, z, key) + face_records(g.east, true, x, y, z, key)
        + face_records(g.south, true, x, y, z, key) + face_records(g.west, true, x, y, z, key)
        + face_records(g.up, true, x, y, z, key) + face_records(g.down, true, x, y, z, key)
}

/// The records of several face groups, one after the other.
pub open spec fn groups_records(
    gs: Seq<FacesView>,
    x: u32,
    y: u32,
    z: u32,
    key: BlockstateKey,
) -> Seq<BakedVertex>
    decreases gs.len(),
{
    if gs.len() == 0 {
        Seq::empty()
    } else {
        groups_records(gs.drop_last(), x, y, z, key) + group_records(gs.last(), x, y, z, key)
    }
}

/// The vertices of a cube in cell `i`: each face that the mesh defines and
/// whose neighbour lets it show, in the order north, east, south, west, up,
/// down.
pub open spec fn cube_records<P: BlockStateProvider>(
    blocks: Seq<(Seq<char>, BlockView)>,
    p: P,
    cx: int,
    cz: int,
    i: int,
    f: FacesView,
    key: BlockstateKey,
) -> Seq<BakedVertex> {
    let (ax, y, az) = (cx * 16 + cell_x(i), cell_y(i), cz * 16 + cell_z(i));
    let (x, yy, z) = (cell_x(i) as u32, cell_y(i) as u32, cell_z(i) as u32);
    face_records(f.north, face_visible(blocks, p, ax, y, az, Direction::North), x, yy, z, key)
        + face_records(f.east, face_visible(blocks, p, ax, y, az, Direction::East), x, yy, z, key)
        + face_records(f.south, face_visible(blocks, p, ax, y, az, Direction::South), x, yy, z, key)
        + face_records(f.west, face_visible(blocks, p, ax, y, az, Direction::West), x, yy, z, key)
        + face_records(f.up, face_visible(blocks, p, ax, y, az, Direction::Up), x, yy, z, key)
        + face_records(f.down, face_visible(blocks, p, ax, y, az, Direction::Down), x, yy, z, key)
}

/// The vertices of the mesh that `key` stands for, placed in cell `i`: the
/// visible faces of a cube, every face group of complex geometry, nothing where
/// the key has no mesh.
pub open spec fn model_records<P: BlockStateProvider>(
    blocks: Seq<(Seq<char>, BlockView)>,
    p: P,
    cx: int,
    cz: int,
    i: int,
    key: BlockstateKey,
) -> Seq<BakedVertex> {
    match state_model(blocks, ChunkBlockState::State(key)) {
        None => Seq::empty(),
        Some(m) => match m.shape {
            ShapeView::Cube(f) => cube_records(blocks, p, cx, cz, i, f, key),
            ShapeView::Complex(gs) => groups_records(
                gs,
                cell_x(i) as u32,
                cell_y(i) as u32,
                cell_z(i) as u32,
                key,
            ),
        },
    }
}

/// The vertices emitted for cell `i`: nothing for air or for a state that the
/// filter rejects, else those of the state's mesh.
pub open spec fn cell_records<P: BlockStateProvider>(
    blocks: Seq<(Seq<char>, BlockView)>,
    p: P,
    accept: spec_fn(BlockstateKey) -> bool,
    cx: int,
    cz: int,
    i: int,
) -> Seq<BakedVertex> {
    match cell_state(p, cx, cz, i) {
        ChunkBlockState::Air => Seq::empty(),
        ChunkBlockState::State(key) => if !accept(key) {
            Seq::empty()
        } else {
            model_records(blocks, p, cx, cz, i, key)
        },
    }
}

/// Every cell from `i` on, one after the other.
pub open spec fn full_scan<P: BlockStateProvider>(
    blocks: Seq<(Seq<char>, BlockView)>,
    p: P,
    accept: spec_fn(BlockstateKey) -> bool,
    cx: int,
    cz: int,
    i: int,
) -> Seq<BakedVertex>
    decreases CHUNK_VOLUME - i,
{
    if i >= CHUNK_VOLUME {
        Seq::empty()
    } else {
        cell_records(blocks, p, accept, cx, cz, i) + full_scan(blocks, p, accept, cx, cz, i + 1)
    }
}

/// The scan from `i` on that jumps over each section the provider reports
/// empty.
pub open spec fn section_scan<P: BlockStateProvider>(
    blocks: Seq<(Seq<char>, BlockView)>,
    p: P,
    accept: spec_fn(BlockstateKey) -> bool,
    cx: int,
    cz: int,
    i: int,
) -> Seq<BakedVertex>
    decreases CHUNK_VOLUME - i,
{
    if i >= CHUNK_VOLUME {
        Seq::empty()
    } else if i % (SECTION_VOLUME as int) == 0 && p.section_reported_empty(i / (SECTION_VOLUME as int)) {
        section_scan(blocks, p, accept, cx, cz, i + SECTION_VOLUME)
    } else {
        cell_records(blocks, p, accept, cx, cz, i) + section_scan(blocks, p, accept, cx, cz, i + 1)
    }
}

/// The provider reports a section empty only where all its cells are air.
pub open spec fn sections_reported_truly<P: BlockStateProvider>(p: P, cx: int, cz: int) -> bool {
    forall|i: int|
        0 <= i < CHUNK_VOLUME && #[trigger] p.section_reported_empty(i / (SECTION_VOLUME as int))
            ==> cell_state(p, cx, cz, i) is Air
}

/// The filter answers each key one way only; `accepts` is that answer.
pub open spec fn filter_is_function<F: Fn(BlockstateKey) -> bool>(filter: F) -> bool {
    &&& forall|k: BlockstateKey| #[trigger] filter.requires((k,))
    &&& forall|k: BlockstateKey, a: bool, b: bool|
        filter.ensures((k,), a) && filter.ensures((k,), b) ==> a == b
}

pub open spec fn accepts<F: Fn(BlockstateKey) -> bool>(filter: F) -> spec_fn(BlockstateKey) -> bool {
    |k: BlockstateKey| filter.ensures((k,), true)
}

/// The mesh that a cell state stands for, if any.
pub fn get_block(block_manager: &BlockManager, state: ChunkBlockState) -> (r: Option<Arc<ModelMesh>>)
    ensures
        match r {
            Some(m) => state_model(block_manager@, state) == Some(m@),
            None => state_model(block_manager@, state) is None,
        },
{
    let key = match state {
        ChunkBlockState::Air => {
            return None;
        },
        ChunkBlockState::State(key) => key,
    };
    match block_manager.block(key.block as usize) {
        Some(block) => if block.has_model(key.augment) {
            Some(block.get_model(key.augment, 0))
        } else {
            None
        },
        None => None,
    }
}

fn shows_through_at<P: BlockStateProvider>(
    block_manager: &BlockManager,
    provider: &P,
    x: i32,
    y: i16,
    z: i32,
) -> (r: bool)
    ensures
        r == shows_through(block_manager@, *provider, x as int, y as int, z as int),
{
    reveal(shows_through);
    match get_block(block_manager, provider.get_state(x, y, z)) {
        Some(mesh) => mesh.transparent,
        None => true,
    }
}

fn push_face(
    out: &mut Vec<BakedVertex>,
    face: &Option<Vec<BlockMeshVertex>>,
    visible: bool,
    x: u32,
    y: u32,
    z: u32,
    key: BlockstateKey,
)
    ensures
        final(out)@ == old(out)@ + face_records(opt_view(*face), visible, x, y, z, key),
{
    if visible {
        match face {
            Some(vs) => {
                let ghost start = out@;
                let mut j: usize = 0;
                while j < vs.len()
                    invariant
                        j <= vs.len(),
                        out@ == start + face_records(Some(vs@.take(j as int)), true, x, y, z, key),
                    decreases vs.len() - j,
                {
                    out.push(BakedVertex { vertex: vs[j], x, y, z, key });
                    j = j + 1;
                    assert(out@ =~= start + face_records(Some(vs@.take(j as int)), true, x, y, z, key));
                }
                assert(vs@.take(vs.len() as int) =~= vs@);
            },
            None => {
                assert(out@ =~= old(out)@ + Seq::<BakedVertex>::empty());
            },
        }
    } else {
        assert(out@ =~= old(out)@ + Seq::<BakedVertex>::empty());
    }
}

fn push_groups(
    out: &mut Vec<BakedVertex>,
    groups: &Vec<MeshFaces>,
    x: u32,
    y: u32,
    z: u32,
    key: BlockstateKey,
)
    ensures
        final(out)@ == old(out)@ + groups_records(
            groups@.map_values(|g: MeshFaces| g@),
            x,
            y,
            z,
            key,
        ),
{
    let ghost gs = groups@.map_values(|g: MeshFaces| g@);
    let mut i: usize = 0;
    while i < groups.len()
        invariant
            i <= groups.len(),
            gs == groups@.map_values(|g: MeshFaces| g@),
            out@ == old(out)@ + groups_records(gs.take(i as int), x, y, z, key),
        decreases groups.len() - i,
    {
        let ghost before = out@;
        let g = &groups[i];
        push_face(out, &g.north, true, x, y, z, key);
        push_face(out, &g.east, true, x, y, z, key);
        push_face(out, &g.south, true, x, y, z, key);
        push_face(out, &g.west, true, x, y, z, key);
        push_face(out, &g.up, true, x, y, z, key);
        push_face(out, &g.down, true, x, y, z, key);
        assert(gs.take(i as int + 1).drop_last() =~= gs.take(i as int));
        assert(gs[i as int] == g@);
        assert(out@ =~= before + group_records(g@, x, y, z, key));
        i = i + 1;
        assert(out@ =~= old(out)@ + groups_records(gs.take(i as int), x, y, z, key));
    }
    assert(gs.take(groups.len() as int) =~= gs);
}

proof fn lemma_append_six<T>(
    o: Seq<T>,
    a: Seq<T>,
    b: Seq<T>,
    c: Seq<T>,
    d: Seq<T>,
    e: Seq<T>,
    f: Seq<T>,
)
    ensures
        o + a + b + c + d + e + f == o + (a + b + c + d + e + f),
{
    assert(o + a + b =~= o + (a + b));
    assert(o + (a + b) + c =~= o + (a + b + c));
    assert(o + (a + b + c) + d =~= o + (a + b + c + d));
    assert(o + (a + b + c + d) + e =~= o + (a + b + c + d + e));
    assert(o + (a + b + c + d + e) + f =~= o + (a + b + c + d + e + f));
}

/// The chunk-local coordinates of cell `i`.
fn cell_coords(i: usize) -> (r: (u32, u32, u32))
    requires
        i < CHUNK_VOLUME,
    ensures
        r.0 as int == cell_x(i as int) && r.0 < 16,
        r.1 as int == cell_y(i as int) && r.1 < 384,
        r.2 as int == cell_z(i as int) && r.2 < 16,
{
    reveal(cell_x);
    reveal(cell_y);
    reveal(cell_z);
    let x = i % CHUNK_WIDTH;
    let y = i / CHUNK_AREA;
    let z = (i % CHUNK_AREA) / CHUNK_WIDTH;
    assert(y < 384);
    assert(z < 16);
    (x as u32, y as u32, z as u32)
}

fn push_cube<P: BlockStateProvider>(
    block_manager: &BlockManager,
    chunk: &Chunk,
    provider: &P,
    i: usize,
    f: &MeshFaces,
    key: BlockstateKey,
    out: &mut Vec<BakedVertex>,
)
    requires
        chunk.in_range(),
        i < CHUNK_VOLUME,
    ensures
        final(out)@ == old(out)@ + cube_records(
            block_manager@,
            *provider,
            chunk.pos[0] as int,
            chunk.pos[1] as int,
            i as int,
            f@,
            key,
        ),
{
    let (x, y, z) = cell_coords(i);
    let ax = chunk.pos[0] * 16 + x as i32;
    let az = chunk.pos[1] * 16 + z as i32;
    let yy = y as i16;
    let north = shows_through_at(block_manager, provider, ax, yy, az - 1);
    let east = shows_through_at(block_manager, provider, ax + 1, yy, az);
    let south = shows_through_at(block_manager, provider, ax, yy, az + 1);
    let west = shows_through_at(block_manager, provider, ax - 1, yy, az);
    let up = shows_through_at(block_manager, provider, ax, yy + 1, az);
    let down = shows_through_at(block_manager, provider, ax, yy - 1, az);
    let ghost o = old(out)@;
    let ghost (gx, gy, gz) = (ax as int, y as int, az as int);
    assert(north == face_visible(block_manager@, *provider, gx, gy, gz, Direction::North));
    assert(east == face_visible(block_manager@, *provider, gx, gy, gz, Direction::East));
    assert(south == face_visible(block_manager@, *provider, gx, gy, gz, Direction::South));
    assert(west == face_visible(block_manager@, *provider, gx, gy, gz, Direction::West));
    assert(up == face_visible(block_manager@, *provider, gx, gy, gz, Direction::Up));
    assert(down == face_visible(block_manager@, *provider, gx, gy, gz, Direction::Down));
    let ghost fn_ = face_records(f@.north, north, x, y, z, key);
    let ghost fe = face_records(f@.east, east, x, y, z, key);
    let ghost fs = face_records(f@.south, south, x, y, z, key);
    let ghost fw = face_records(f@.west, west, x, y, z, key);
    let ghost fu = face_records(f@.up, up, x, y, z, key);
    let ghost fd = face_records(f@.down, down, x, y, z, key);
    push_face(out, &f.north, north, x, y, z, key);
    push_face(out, &f.east, east, x, y, z, key);
    push_face(out, &f.south, south, x, y, z, key);
    push_face(out, &f.west, west, x, y, z, key);
    push_face(out, &f.up, up, x, y, z, key);
    push_face(out, &f.down, down, x, y, z, key);
    proof {
        assert(out@ == o + fn_ + fe + fs + fw + fu + fd);
        lemma_append_six(o, fn_, fe, fs, fw, fu, fd);
        assert(fn_ + fe + fs + fw + fu + fd == cube_records(
            block_manager@,
            *provider,
            chunk.pos[0] as int,
            chunk.pos[1] as int,
            i as int,
            f@,
            key,
        ));
    }
}

fn bake_cell<P: BlockStateProvider>(
    block_manager: &BlockManager,
    chunk: &Chunk,
    provider: &P,
    i: usize,
    key: BlockstateKey,
    out: &mut Vec<BakedVertex>,
)
    requires
        chunk.in_range(),
        i < CHUNK_VOLUME,
    ensures
        final(out)@ == old(out)@ + model_records(
            block_manager@,
            *provider,
            chunk.pos[0] as int,
            chunk.pos[1] as int,
            i as int,
            key,
        ),
{
    match get_block(block_manager, ChunkBlockState::State(key)) {
        None => {
            assert(out@ =~= old(out)@ + Seq::<BakedVertex>::empty());
        },
        Some(mesh) => match &mesh.shape {
            CubeOrComplexMesh::Cube(f) => {
                push_cube(block_manager, chunk, provider, i, f, key, out);
            },
            CubeOrComplexMesh::Complex(gs) => {
                let (x, y, z) = cell_coords(i);
                push_groups(out, gs, x, y, z, key);
            },
        },
    }
}

/// Bakes a chunk into vertex records: every cell in scan order (x fastest,
/// then z, then y), jumping over the sections that the provider reports empty,
/// with the visible faces of each cell whose state the filter accepts.
pub fn bake_records<P: BlockStateProvider, F: Fn(BlockstateKey) -> bool>(
    block_manager: &BlockManager,
    chunk: &Chunk,
    filter: F,
    state_provider: &P,
) -> (r: Vec<BakedVertex>)
    requires
        chunk.in_range(),
        filter_is_function(filter),
    ensures
        r@ == section_scan(
            block_manager@,
            *state_provider,
            accepts(filter),
            chunk.pos[0] as int,
            chunk.pos[1] as int,
            0,
        ),
{
    let ghost blocks = block_manager@;
    let ghost p = *state_provider;
    let ghost cx = chunk.pos[0] as int;
    let ghost cz = chunk.pos[1] as int;
    let ghost accept = accepts(filter);
    let mut out: Vec<BakedVertex> = Vec::new();
    let mut block_index: usize = 0;
    while block_index < CHUNK_VOLUME
        invariant
            block_index <= CHUNK_VOLUME,
            chunk.in_range(),
            filter_is_function(filter),
            blocks == block_manager@,
            p == *state_provider,
            cx == chunk.pos[0] as int,
            cz == chunk.pos[1] as int,
            accept == accepts(filter),
            out@ + section_scan(blocks, p, accept, cx, cz, block_index as int) == section_scan(
                blocks,
                p,
                accept,
                cx,
                cz,
                0,
            ),
        decreases CHUNK_VOLUME - block_index,
    {
        if block_index % SECTION_VOLUME == 0 && state_provider.is_section_empty(
            block_index / SECTION_VOLUME,
        ) {
            assert(block_index + SECTION_VOLUME <= CHUNK_VOLUME);
            block_index = block_index + SECTION_VOLUME;
        } else {
            let ghost before = out@;
            let (x, y, z) = cell_coords(block_index);
            let absolute_x = chunk.pos[0] * 16 + x as i32;
            let absolute_z = chunk.pos[1] * 16 + z as i32;
            let state = state_provider.get_state(absolute_x, y as i16, absolute_z);
            match state {
                ChunkBlockState::Air => {
                    assert(out@ =~= before + Seq::<BakedVertex>::empty());
                },
                ChunkBlockState::State(key) => {
                    let keep = filter(key);
                    proof {
                        if !keep && accept(key) {
                            assert(filter.ensures((key,), true));
                        }
                    }
                    if keep {
                        bake_cell(block_manager, chunk, state_provider, block_index, key, &mut out);
                    } else {
                        assert(out@ =~= before + Seq::<BakedVertex>::empty());
                    }
                },
            }
            assert(out@ == before + cell_records(blocks, p, accept, cx, cz, block_index as int));
            assert(before + section_scan(blocks, p, accept, cx, cz, block_index as int) =~= out@
                + section_scan(blocks, p, accept, cx, cz, block_index as int + 1));
            block_index = block_index + 1;
        }
    }
    assert(out@ + Seq::<BakedVertex>::empty() =~= out@);
    out
}

/// `out` holds the mapper's result for each record of `records`, in order.
pub open spec fn mapped<T, M: Fn(BlockMeshVertex, u32, u32, u32, BlockstateKey) -> T>(
    mapper: M,
    records: Seq<BakedVertex>,
    out: Seq<T>,
) -> bool {
    &&& out.len() == records.len()
    &&& forall|i: int|
        0 <= i < out.len() ==> mapper.ensures(
            (records[i].vertex, records[i].x, records[i].y, records[i].z, records[i].key),
            #[trigger] out[i],
        )
}

/// Bakes a chunk: the vertex records of [`bake_records`], each handed to
/// `mapper` with its chunk-local cell and state key. Where the provider reports
/// empty only sections that hold nothing but air, the result is that of a scan
/// that visits every cell.
pub fn bake<
    T,
    P: BlockStateProvider,
    F: Fn(BlockstateKey) -> bool,
    M: Fn(BlockMeshVertex, u32, u32, u32, BlockstateKey) -> T,
>(block_manager: &BlockManager, chunk: &Chunk, mapper: M, filter: F, state_provider: &P) -> (r:
    Vec<T>)
    requires
        chunk.in_range(),
        filter_is_function(filter),
        forall|v: BlockMeshVertex, x: u32, y: u32, z: u32, k: BlockstateKey|
            #[trigger] mapper.requires((v, x, y, z, k)),
    ensures
        mapped(
            mapper,
            section_scan(
                block_manager@,
                *state_provider,
                accepts(filter),
                chunk.pos[0] as int,
                chunk.pos[1] as int,
                0,
            ),
            r@,
        ),
        sections_reported_truly(*state_provider, chunk.pos[0] as int, chunk.pos[1] as int)
            ==> mapped(
            mapper,
            full_scan(
                block_manager@,
                *state_provider,
                accepts(filter),
                chunk.pos[0] as int,
                chunk.pos[1] as int,
                0,
            ),
            r@,
        ),
{
    let ghost accept = accepts(filter);
    let records = bake_records(block_manager, chunk, filter, state_provider);
    let mut vertices: Vec<T> = Vec::new();
    let mut i: usize = 0;
    while i < records.len()
        invariant
            i <= records.len(),
            forall|v: BlockMeshVertex, x: u32, y: u32, z: u32, k: BlockstateKey|
                #[trigger] mapper.requires((v, x, y, z, k)),
            mapped(mapper, records@.take(i as int), vertices@),
        decreases records.len() - i,
    {
        let rec = records[i];
        let t = mapper(rec.vertex, rec.x, rec.y, rec.z, rec.key);
        vertices.push(t);
        i = i + 1;
        assert forall|j: int| 0 <= j < vertices@.len() implies mapper.ensures(
            (
                records@.take(i as int)[j].vertex,
                records@.take(i as int)[j].x,
                records@.take(i as int)[j].y,
                records@.take(i as int)[j].z,
                records@.take(i as int)[j].key,
            ),
            #[trigger] vertices@[j],
        ) by {
            if j < i - 1 {
                assert(records@.take(i as int)[j] == records@.take(i as int - 1)[j]);
            }
        }
    }
    assert(records@.take(records.len() as int) =~= records@);
    proof {
        if sections_reported_truly(*state_provider, chunk.pos[0] as int, chunk.pos[1] as int) {
            lemma_section_skip_matches_full_scan(
                block_manager@,
                *state_provider,
                accept,
                chunk.pos[0] as int,
                chunk.pos[1] as int,
            );
        }
    }
    vertices
}

proof fn lemma_section_arith(i: int, j: int)
    requires
        0 <= i < CHUNK_VOLUME,
        i % (SECTION_VOLUME as int) == 0,
        i <= j < i + SECTION_VOLUME,
    ensures
        j / (SECTION_VOLUME as int) == i / (SECTION_VOLUME as int),
        i + SECTION_VOLUME <= CHUNK_VOLUME,
{
    assert(j / 4096 == i / 4096 && i + 4096 <= 98304) by (nonlinear_arith)
        requires
            0 <= i < 98304,
            i % 4096 == 0,
            i <= j < i + 4096,
    ;
}

/// A run of air cells adds nothing to the scan.
proof fn lemma_air_run<P: BlockStateProvider>(
    blocks: Seq<(Seq<char>, BlockView)>,
    p: P,
    accept: spec_fn(BlockstateKey) -> bool,
    cx: int,
    cz: int,
    lo: int,
    hi: int,
)
    requires
        0 <= lo <= hi <= CHUNK_VOLUME,
        forall|j: int| lo <= j < hi ==> cell_state(p, cx, cz, j) is Air,
    ensures
        full_scan(blocks, p, accept, cx, cz, lo) == full_scan(blocks, p, accept, cx, cz, hi),
    decreases hi - lo,
{
    if lo < hi {
        lemma_air_run(blocks, p, accept, cx, cz, lo + 1, hi);
        assert(cell_records(blocks, p, accept, cx, cz, lo) == Seq::<BakedVertex>::empty());
        assert(full_scan(blocks, p, accept, cx, cz, lo) =~= full_scan(
            blocks,
            p,
            accept,
            cx,
            cz,
            lo + 1,
        ));
    }
}

proof fn lemma_section_scan_from<P: BlockStateProvider>(
    blocks: Seq<(Seq<char>, BlockView)>,
    p: P,
    accept: spec_fn(BlockstateKey) -> bool,
    cx: int,
    cz: int,
    i: int,
)
    requires
        0 <= i,
        sections_reported_truly(p, cx, cz),
    ensures
        section_scan(blocks, p, accept, cx, cz, i) == full_scan(blocks, p, accept, cx, cz, i),
    decreases CHUNK_VOLUME - i,
{
    if i < CHUNK_VOLUME {
        let sv = SECTION_VOLUME as int;
        if i % sv == 0 && p.section_reported_empty(i / sv) {
            lemma_section_scan_from(blocks, p, accept, cx, cz, i + sv);
            assert forall|j: int| i <= j < i + sv implies cell_state(p, cx, cz, j) is Air by {
                lemma_section_arith(i, j);
                assert(p.section_reported_empty(j / sv));
            }
            lemma_section_arith(i, i);
            lemma_air_run(blocks, p, accept, cx, cz, i, i + sv);
        } else {
            lemma_section_scan_from(blocks, p, accept, cx, cz, i + 1);
        }
    }
}

/// Jumping over the sections that the provider reports empty changes nothing,
/// where it reports empty only sections that hold nothing but air.
pub proof fn lemma_section_skip_matches_full_scan<P: BlockStateProvider>(
    blocks: Seq<(Seq<char>, BlockView)>,
    p: P,
    accept: spec_fn(BlockstateKey) -> bool,
    cx: int,
    cz: int,
)
    requires
        sections_reported_truly(p, cx, cz),
    ensures
        section_scan(blocks, p, accept, cx, cz, 0) == full_scan(blocks, p, accept, cx, cz, 0),
{
    lemma_section_scan_from(blocks, p, accept, cx, cz, 0);
}

proof fn lemma_air_section_scan<P: BlockStateProvider>(
    blocks: Seq<(Seq<char>, BlockView)>,
    p: P,
    accept: spec_fn(BlockstateKey) -> bool,
    cx: int,
    cz: int,
    i: int,
)
    requires
        0 <= i,
        forall|j: int| 0 <= j < CHUNK_VOLUME ==> cell_state(p, cx, cz, j) is Air,
    ensures
        section_scan(blocks, p, accept, cx, cz, i) == Seq::<BakedVertex>::empty(),
    decreases CHUNK_VOLUME - i,
{
    if i < CHUNK_VOLUME {
        let sv = SECTION_VOLUME as int;
        if i % sv == 0 && p.section_reported_empty(i / sv) {
            lemma_air_section_scan(blocks, p, accept, cx, cz, i + sv);
        } else {
            lemma_air_section_scan(blocks, p, accept, cx, cz, i + 1);
            assert(cell_records(blocks, p, accept, cx, cz, i) == Seq::<BakedVertex>::empty());
            assert(section_scan(blocks, p, accept, cx, cz, i) =~= Seq::<BakedVertex>::empty());
        }
    }
}

/// A chunk of air bakes to nothing, whatever the provider reports of its
/// sections.
pub proof fn lemma_air_chunk_bakes_nothing<P: BlockStateProvider>(
    blocks: Seq<(Seq<char>, BlockView)>,
    p: P,
    accept: spec_fn(BlockstateKey) -> bool,
    cx: int,
    cz: int,
)
    requires
        forall|j: int| 0 <= j < CHUNK_VOLUME ==> cell_state(p, cx, cz, j) is Air,
    ensures
        section_scan(blocks, p, accept, cx, cz, 0) == Seq::<BakedVertex>::empty(),
        full_scan(blocks, p, accept, cx, cz, 0) == Seq::<BakedVertex>::empty(),
{
    lemma_air_section_scan(blocks, p, accept, cx, cz, 0);
    lemma_air_run(blocks, p, accept, cx, cz, 0, CHUNK_VOLUME as int);
}

/// Two cubes side by side, each of whose meshes hides its neighbours: the
/// face that each turns to the other is drawn by neither.
pub proof fn lemma_shared_face_hidden<P: BlockStateProvider>(
    blocks: Seq<(Seq<char>, BlockView)>,
    p: P,
    x: int,
    y: int,
    z: int,
    d: Direction,
)
    requires
        state_model(blocks, p.state_at(x, y, z)) matches Some(m) && m.shape is Cube
            && !m.transparent,
        state_model(
            blocks,
            p.state_at(x + d.offset().0, y + d.offset().1, z + d.offset().2),
        ) matches Some(n) && n.shape is Cube && !n.transparent,
    ensures
        !face_visible(blocks, p, x, y, z, d),
        !face_visible(
            blocks,
            p,
            x + d.offset().0,
            y + d.offset().1,
            z + d.offset().2,
            d.opposite(),
        ),
{
    reveal(shows_through);
    let (dx, dy, dz) = d.offset();
    assert(x + dx + d.opposite().offset().0 == x);
    assert(y + dy + d.opposite().offset().1 == y);
    assert(z + dz + d.opposite().offset().2 == z);
}

/// Cell `i` sits at `256 * y + 16 * z + x`.
proof fn lemma_cell_index(i: int)
    requires
        0 <= i,
    ensures
        i == 256 * cell_y(i) + 16 * cell_z(i) + cell_x(i),
        0 <= cell_x(i) < 16,
        0 <= cell_z(i) < 16,
        0 <= cell_y(i),
{
    reveal(cell_x);
    reveal(cell_y);
    reveal(cell_z);
    lemma_fundamental_div_mod(i, 256);
    lemma_fundamental_div_mod(i % 256, 16);
    lemma_mod_mod(i, 16, 16);
}

/// The block position of cell `i` of the chunk at (cx, cz).
pub open spec fn cell_position(cx: int, cz: int, i: int) -> (int, int, int) {
    (cx * 16 + cell_x(i), cell_y(i), cz * 16 + cell_z(i))
}

/// A single cube in a world of air, whose mesh defines all six faces, bakes to
/// exactly its six faces, one after the other.
pub proof fn lemma_isolated_cube<P: BlockStateProvider>(
    blocks: Seq<(Seq<char>, BlockView)>,
    p: P,
    accept: spec_fn(BlockstateKey) -> bool,
    cx: int,
    cz: int,
    c: int,
    key: BlockstateKey,
    f: FacesView,
)
    requires
        0 <= c < CHUNK_VOLUME,
        cell_state(p, cx, cz, c) == ChunkBlockState::State(key),
        accept(key),
        state_model(blocks, ChunkBlockState::State(key)) matches Some(m) && m.shape == ShapeView::Cube(
            f,
        ),
        f.north is Some && f.east is Some && f.south is Some && f.west is Some && f.up is Some
            && f.down is Some,
        forall|x: int, y: int, z: int|
            (x, y, z) != cell_position(cx, cz, c) ==> p.state_at(x, y, z) is Air,
    ensures
        ({
            let (x, y, z) = (cell_x(c) as u32, cell_y(c) as u32, cell_z(c) as u32);
            full_scan(blocks, p, accept, cx, cz, 0) == face_records(f.north, true, x, y, z, key)
                + face_records(f.east, true, x, y, z, key) + face_records(f.south, true, x, y, z, key)
                + face_records(f.west, true, x, y, z, key) + face_records(f.up, true, x, y, z, key)
                + face_records(f.down, true, x, y, z, key)
        }),
{
    reveal(shows_through);
    lemma_cell_index(c);
    assert forall|j: int| 0 <= j < CHUNK_VOLUME && j != c implies cell_state(p, cx, cz, j) is Air by {
        lemma_cell_index(j);
        assert(cell_position(cx, cz, j) != cell_position(cx, cz, c));
    }
    lemma_air_run(blocks, p, accept, cx, cz, 0, c);
    lemma_air_run(blocks, p, accept, cx, cz, c + 1, CHUNK_VOLUME as int);
    let (ax, y, az) = cell_position(cx, cz, c);
    assert(p.state_at(ax, y, az - 1) is Air);
    assert(p.state_at(ax + 1, y, az) is Air);
    assert(p.state_at(ax, y, az + 1) is Air);
    assert(p.state_at(ax - 1, y, az) is Air);
    assert(p.state_at(ax, y + 1, az) is Air);
    assert(p.state_at(ax, y - 1, az) is Air);
    assert(full_scan(blocks, p, accept, cx, cz, CHUNK_VOLUME as int) == Seq::<BakedVertex>::empty());
    assert(full_scan(blocks, p, accept, cx, cz, c) =~= cell_records(blocks, p, accept, cx, cz, c));
}

/// Cell `i + 1` lies east of cell `i` where `i` is not on the east edge.
proof fn lemma_east_cell(i: int)
    requires
        0 <= i,
        cell_x(i) < 15,
    ensures
        cell_x(i + 1) == cell_x(i) + 1,
        cell_y(i + 1) == cell_y(i),
        cell_z(i + 1) == cell_z(i),
{
    lemma_cell_index(i);
    lemma_cell_index(i + 1);
}

/// Two opaque cubes side by side along x, in a world of air, whose meshes
/// define all six faces: the scan emits every face of both but the two that
/// touch, the west cube's faces first.
pub proof fn lemma_adjacent_cubes<P: BlockStateProvider>(
    blocks: Seq<(Seq<char>, BlockView)>,
    p: P,
    accept: spec_fn(BlockstateKey) -> bool,
    cx: int,
    cz: int,
    c: int,
    ka: BlockstateKey,
    fa: FacesView,
    kb: BlockstateKey,
    fb: FacesView,
)
    requires
        0 <= c,
        c + 1 < CHUNK_VOLUME,
        cell_x(c) < 15,
        cell_state(p, cx, cz, c) == ChunkBlockState::State(ka),
        cell_state(p, cx, cz, c + 1) == ChunkBlockState::State(kb),
        accept(ka),
        accept(kb),
        state_model(blocks, ChunkBlockState::State(ka)) matches Some(m) && m.shape == ShapeView::Cube(
            fa,
        ) && !m.transparent,
        state_model(blocks, ChunkBlockState::State(kb)) matches Some(m) && m.shape == ShapeView::Cube(
            fb,
        ) && !m.transparent,
        forall|x: int, y: int, z: int|
            (x, y, z) != cell_position(cx, cz, c) && (x, y, z) != cell_position(cx, cz, c + 1)
                ==> p.state_at(x, y, z) is Air,
    ensures
        ({
            let (x, y, z) = (cell_x(c) as u32, cell_y(c) as u32, cell_z(c) as u32);
            let xb = cell_x(c + 1) as u32;
            full_scan(blocks, p, accept, cx, cz, 0) == face_records(fa.north, true, x, y, z, ka)
                + face_records(fa.east, false, x, y, z, ka) + face_records(fa.south, true, x, y, z, ka)
                + face_records(fa.west, true, x, y, z, ka) + face_records(fa.up, true, x, y, z, ka)
                + face_records(fa.down, true, x, y, z, ka) + (face_records(fb.north, true, xb, y, z, kb)
                + face_records(fb.east, true, xb, y, z, kb) + face_records(fb.south, true, xb, y, z, kb)
                + face_records(fb.west, false, xb, y, z, kb) + face_records(fb.up, true, xb, y, z, kb)
                + face_records(fb.down, true, xb, y, z, kb))
        }),
{
    reveal(shows_through);
    lemma_cell_index(c);
    lemma_east_cell(c);
    assert forall|j: int|
        0 <= j < CHUNK_VOLUME && j != c && j != c + 1 implies cell_state(p, cx, cz, j) is Air by {
        lemma_cell_index(j);
        lemma_cell_index(c + 1);
        assert(cell_position(cx, cz, j) != cell_position(cx, cz, c));
        assert(cell_position(cx, cz, j) != cell_position(cx, cz, c + 1));
    }
    lemma_air_run(blocks, p, accept, cx, cz, 0, c);
    lemma_air_run(blocks, p, accept, cx, cz, c + 2, CHUNK_VOLUME as int);
    let (ax, y, az) = cell_position(cx, cz, c);
    assert(p.state_at(ax, y, az - 1) is Air);
    assert(p.state_at(ax, y, az + 1) is Air);
    assert(p.state_at(ax - 1, y, az) is Air);
    assert(p.state_at(ax, y + 1, az) is Air);
    assert(p.state_at(ax, y - 1, az) is Air);
    assert(p.state_at(ax + 1, y, az - 1) is Air);
    assert(p.state_at(ax + 1, y, az + 1) is Air);
    assert(p.state_at(ax + 2, y, az) is Air);
    assert(p.state_at(ax + 1, y + 1, az) is Air);
    assert(p.state_at(ax + 1, y - 1, az) is Air);
    assert(full_scan(blocks, p, accept, cx, cz, CHUNK_VOLUME as int) == Seq::<BakedVertex>::empty());
    assert(full_scan(blocks, p, accept, cx, cz, c + 1) =~= cell_records(blocks, p, accept, cx, cz, c + 1));
    assert(full_scan(blocks, p, accept, cx, cz, c) =~= cell_records(blocks, p, accept, cx, cz, c)
        + cell_records(blocks, p, accept, cx, cz, c + 1));
}

} // verus!
