//! Baked block geometry: vertices, face lists and the mesh of one block variant.

use vstd::prelude::*;

verus! {

/// One vertex of baked block geometry. Positions are in sixteenths of a block,
/// texture coordinates in atlas texels.
#[derive(Clone, Copy, Debug, PartialEq, Eq, Structural)]
pub struct BlockMeshVertex {
    pub x: i32,
    pub y: i32,
    pub z: i32,
    pub u: u16,
    pub v: u16,
}

/// Dense handle of one rendered variant of one block type.
#[derive(Clone, Copy, Debug, PartialEq, Eq, Structural)]
pub struct BlockstateKey {
    pub block: u16,
    pub augment: u16,
}

/// What occupies one cell of a chunk.
#[derive(Clone, Copy, Debug, PartialEq, Eq, Structural)]
pub enum ChunkBlockState {
    Air,
    State(BlockstateKey),
}

impl ChunkBlockState {
    pub fn is_air(&self) -> (r: bool)
        ensures
            r == (*self is Air),
    {
        match self {
            ChunkBlockState::Air => true,
            ChunkBlockState::State(_) => false,
        }
    }
}

/// The six axis directions, in the order in which faces are emitted.
#[derive(Clone, Copy, Debug, PartialEq, Eq, Structural)]
pub enum Direction {
    North,
    East,
    South,
    West,
    Up,
    Down,
}

impl Direction {
    /// Offset of the neighbouring cell in this direction, as (dx, dy, dz).
    pub open spec fn offset(self) -> (int, int, int) {
        match self {
            Direction::North => (0, 0, -1),
            Direction::East => (1, 0, 0),
            Direction::South => (0, 0, 1),
            Direction::West => (-1, 0, 0),
            Direction::Up => (0, 1, 0),
            Direction::Down => (0, -1, 0),
        }
    }

    pub open spec fn opposite(self) -> Direction {
        match self {
            Direction::North => Direction::South,
            Direction::East => Direction::West,
            Direction::South => Direction::North,
            Direction::West => Direction::East,
            Direction::Up => Direction::Down,
            Direction::Down => Direction::Up,
        }
    }
}

/// Optional vertex list for each of the six faces.
pub struct MeshFaces {
    pub north: Option<Vec<BlockMeshVertex>>,
    pub east: Option<Vec<BlockMeshVertex>>,
    pub south: Option<Vec<BlockMeshVertex>>,
    pub west: Option<Vec<BlockMeshVertex>>,
    pub up: Option<Vec<BlockMeshVertex>>,
    pub down: Option<Vec<BlockMeshVertex>>,
}

/// Mathematical model of [`MeshFaces`].
pub struct FacesView {
    pub north: Option<Seq<BlockMeshVertex>>,
    pub east: Option<Seq<BlockMeshVertex>>,
    pub south: Option<Seq<BlockMeshVertex>>,
    pub west: Option<Seq<BlockMeshVertex>>,
    pub up: Option<Seq<BlockMeshVertex>>,
    pub down: Option<Seq<BlockMeshVertex>>,
}

pub open spec fn opt_view(f: Option<Vec<BlockMeshVertex>>) -> Option<Seq<BlockMeshVertex>> {
    match f {
        Some(v) => Some(v@),
        None => None,
    }
}

impl View for MeshFaces {
    type V = FacesView;

    open spec fn view(&self) -> FacesView {
        FacesView {
            north: opt_view(self.north),
            east: opt_view(self.east),
            south: opt_view(self.south),
            west: opt_view(self.west),
            up: opt_view(self.up),
            down: opt_view(self.down),
        }
    }
}

pub open spec fn face_or_empty(f: Option<Seq<BlockMeshVertex>>) -> Seq<BlockMeshVertex> {
    match f {
        Some(s) => s,
        None => Seq::empty(),
    }
}

/// Geometry of one block variant: a unit cube whose faces can be culled, or
/// arbitrary face groups that are always drawn.
pub enum CubeOrComplexMesh {
    Cube(MeshFaces),
    Complex(Vec<MeshFaces>),
}

pub enum ShapeView {
    Cube(FacesView),
    Complex(Seq<FacesView>),
}

impl View for CubeOrComplexMesh {
    type V = ShapeView;

    open spec fn view(&self) -> ShapeView {
        match self {
            CubeOrComplexMesh::Cube(f) => ShapeView::Cube(f@),
            CubeOrComplexMesh::Complex(gs) => ShapeView::Complex(gs@.map_values(|g: MeshFaces| g@)),
        }
    }
}

/// Baked mesh of one block variant. A `transparent` mesh does not hide the
/// faces of its neighbours.
pub struct ModelMesh {
    pub shape: CubeOrComplexMesh,
    pub transparent: bool,
}

pub struct MeshView {
    pub shape: ShapeView,
    pub transparent: bool,
}

impl View for ModelMesh {
    type V = MeshView;

    open spec fn view(&self) -> MeshView {
        MeshView { shape: self.shape@, transparent: self.transparent }
    }
}

fn copy_vertices(v: &Vec<BlockMeshVertex>) -> (r: Vec<BlockMeshVertex>)
    ensures
        r@ == v@,
{
    let mut r: Vec<BlockMeshVertex> = Vec::new();
    let mut i: usize = 0;
    while i < v.len()
        invariant
            i <= v.len(),
            r@ == v@.take(i as int),
        decreases v.len() - i,
    {
        r.push(v[i]);
        i = i + 1;
        assert(r@ =~= v@.take(i as int));
    }
    assert(v@.take(v.len() as int) =~= v@);
    r
}

fn copy_face(f: &Option<Vec<BlockMeshVertex>>) -> (r: Option<Vec<BlockMeshVertex>>)
    ensures
        opt_view(r) == opt_view(*f),
{
    match f {
        Some(v) => Some(copy_vertices(v)),
        None => None,
    }
}

impl MeshFaces {
    /// A copy with the same six face lists.
    pub fn copy(&self) -> (r: MeshFaces)
        ensures
            r@ == self@,
    {
        MeshFaces {
            north: copy_face(&self.north),
            east: copy_face(&self.east),
            south: copy_face(&self.south),
            west: copy_face(&self.west),
            up: copy_face(&self.up),
            down: copy_face(&self.down),
        }
    }
}

/// The face groups of a mesh: one for a cube, all of them for complex geometry.
pub open spec fn groups_of(m: MeshView) -> Seq<FacesView> {
    match m.shape {
        ShapeView::Cube(f) => seq![f],
        ShapeView::Complex(gs) => gs,
    }
}

/// The face groups of several meshes, one mesh after the other.
pub open spec fn all_groups(parts: Seq<MeshView>) -> Seq<FacesView>
    decreases parts.len(),
{
    if parts.len() == 0 {
        Seq::empty()
    } else {
        all_groups(parts.drop_last()) + groups_of(parts.last())
    }
}

/// The mesh that joins several part meshes: complex geometry holding every face
/// group of every part, transparent unless some part hides its neighbours.
pub open spec fn combined(parts: Seq<MeshView>) -> MeshView {
    MeshView {
        shape: ShapeView::Complex(all_groups(parts)),
        transparent: forall|i: int| 0 <= i < parts.len() ==> #[trigger] parts[i].transparent,
    }
}

/// Appends the face groups of `part` to `groups`.
pub fn append_groups(groups: &mut Vec<MeshFaces>, part: &ModelMesh)
    ensures
        final(groups)@.map_values(|g: MeshFaces| g@) == old(groups)@.map_values(|g: MeshFaces| g@)
            + groups_of(part@),
{
    match &part.shape {
        CubeOrComplexMesh::Cube(f) => {
            groups.push(f.copy());
            assert(groups@.map_values(|g: MeshFaces| g@) =~= old(groups)@.map_values(
                |g: MeshFaces| g@,
            ) + groups_of(part@));
        },
        CubeOrComplexMesh::Complex(gs) => {
            let mut i: usize = 0;
            while i < gs.len()
                invariant
                    i <= gs.len(),
                    part.shape == CubeOrComplexMesh::Complex(*gs),
                    groups@.map_values(|g: MeshFaces| g@) == old(groups)@.map_values(
                        |g: MeshFaces| g@,
                    ) + gs@.map_values(|g: MeshFaces| g@).take(i as int),
                decreases gs.len() - i,
            {
                let ghost before = groups@;
                let c = gs[i].copy();
                groups.push(c);
                assert(groups@.map_values(|g: MeshFaces| g@) =~= before.map_values(
                    |g: MeshFaces| g@,
                ).push(gs@[i as int]@));
                assert(gs@.map_values(|g: MeshFaces| g@).take(i as int + 1) =~= gs@.map_values(
                    |g: MeshFaces| g@,
                ).take(i as int).push(gs@[i as int]@));
                i = i + 1;
            }
            assert(gs@.map_values(|g: MeshFaces| g@).take(gs.len() as int) =~= gs@.map_values(
                |g: MeshFaces| g@,
            ));
        },
    }
}

} // verus!
