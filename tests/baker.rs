use std::sync::Arc;

use indexmap::IndexMap;
use wgpu_mc::block::{Block, BlockManager};
use wgpu_mc::chunk::{bake, bake_records, get_block, BakedVertex, BlockStateProvider, Chunk};
use wgpu_mc::grid::ChunkGrid;
use wgpu_mc::mesh::{
    BlockMeshVertex, BlockstateKey, ChunkBlockState, CubeOrComplexMesh, MeshFaces, ModelMesh,
};

fn quad(tag: i32) -> Vec<BlockMeshVertex> {
    (0..4)
        .map(|i| BlockMeshVertex { x: tag, y: i, z: 0, u: 0, v: 0 })
        .collect()
}

fn full_faces() -> MeshFaces {
    MeshFaces {
        north: Some(quad(1)),
        east: Some(quad(2)),
        south: Some(quad(3)),
        west: Some(quad(4)),
        up: Some(quad(5)),
        down: Some(quad(6)),
    }
}

fn cube(transparent: bool) -> ModelMesh {
    ModelMesh { shape: CubeOrComplexMesh::Cube(full_faces()), transparent }
}

fn plant() -> ModelMesh {
    ModelMesh {
        shape: CubeOrComplexMesh::Complex(vec![
            MeshFaces { north: Some(quad(7)), east: None, south: None, west: None, up: None, down: None },
            MeshFaces { north: None, east: Some(quad(8)), south: None, west: None, up: None, down: None },
        ]),
        transparent: true,
    }
}

/// Block 0: stone (opaque cube), block 1: glass (transparent cube), block 2: a plant.
fn manager() -> BlockManager {
    let mut blocks = IndexMap::new();
    let mut stone = IndexMap::new();
    stone.insert(String::new(), vec![Arc::new(cube(false))]);
    blocks.insert("stone".to_string(), Block::Variants(stone));
    let mut glass = IndexMap::new();
    glass.insert(String::new(), vec![Arc::new(cube(true))]);
    blocks.insert("glass".to_string(), Block::Variants(glass));
    let mut grass = IndexMap::new();
    grass.insert(String::new(), vec![Arc::new(plant())]);
    blocks.insert("grass".to_string(), Block::Variants(grass));
    BlockManager { blocks }
}

fn state(block: u16) -> ChunkBlockState {
    ChunkBlockState::State(BlockstateKey { block, augment: 0 })
}

fn bake_all(bm: &BlockManager, grid: &ChunkGrid) -> Vec<BakedVertex> {
    let chunk = Chunk { pos: grid.pos };
    bake_records(bm, &chunk, |_k: BlockstateKey| true, grid)
}

fn tags(vs: &[BakedVertex]) -> Vec<i32> {
    vs.iter().step_by(4).map(|v| v.vertex.x).collect()
}

#[test]
fn air_chunk_bakes_nothing() {
    let bm = manager();
    let grid = ChunkGrid::new([3, -2]);
    assert!(bake_all(&bm, &grid).is_empty());
    let out: Vec<u32> = bake(&bm, &Chunk { pos: [3, -2] }, |v, _, _, _, _| v.y as u32, |_| true, &grid);
    assert!(out.is_empty());
}

#[test]
fn isolated_cube_emits_six_faces() {
    let bm = manager();
    let mut grid = ChunkGrid::new([0, 0]);
    assert!(grid.set(5, 70, 9, state(0)));
    let out = bake_all(&bm, &grid);
    assert_eq!(out.len(), 24);
    assert_eq!(tags(&out), vec![1, 2, 3, 4, 5, 6]);
    assert!(out.iter().all(|v| v.x == 5 && v.y == 70 && v.z == 9));
    assert!(out.iter().all(|v| v.key == BlockstateKey { block: 0, augment: 0 }));
}

#[test]
fn adjacent_opaque_cubes_hide_shared_face() {
    let bm = manager();
    let mut grid = ChunkGrid::new([0, 0]);
    grid.set(5, 10, 5, state(0));
    grid.set(6, 10, 5, state(0));
    let out = bake_all(&bm, &grid);
    assert_eq!(out.len(), 40);
    let west_cube: Vec<i32> = tags(&out.iter().filter(|v| v.x == 5).cloned().collect::<Vec<_>>());
    let east_cube: Vec<i32> = tags(&out.iter().filter(|v| v.x == 6).cloned().collect::<Vec<_>>());
    // The west cube loses its east face (2), the east cube its west face (4).
    assert_eq!(west_cube, vec![1, 3, 4, 5, 6]);
    assert_eq!(east_cube, vec![1, 2, 3, 5, 6]);
}

#[test]
fn transparent_neighbour_keeps_face() {
    let bm = manager();
    let mut grid = ChunkGrid::new([0, 0]);
    grid.set(5, 10, 5, state(0));
    grid.set(6, 10, 5, state(1));
    let out = bake_all(&bm, &grid);
    let stone: Vec<i32> = tags(&out.iter().filter(|v| v.x == 5).cloned().collect::<Vec<_>>());
    let glass: Vec<i32> = tags(&out.iter().filter(|v| v.x == 6).cloned().collect::<Vec<_>>());
    assert_eq!(stone, vec![1, 2, 3, 4, 5, 6]);
    assert_eq!(glass, vec![1, 2, 3, 5, 6]);
}

#[test]
fn complex_mesh_is_never_culled() {
    let bm = manager();
    let mut grid = ChunkGrid::new([0, 0]);
    grid.set(1, 1, 1, state(2));
    for (x, y, z) in [(0, 1, 1), (2, 1, 1), (1, 0, 1), (1, 2, 1), (1, 1, 0), (1, 1, 2)] {
        grid.set(x, y, z, state(0));
    }
    let out = bake_all(&bm, &grid);
    let plant: Vec<i32> = tags(&out.iter().filter(|v| v.key.block == 2).cloned().collect::<Vec<_>>());
    assert_eq!(plant, vec![7, 8]);
}

#[test]
fn filter_rejects_states() {
    let bm = manager();
    let mut grid = ChunkGrid::new([0, 0]);
    grid.set(1, 1, 1, state(0));
    grid.set(8, 1, 1, state(2));
    let chunk = Chunk { pos: [0, 0] };
    let out = bake_records(&bm, &chunk, |k: BlockstateKey| k.block == 2, &grid);
    assert_eq!(tags(&out), vec![7, 8]);
}

#[test]
fn unknown_block_emits_nothing_and_does_not_occlude() {
    let bm = manager();
    let mut grid = ChunkGrid::new([0, 0]);
    grid.set(1, 1, 1, state(0));
    grid.set(2, 1, 1, state(9));
    let out = bake_all(&bm, &grid);
    assert_eq!(tags(&out), vec![1, 2, 3, 4, 5, 6]);
    assert!(get_block(&bm, state(9)).is_none());
    assert!(get_block(&bm, ChunkBlockState::Air).is_none());
    assert!(get_block(&bm, state(1)).unwrap().transparent);
}

#[test]
fn section_skip_matches_expected_output() {
    let bm = manager();
    let mut grid = ChunkGrid::new([2, 7]);
    grid.set(0, 48, 0, state(0));
    assert!(grid.is_section_empty(0));
    assert!(!grid.is_section_empty(3));
    assert!(grid.is_section_empty(24));
    let out = bake_all(&bm, &grid);
    assert_eq!(out.len(), 24);
    assert!(out.iter().all(|v| v.y == 48));
}

#[test]
fn full_section_bakes_outer_shell() {
    let bm = manager();
    let mut grid = ChunkGrid::new([0, 0]);
    for y in 16..32 {
        for z in 0..16 {
            for x in 0..16 {
                grid.set(x, y, z, state(0));
            }
        }
    }
    let out = bake_all(&bm, &grid);
    assert_eq!(out.len(), 6 * 16 * 16 * 4);
    assert_eq!(out.len(), 6144);
}

#[test]
fn mapper_receives_local_coordinates() {
    let bm = manager();
    let mut grid = ChunkGrid::new([-1, 4]);
    grid.set(15, 3, 2, state(0));
    assert_eq!(grid.get_state(-1, 3, 66), state(0));
    assert_eq!(grid.get_state(0, 3, 66), ChunkBlockState::Air);
    let out: Vec<(u32, u32, u32, u16)> = bake(
        &bm,
        &Chunk { pos: [-1, 4] },
        |_v, x, y, z, k| (x, y, z, k.block),
        |_| true,
        &grid,
    );
    assert_eq!(out.len(), 24);
    assert!(out.iter().all(|&t| t == (15, 3, 2, 0)));
}

#[test]
fn grid_set_outside_chunk_is_refused() {
    let mut grid = ChunkGrid::new([0, 0]);
    assert!(!grid.set(16, 0, 0, state(0)));
    assert!(!grid.set(0, 384, 0, state(0)));
    assert!(grid.set(15, 383, 15, state(0)));
}
