//! A block-state provider that holds the cells of one chunk.

use vstd::arithmetic::div_mod::{lemma_fundamental_div_mod, lemma_mod_mod};
use vstd::prelude::*;

use crate::chunk::{
    cell_state, cell_x, cell_y, cell_z, sections_reported_truly, BlockStateProvider, CHUNK_AREA,
    CHUNK_HEIGHT, CHUNK_SECTIONS, CHUNK_VOLUME, CHUNK_WIDTH, SECTION_VOLUME,
};
use crate::mesh::ChunkBlockState;

verus! {

/// The cells of the chunk at `pos`, in scan order (x fastest, then z, then y);
/// every cell outside the chunk is air.
pub struct ChunkGrid {
    pub pos: [i32; 2],
    pub cells: Vec<ChunkBlockState>,
}

/// Index of the chunk-local cell (x, y, z) in scan order.
pub open spec fn local_index(x: int, y: int, z: int) -> int {
    256 * y + 16 * z + x
}

impl ChunkGrid {
    /// The state held for the chunk-local cell (x, y, z).
    pub open spec fn local_state(&self, x: int, y: int, z: int) -> ChunkBlockState {
        if 0 <= x < 16 && 0 <= y < 384 && 0 <= z < 16 && local_index(x, y, z) < self.cells.len() {
            self.cells@[local_index(x, y, z)]
        } else {
            ChunkBlockState::Air
        }
    }

    /// A chunk of air at `pos`.
    pub fn new(pos: [i32; 2]) -> (r: ChunkGrid)
        ensures
            r.pos == pos,
            r.cells.len() == CHUNK_VOLUME,
            forall|i: int| 0 <= i < CHUNK_VOLUME ==> r.cells@[i] is Air,
    {
        let mut cells: Vec<ChunkBlockState> = Vec::new();
        let mut i: usize = 0;
        while i < CHUNK_VOLUME
            invariant
                i <= CHUNK_VOLUME,
                cells.len() == i,
                forall|j: int| 0 <= j < i ==> cells@[j] is Air,
            decreases CHUNK_VOLUME - i,
        {
            cells.push(ChunkBlockState::Air);
            i = i + 1;
        }
        ChunkGrid { pos, cells }
    }

    /// Sets the chunk-local cell (x, y, z); returns false, changing nothing,
    /// where the cell lies outside the chunk.
    pub fn set(&mut self, x: usize, y: usize, z: usize, state: ChunkBlockState) -> (r: bool)
        ensures
            r == (x < 16 && y < 384 && z < 16 && local_index(x as int, y as int, z as int)
                < old(self).cells.len()),
            final(self).pos == old(self).pos,
            r ==> final(self).cells@ == old(self).cells@.update(
                local_index(x as int, y as int, z as int),
                state,
            ),
            !r ==> final(self).cells@ == old(self).cells@,
    {
        if x < CHUNK_WIDTH && y < CHUNK_HEIGHT && z < CHUNK_WIDTH {
            let i = y * CHUNK_AREA + z * CHUNK_WIDTH + x;
            if i < self.cells.len() {
                self.cells.set(i, state);
                return true;
            }
        }
        false
    }
}

impl BlockStateProvider for ChunkGrid {
    open spec fn state_at(&self, x: int, y: int, z: int) -> ChunkBlockState {
        self.local_state(x - self.pos[0] * 16, y, z - self.pos[1] * 16)
    }

    open spec fn section_reported_empty(&self, section: int) -> bool {
        section >= CHUNK_SECTIONS || forall|i: int|
            section * 4096 <= i < section * 4096 + 4096 && i < self.cells.len()
                ==> #[trigger] self.cells@[i] is Air
    }

    fn get_state(&self, x: i32, y: i16, z: i32) -> (r: ChunkBlockState) {
        let lx = x as i64 - self.pos[0] as i64 * 16;
        let lz = z as i64 - self.pos[1] as i64 * 16;
        if 0 <= lx && lx < 16 && 0 <= y && (y as i64) < 384 && 0 <= lz && lz < 16 {
            let i = (y as usize) * CHUNK_AREA + (lz as usize) * CHUNK_WIDTH + lx as usize;
            if i < self.cells.len() {
                return self.cells[i];
            }
        }
        ChunkBlockState::Air
    }

    fn is_section_empty(&self, section: usize) -> (r: bool) {
        if section >= CHUNK_SECTIONS {
            return true;
        }
        let start = section * SECTION_VOLUME;
        let mut i = start;
        while i < start + SECTION_VOLUME && i < self.cells.len()
            invariant
                section < CHUNK_SECTIONS,
                start == section * 4096,
                start <= i <= start + SECTION_VOLUME,
                forall|j: int| start <= j < i && j < self.cells.len() ==> #[trigger] self.cells@[j] is Air,
            decreases start + SECTION_VOLUME - i,
        {
            if !self.cells[i].is_air() {
                return false;
            }
            i = i + 1;
        }
        true
    }
}

/// A grid reports a section of its own chunk empty only where every cell of
/// it is air.
pub proof fn lemma_grid_reports_truly(g: ChunkGrid)
    ensures
        sections_reported_truly(g, g.pos[0] as int, g.pos[1] as int),
{
    let cx = g.pos[0] as int;
    let cz = g.pos[1] as int;
    assert forall|i: int|
        0 <= i < CHUNK_VOLUME && #[trigger] g.section_reported_empty(i / (SECTION_VOLUME as int))
            implies cell_state(g, cx, cz, i) is Air by {
        reveal(cell_x);
        reveal(cell_y);
        reveal(cell_z);
        lemma_fundamental_div_mod(i, 256);
        lemma_fundamental_div_mod(i % 256, 16);
        lemma_mod_mod(i, 16, 16);
        lemma_fundamental_div_mod(i, 4096);
        let s = i / 4096;
        assert(0 <= s < 24 && s * 4096 <= i < s * 4096 + 4096) by (nonlinear_arith)
            requires
                0 <= i < 98304,
                i == 4096 * (i / 4096) + i % 4096,
                0 <= i % 4096 < 4096,
                s == i / 4096,
        ;
        assert(local_index(cell_x(i), cell_y(i), cell_z(i)) == i);
        assert(cell_y(i) < 384) by (nonlinear_arith)
            requires
                cell_y(i) == i / 256,
                i == 256 * (i / 256) + i % 256,
                0 <= i % 256,
                i < 98304,
        ;
    }
}

} // verus!
