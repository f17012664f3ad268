use vstd::prelude::*;

use crate::atlas::BlockType;
use crate::chunk::{voxel_x, voxel_y, voxel_z, Blocks, SEA_LEVEL, TOTAL_CHUNK_SIZE};

verus! {

/// Terrain height of each column of a chunk: the height of local column
/// `(x, z)` is at `x * 16 + z`.
pub type HeightMap = [u8; 256];

/// Material at height `y` of a column whose surface is at height `h`.
pub open spec fn terrain_material(y: int, h: int) -> BlockType {
    if y > h {
        if y <= SEA_LEVEL {
            BlockType::WATER
        } else {
            BlockType::AIR
        }
    } else if y == h {
        BlockType::GRASS
    } else if y == 0 {
        BlockType::ROCK
    } else {
        BlockType::DIRT
    }
}

/// Index into a height map of the column holding voxel `k`.
pub open spec fn column_of(k: int) -> int {
    voxel_x(k) * 16 + voxel_z(k)
}

/// The grid whose columns reach the heights of `heights`.
pub open spec fn is_terrain(grid: Seq<BlockType>, heights: Seq<u8>) -> bool {
    &&& grid.len() == TOTAL_CHUNK_SIZE
    &&& forall|k: int| 0 <= k < TOTAL_CHUNK_SIZE ==>
        #[trigger] grid[k] == terrain_material(voxel_y(k), heights[column_of(k)] as int)
}

/// The flat grid: every column at sea level.
pub open spec fn is_flat_terrain(grid: Seq<BlockType>) -> bool {
    &&& grid.len() == TOTAL_CHUNK_SIZE
    &&& forall|k: int| 0 <= k < TOTAL_CHUNK_SIZE ==>
        #[trigger] grid[k] == terrain_material(voxel_y(k), SEA_LEVEL as int)
}

fn material_at(y: usize, h: usize) -> (r: BlockType)
    ensures
        r == terrain_material(y as int, h as int),
{
    if y > h {
        if y <= SEA_LEVEL {
            BlockType::WATER
        } else {
            BlockType::AIR
        }
    } else if y == h {
        BlockType::GRASS
    } else if y == 0 {
        BlockType::ROCK
    } else {
        BlockType::DIRT
    }
}

/// Fills a chunk grid with terrain whose column surfaces are `heights`, or
/// with flat terrain at sea level when `flat_world` is set.
pub fn generate_chunk(blocks: &mut Blocks, heights: &HeightMap, flat_world: bool)
    requires
        old(blocks)@.len() == TOTAL_CHUNK_SIZE,
    ensures
        flat_world ==> is_flat_terrain(final(blocks)@),
        !flat_world ==> is_terrain(final(blocks)@, heights@),
{
    if flat_world {
        generate_flat_world(blocks);
        return;
    }
    let mut k: usize = 0;
    while k < TOTAL_CHUNK_SIZE
        invariant
            k <= TOTAL_CHUNK_SIZE,
            blocks@.len() == TOTAL_CHUNK_SIZE,
            heights@.len() == 256,
            forall|i: int| 0 <= i < k ==>
                #[trigger] blocks@[i] == terrain_material(voxel_y(i), heights@[column_of(i)] as int),
        decreases TOTAL_CHUNK_SIZE - k,
    {
        let column = ((k % 256) / 16) * 16 + k % 16;
        let h = heights[column] as usize;
        blocks.set(k, material_at(k / 256, h));
        k += 1;
    }
}

/// Fills a chunk grid with flat terrain: grass at sea level, dirt below, rock
/// at the bottom, air above.
pub fn generate_flat_world(blocks: &mut Blocks)
    requires
        old(blocks)@.len() == TOTAL_CHUNK_SIZE,
    ensures
        is_flat_terrain(final(blocks)@),
{
    let mut k: usize = 0;
    while k < TOTAL_CHUNK_SIZE
        invariant
            k <= TOTAL_CHUNK_SIZE,
            blocks@.len() == TOTAL_CHUNK_SIZE,
            forall|i: int| 0 <= i < k ==>
                #[trigger] blocks@[i] == terrain_material(voxel_y(i), SEA_LEVEL as int),
        decreases TOTAL_CHUNK_SIZE - k,
    {
        blocks.set(k, material_at(k / 256, SEA_LEVEL));
        k += 1;
    }
}

} // verus!
