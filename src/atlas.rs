use vstd::prelude::*;

use crate::block::FaceDirection;

verus! {

/// Material of one voxel. `AIR` is emptiness.
#[derive(Copy, Clone, Debug, PartialEq, Eq, Structural)]
pub enum BlockType {
    DIRT,
    GRASS,
    ROCK,
    WATER,
    AIR,
    DEBUG,
}

/// Side of one atlas cell, in pixels.
pub const BLOCK_PIXEL_SIZE: u32 = 16;

/// Side of the whole atlas sheet, in pixels.
pub const ATLAS_PIXEL_SIZE: u32 = 256;

/// Atlas positions are given in half pixels: a texture coordinate is an atlas
/// position divided by `ATLAS_HALF_PIXELS`, the sheet's side in half pixels.
pub const ATLAS_HALF_PIXELS: u32 = 512;

/// The atlas cell (column, row) that shows `m` on a face looking along `f`.
pub open spec fn atlas_cell(m: BlockType, f: FaceDirection) -> (u32, u32) {
    match m {
        BlockType::GRASS => match f {
            FaceDirection::TOP => (0, 0),
            FaceDirection::BOTTOM => (2, 0),
            _ => (1, 0),
        },
        BlockType::DIRT => (2, 0),
        BlockType::ROCK => (3, 0),
        BlockType::WATER => (0, 15),
        BlockType::AIR => (0, 0),
        BlockType::DEBUG => (15, 0),
    }
}

/// Position, in half pixels, of a corner of atlas cell `cell`: each corner is
/// pulled half a texel into the cell so that neighbouring cells do not bleed.
pub open spec fn corner_pixel(cell: (u32, u32), corner: [u32; 2]) -> (int, int) {
    (
        2 * cell.0 * BLOCK_PIXEL_SIZE + if corner[0] == 1 { 2 * BLOCK_PIXEL_SIZE - 1 } else { 1int },
        2 * cell.1 * BLOCK_PIXEL_SIZE + if corner[1] == 1 { 2 * BLOCK_PIXEL_SIZE - 1 } else { 1int },
    )
}

/// Atlas position (half pixels) that the corner `corner` of a face of material `m`
/// looking along `f` samples; air has no texture and samples the origin.
pub open spec fn texture_pixel(m: BlockType, corner: [u32; 2], f: FaceDirection) -> (int, int) {
    if m == BlockType::AIR {
        (0, 0)
    } else {
        corner_pixel(atlas_cell(m, f), corner)
    }
}

fn atlas_pos_to_coordinates(atlas_pos: [u32; 2], texture_corner: [u32; 2]) -> (r: [u32; 2])
    requires
        atlas_pos[0] < 16,
        atlas_pos[1] < 16,
    ensures
        (r[0] as int, r[1] as int) == corner_pixel((atlas_pos[0], atlas_pos[1]), texture_corner),
{
    let cell_size: u32 = 2 * BLOCK_PIXEL_SIZE;
    let mut x: u32 = atlas_pos[0] * cell_size + 1;
    let mut y: u32 = atlas_pos[1] * cell_size + 1;
    if texture_corner[0] == 1 {
        x = x + cell_size - 2;
    }
    if texture_corner[1] == 1 {
        y = y + cell_size - 2;
    }
    [x, y]
}

impl BlockType {
    /// Atlas position, in half pixels, for the corner `texture_corner` of a
    /// face of this material looking along `face_direction`.
    pub fn get_texture_coordinates(&self, texture_corner: [u32; 2], face_direction: FaceDirection) -> (r: [u32; 2])
        ensures
            (r[0] as int, r[1] as int) == texture_pixel(*self, texture_corner, face_direction),
    {
        match self {
            BlockType::GRASS => match face_direction {
                FaceDirection::TOP => atlas_pos_to_coordinates([0, 0], texture_corner),
                FaceDirection::BOTTOM => atlas_pos_to_coordinates([2, 0], texture_corner),
                FaceDirection::RIGHT => atlas_pos_to_coordinates([1, 0], texture_corner),
                FaceDirection::LEFT => atlas_pos_to_coordinates([1, 0], texture_corner),
                FaceDirection::FRONT => atlas_pos_to_coordinates([1, 0], texture_corner),
                FaceDirection::BACK => atlas_pos_to_coordinates([1, 0], texture_corner),
            },
            BlockType::DIRT => atlas_pos_to_coordinates([2, 0], texture_corner),
            BlockType::ROCK => atlas_pos_to_coordinates([3, 0], texture_corner),
            BlockType::WATER => atlas_pos_to_coordinates([0, 15], texture_corner),
            BlockType::AIR => [0, 0],
            BlockType::DEBUG => atlas_pos_to_coordinates([15, 0], texture_corner),
        }
    }
}

} // verus!
