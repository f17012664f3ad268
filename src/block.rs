use vstd::prelude::*;

use crate::atlas::{texture_pixel, BlockType};
use crate::vector::Vec3i;

verus! {

/// Direction in which a voxel face looks.
#[derive(Copy, Clone, Debug, PartialEq, Eq, Structural)]
pub enum FaceDirection {
    TOP,
    BOTTOM,
    RIGHT,
    LEFT,
    FRONT,
    BACK,
}

/// Unit step along a face direction.
pub open spec fn unit(f: FaceDirection) -> (int, int, int) {
    match f {
        FaceDirection::TOP => (0, 1, 0),
        FaceDirection::BOTTOM => (0, -1, 0),
        FaceDirection::RIGHT => (1, 0, 0),
        FaceDirection::LEFT => (-1, 0, 0),
        FaceDirection::FRONT => (0, 0, 1),
        FaceDirection::BACK => (0, 0, -1),
    }
}

impl FaceDirection {
    /// The unit step towards the neighbour behind this face.
    pub fn to_vec(self) -> (r: Vec3i)
        ensures
            (r.x as int, r.y as int, r.z as int) == unit(self),
    {
        match self {
            FaceDirection::TOP => Vec3i::new(0, 1, 0),
            FaceDirection::BOTTOM => Vec3i::new(0, -1, 0),
            FaceDirection::RIGHT => Vec3i::new(1, 0, 0),
            FaceDirection::LEFT => Vec3i::new(-1, 0, 0),
            FaceDirection::FRONT => Vec3i::new(0, 0, 1),
            FaceDirection::BACK => Vec3i::new(0, 0, -1),
        }
    }
}


/// One mesh vertex: a world-space corner position and the atlas pixel it
/// samples in half pixels (divide by `ATLAS_HALF_PIXELS` for a texture
/// coordinate).
#[derive(Copy, Clone, Debug)]
pub struct BlockVertex {
    pub pos: [i64; 3],
    pub texture_coordinates: [u32; 2],
}

/// Position and atlas pixel of a vertex, as integers.
pub type VertexModel = ((int, int, int), (int, int));

impl BlockVertex {
    pub open spec fn model(self) -> VertexModel {
        (
            (self.pos[0] as int, self.pos[1] as int, self.pos[2] as int),
            (self.texture_coordinates[0] as int, self.texture_coordinates[1] as int),
        )
    }
}

/// Largest magnitude of a world position that the mesher handles.
pub const MAX_WORLD_COORD: i64 = 0x1000_0000_0000;

pub open spec fn position_ok(p: [i64; 3]) -> bool {
    -MAX_WORLD_COORD <= p[0] <= MAX_WORLD_COORD && -MAX_WORLD_COORD <= p[1] <= MAX_WORLD_COORD
        && -MAX_WORLD_COORD <= p[2] <= MAX_WORLD_COORD
}

/// The vertex made of corner offset `pos` of a voxel at `position`, sampling
/// atlas corner `corner`.
pub open spec fn vertex_model(
    pos: (int, int, int),
    m: BlockType,
    corner: [u32; 2],
    position: [i64; 3],
    f: FaceDirection,
) -> VertexModel {
    (
        (pos.0 + position[0], pos.1 + position[1], pos.2 + position[2]),
        texture_pixel(m, corner, f),
    )
}

pub fn block_vertex(
    pos: [i8; 3],
    material_type: BlockType,
    texture_corners: [u32; 2],
    position: [i64; 3],
    face_direction: FaceDirection,
) -> (r: BlockVertex)
    requires
        position_ok(position),
    ensures
        r.model() == vertex_model(
            (pos[0] as int, pos[1] as int, pos[2] as int),
            material_type,
            texture_corners,
            position,
            face_direction,
        ),
{
    let tc = material_type.get_texture_coordinates(texture_corners, face_direction);
    BlockVertex {
        pos: [
            pos[0] as i64 + position[0],
            pos[1] as i64 + position[1],
            pos[2] as i64 + position[2],
        ],
        texture_coordinates: [tc[0], tc[1]],
    }
}

/// Offset of the `j`-th corner (of four, in winding order) of the unit-cube
/// face looking along `f`.
pub open spec fn corner_offset(f: FaceDirection, j: int) -> (int, int, int) {
    match f {
        FaceDirection::TOP => if j == 0 { (0, 1, 0) } else if j == 1 { (0, 1, 1) } else if j == 2 { (1, 1, 1) } else { (1, 1, 0) },
        FaceDirection::BOTTOM => if j == 0 { (0, 0, 1) } else if j == 1 { (0, 0, 0) } else if j == 2 { (1, 0, 0) } else { (1, 0, 1) },
        FaceDirection::RIGHT => if j == 0 { (1, 1, 1) } else if j == 1 { (1, 0, 1) } else if j == 2 { (1, 0, 0) } else { (1, 1, 0) },
        FaceDirection::LEFT => if j == 0 { (0, 1, 0) } else if j == 1 { (0, 0, 0) } else if j == 2 { (0, 0, 1) } else { (0, 1, 1) },
        FaceDirection::FRONT => if j == 0 { (0, 1, 1) } else if j == 1 { (0, 0, 1) } else if j == 2 { (1, 0, 1) } else { (1, 1, 1) },
        FaceDirection::BACK => if j == 0 { (1, 1, 0) } else if j == 1 { (1, 0, 0) } else if j == 2 { (0, 0, 0) } else { (0, 1, 0) },
    }
}

/// Atlas corner sampled by the `j`-th corner of any face.
pub open spec fn corner_texture(j: int) -> [u32; 2] {
    if j == 0 { [0, 0] } else if j == 1 { [0, 1] } else if j == 2 { [1, 1] } else { [1, 0] }
}

/// The `j`-th vertex of the face looking along `f` of a voxel of material `m`
/// at world position `position`.
pub open spec fn face_vertex(f: FaceDirection, m: BlockType, position: [i64; 3], j: int) -> VertexModel {
    vertex_model(corner_offset(f, j), m, corner_texture(j), position, f)
}

impl FaceDirection {
    fn get_vertices(self, material_type: BlockType, position: [i64; 3]) -> (r: [BlockVertex; 4])
        requires
            position_ok(position),
        ensures
            forall|j: int| 0 <= j < 4 ==> #[trigger] r[j].model() == face_vertex(self, material_type, position, j),
    {
        let r = match self {
            FaceDirection::TOP => [
                block_vertex([0, 1, 0], material_type, [0, 0], position, self),
                block_vertex([0, 1, 1], material_type, [0, 1], position, self),
                block_vertex([1, 1, 1], material_type, [1, 1], position, self),
                block_vertex([1, 1, 0], material_type, [1, 0], position, self),
            ],
            FaceDirection::BOTTOM => [
                block_vertex([0, 0, 1], material_type, [0, 0], position, self),
                block_vertex([0, 0, 0], material_type, [0, 1], position, self),
                block_vertex([1, 0, 0], material_type, [1, 1], position, self),
                block_vertex([1, 0, 1], material_type, [1, 0], position, self),
            ],
            FaceDirection::RIGHT => [
                block_vertex([1, 1, 1], material_type, [0, 0], position, self),
                block_vertex([1, 0, 1], material_type, [0, 1], position, self),
                block_vertex([1, 0, 0], material_type, [1, 1], position, self),
                block_vertex([1, 1, 0], material_type, [1, 0], position, self),
            ],
            FaceDirection::LEFT => [
                block_vertex([0, 1, 0], material_type, [0, 0], position, self),
                block_vertex([0, 0, 0], material_type, [0, 1], position, self),
                block_vertex([0, 0, 1], material_type, [1, 1], position, self),
                block_vertex([0, 1, 1], material_type, [1, 0], position, self),
            ],
            FaceDirection::FRONT => [
                block_vertex([0, 1, 1], material_type, [0, 0], position, self),
                block_vertex([0, 0, 1], material_type, [0, 1], position, self),
                block_vertex([1, 0, 1], material_type, [1, 1], position, self),
                block_vertex([1, 1, 1], material_type, [1, 0], position, self),
            ],
            FaceDirection::BACK => [
                block_vertex([1, 1, 0], material_type, [0, 0], position, self),
                block_vertex([1, 0, 0], material_type, [0, 1], position, self),
                block_vertex([0, 0, 0], material_type, [1, 1], position, self),
                block_vertex([0, 1, 0], material_type, [1, 0], position, self),
            ],
        };
        r
    }
}

/// Index pattern of the two triangles of a quad, relative to its first vertex.
pub open spec fn quad_index(j: int) -> int {
    if j == 0 { 0 } else if j == 1 { 1 } else if j == 2 { 2 } else if j == 3 { 2 } else if j == 4 { 3 } else { 0 }
}

/// One voxel face: its four vertices and the direction it looks in.
#[derive(Copy, Clone, Debug)]
pub struct Face {
    pub vertices: [BlockVertex; 4],
    pub direction: FaceDirection,
}

impl Face {
    pub fn new(material_type: BlockType, face_direction: FaceDirection, position: [i64; 3]) -> (r: Self)
        requires
            position_ok(position),
        ensures
            r.direction == face_direction,
            forall|j: int| 0 <= j < 4 ==> #[trigger] r.vertices[j].model() == face_vertex(face_direction, material_type, position, j),
    {
        Self { vertices: face_direction.get_vertices(material_type, position), direction: face_direction }
    }

    /// Indices of the two triangles of this face when its vertices are the
    /// `i`-th quad of a buffer.
    pub fn get_indices(&self, i: u16) -> (r: [u16; 6])
        requires
            i < 0x4000,
        ensures
            forall|j: int| 0 <= j < 6 ==> #[trigger] r[j] == 4 * i + quad_index(j),
    {
        let displacement: u16 = i * 4;
        [
            0 + displacement,
            1 + displacement,
            2 + displacement,
            2 + displacement,
            3 + displacement,
            0 + displacement,
        ]
    }
}

/// A voxel as seen from outside its chunk: its chunk-local position and its
/// material.
#[derive(Copy, Clone, Debug, PartialEq, Eq, Structural)]
pub struct Block {
    pub position: Vec3i,
    pub material_type: BlockType,
}

impl Block {
    pub fn new(material_type: BlockType, position: Vec3i) -> (r: Self)
        ensures
            r.material_type == material_type,
            r.position == position,
    {
        Self { position, material_type }
    }

    pub fn update(&mut self, new_material_type: BlockType)
        ensures
            final(self).material_type == new_material_type,
            final(self).position == old(self).position,
    {
        self.material_type = new_material_type;
    }
}

} // verus!
