use vstd::prelude::*;

use crate::atlas::BlockType;
use crate::block::{face_vertex, quad_index, unit, Block, BlockVertex, FaceDirection};
use crate::vector::Vec3i;
use crate::world::World;
use crate::world_generation::{generate_chunk, is_flat_terrain, is_terrain, HeightMap};

verus! {

pub const CHUNK_Y_SIZE: usize = 200;
pub const CHUNK_Z_SIZE: usize = 16;
pub const CHUNK_X_SIZE: usize = 16;

pub const SEA_LEVEL: usize = CHUNK_Y_SIZE / 2;
pub const TOTAL_CHUNK_SIZE: usize = CHUNK_Y_SIZE * CHUNK_Z_SIZE * CHUNK_X_SIZE;

/// A chunk's voxel grid, flat: the voxel at local `(x, y, z)` is at
/// `y * 256 + x * 16 + z`.
pub type Blocks = Vec<BlockType>;

pub open spec fn in_chunk(x: int, y: int, z: int) -> bool {
    0 <= x < CHUNK_X_SIZE && 0 <= y < CHUNK_Y_SIZE && 0 <= z < CHUNK_Z_SIZE
}

pub open spec fn grid_index(x: int, y: int, z: int) -> int {
    y * 256 + x * 16 + z
}

pub open spec fn voxel_x(k: int) -> int {
    (k % 256) / 16
}

pub open spec fn voxel_y(k: int) -> int {
    k / 256
}

pub open spec fn voxel_z(k: int) -> int {
    k % 16
}

/// The `d`-th of the six faces, in the order a voxel's faces are emitted.
pub open spec fn face_of(d: int) -> FaceDirection {
    if d == 0 {
        FaceDirection::TOP
    } else if d == 1 {
        FaceDirection::BOTTOM
    } else if d == 2 {
        FaceDirection::RIGHT
    } else if d == 3 {
        FaceDirection::LEFT
    } else if d == 4 {
        FaceDirection::FRONT
    } else {
        FaceDirection::BACK
    }
}

/// Whether the face of voxel `k` looking along `f` is seen: its neighbour is
/// air, or lies outside the chunk (no occlusion across chunks).
pub open spec fn face_visible(grid: Seq<BlockType>, k: int, f: FaceDirection) -> bool {
    let nx = voxel_x(k) + unit(f).0;
    let ny = voxel_y(k) + unit(f).1;
    let nz = voxel_z(k) + unit(f).2;
    in_chunk(nx, ny, nz) ==> grid[grid_index(nx, ny, nz)] == BlockType::AIR
}

/// Whether face slot `s` (face `s % 6` of voxel `s / 6`) is emitted.
pub open spec fn slot_emitted(grid: Seq<BlockType>, s: int) -> bool {
    grid[s / 6] != BlockType::AIR && face_visible(grid, s / 6, face_of(s % 6))
}

/// The faces emitted for the first `s` face slots, as (voxel index,
/// direction), in order.
pub open spec fn faces_before(grid: Seq<BlockType>, s: nat) -> Seq<(int, FaceDirection)>
    decreases s,
{
    if s == 0 {
        Seq::empty()
    } else {
        let prev = faces_before(grid, (s - 1) as nat);
        let t = s - 1;
        if slot_emitted(grid, t) {
            prev.push((t / 6, face_of(t % 6)))
        } else {
            prev
        }
    }
}

/// All visible faces of a grid, in emission order.
pub open spec fn mesh_faces(grid: Seq<BlockType>) -> Seq<(int, FaceDirection)> {
    faces_before(grid, (6 * TOTAL_CHUNK_SIZE) as nat)
}

/// World position of voxel `k` of the chunk at chunk coordinate `offset`.
pub open spec fn voxel_world_pos(offset: [i32; 3], k: int) -> [i64; 3] {
    [
        (voxel_x(k) + offset[0] * CHUNK_X_SIZE) as i64,
        voxel_y(k) as i64,
        (voxel_z(k) + offset[2] * CHUNK_Z_SIZE) as i64,
    ]
}

/// Most faces one mesh holds: the vertices of every face it holds must be
/// addressable by 16-bit indices.
pub const MAX_MESH_FACES: usize = 16384;

/// Number of faces a mesh keeps out of `n` visible ones.
pub open spec fn kept_faces(n: int) -> int {
    if n < MAX_MESH_FACES {
        n
    } else {
        MAX_MESH_FACES as int
    }
}

/// Triangle geometry of one chunk: four vertices and six 16-bit indices per
/// visible face, all faces sharing one buffer. A grid with more visible faces
/// than `MAX_MESH_FACES` gets a mesh of its first `MAX_MESH_FACES` faces with
/// `truncated` set.
#[derive(Clone, Debug)]
pub struct Mesh {
    pub vertices: Vec<BlockVertex>,
    pub indices: Vec<u16>,
    pub num_elements: u32,
    pub truncated: bool,
}

/// The first `n` faces of `faces` are laid out in `vs` and `is`: vertices of
/// face `i` at `4 * i ..`, its two triangles at `6 * i ..`, each index naming
/// a vertex of its own face.
pub open spec fn holds_faces(
    vs: Seq<BlockVertex>,
    is: Seq<u16>,
    faces: Seq<(int, FaceDirection)>,
    n: int,
    grid: Seq<BlockType>,
    offset: [i32; 3],
) -> bool {
    &&& vs.len() == 4 * n
    &&& is.len() == 6 * n
    &&& forall|v: int| 0 <= v < 4 * n ==>
        #[trigger] vs[v].model() == face_vertex(
            faces[v / 4].1,
            grid[faces[v / 4].0],
            voxel_world_pos(offset, faces[v / 4].0),
            v % 4,
        )
    &&& forall|w: int| 0 <= w < 6 * n ==> #[trigger] is[w] == 4 * (w / 6) + quad_index(w % 6)
}

impl Mesh {
    /// Number of faces whose vertices the mesh holds.
    pub open spec fn face_count(self) -> nat {
        self.vertices@.len() / 4
    }

    /// This is the mesh of `grid` placed at chunk coordinate `offset`: all its
    /// visible faces, or the first `MAX_MESH_FACES` of them with `truncated`
    /// set when there are more.
    pub open spec fn is_mesh_of(self, grid: Seq<BlockType>, offset: [i32; 3]) -> bool {
        let faces = mesh_faces(grid);
        &&& holds_faces(self.vertices@, self.indices@, faces, kept_faces(faces.len() as int), grid, offset)
        &&& self.num_elements == self.indices@.len()
        &&& self.truncated == (faces.len() > MAX_MESH_FACES)
    }
}

/// A grid access outside the chunk's bounds.
#[derive(Copy, Clone, Debug, PartialEq, Eq, Structural)]
pub struct BoundsError;

/// Placeholder grid of a fresh slot: every voxel of the debug material, with
/// its mesh.
fn init_blocks_and_mesh(offset: [i32; 3]) -> (r: (Blocks, Mesh))
    ensures
        r.0@.len() == TOTAL_CHUNK_SIZE,
        forall|k: int| 0 <= k < TOTAL_CHUNK_SIZE ==> #[trigger] r.0@[k] == BlockType::DEBUG,
        r.1.is_mesh_of(r.0@, offset),
{
    let mut blocks: Blocks = Vec::new();
    let mut k: usize = 0;
    while k < TOTAL_CHUNK_SIZE
        invariant
            k <= TOTAL_CHUNK_SIZE,
            blocks@.len() == k,
            forall|i: int| 0 <= i < k ==> #[trigger] blocks@[i] == BlockType::DEBUG,
        decreases TOTAL_CHUNK_SIZE - k,
    {
        blocks.push(BlockType::DEBUG);
        k += 1;
    }
    let mesh = World::compute_mesh(&blocks, offset);
    (blocks, mesh)
}

/// The pool of chunk slots: slot `s` holds a voxel grid, the chunk coordinate
/// it stands for, and the mesh of that grid.
pub struct ChunkArray {
    pub mesh_array: Vec<Mesh>,
    pub offset_array: Vec<[i32; 3]>,
    pub blocks_array: Vec<Blocks>,
}

impl ChunkArray {
    /// Number of slots.
    pub open spec fn len(&self) -> nat {
        self.blocks_array@.len()
    }

    pub open spec fn grid(&self, s: int) -> Seq<BlockType> {
        self.blocks_array@[s]@
    }

    pub open spec fn offset(&self, s: int) -> [i32; 3] {
        self.offset_array@[s]
    }

    pub open spec fn mesh(&self, s: int) -> Mesh {
        self.mesh_array@[s]
    }

    /// Slot `s` is whole: a full grid and the mesh of that grid at its
    /// coordinate.
    pub open spec fn slot_wf(&self, s: int) -> bool {
        &&& self.grid(s).len() == TOTAL_CHUNK_SIZE
        &&& self.mesh(s).is_mesh_of(self.grid(s), self.offset(s))
    }

    pub open spec fn wf(&self) -> bool {
        &&& self.mesh_array@.len() == self.len()
        &&& self.offset_array@.len() == self.len()
        &&& forall|s: int| 0 <= s < self.len() ==> #[trigger] self.slot_wf(s)
    }

    /// Slot `s` holds the same grid, coordinate and mesh in both pools.
    pub open spec fn same_slot(&self, other: &ChunkArray, s: int) -> bool {
        &&& self.grid(s) == other.grid(s)
        &&& self.offset(s) == other.offset(s)
        &&& self.mesh(s) == other.mesh(s)
    }

    pub fn new() -> (r: Self)
        ensures
            r.wf(),
            r.len() == 0,
    {
        ChunkArray { mesh_array: Vec::new(), offset_array: Vec::new(), blocks_array: Vec::new() }
    }

    /// Adds a slot for chunk coordinate `offset`, holding the placeholder grid.
    pub fn new_chunk(&mut self, offset: [i32; 3])
        requires
            old(self).wf(),
        ensures
            final(self).wf(),
            final(self).len() == old(self).len() + 1,
            forall|s: int| 0 <= s < old(self).len() ==> #[trigger] final(self).same_slot(old(self), s),
            final(self).offset(old(self).len() as int) == offset,
            forall|k: int| 0 <= k < TOTAL_CHUNK_SIZE ==>
                #[trigger] final(self).grid(old(self).len() as int)[k] == BlockType::DEBUG,
    {
        let (blocks, mesh) = init_blocks_and_mesh(offset);
        self.mesh_array.push(mesh);
        self.blocks_array.push(blocks);
        self.offset_array.push(offset);
        assert(forall|s: int| 0 <= s < old(self).len() ==> #[trigger] self.same_slot(old(self), s));
        assert forall|s: int| 0 <= s < self.len() implies #[trigger] self.slot_wf(s) by {
            if s < old(self).len() {
                assert(self.same_slot(old(self), s));
                assert(old(self).slot_wf(s));
            }
        }
    }

    pub fn pos_in_chunk_bounds(pos: Vec3i) -> (r: bool)
        ensures
            r == in_chunk(pos.x as int, pos.y as int, pos.z as int),
    {
        pos.x >= 0 && pos.y >= 0 && pos.z >= 0 && pos.x < CHUNK_X_SIZE as i32 && pos.y < CHUNK_Y_SIZE as i32
            && pos.z < CHUNK_Z_SIZE as i32
    }

    /// Sets the material of the voxel at local `position` of slot
    /// `chunk_index` and rebuilds that slot's mesh.
    pub fn change_block(&mut self, chunk_index: usize, position: [usize; 3], new_material_type: BlockType) -> (r: Result<(), BoundsError>)
        requires
            old(self).wf(),
            chunk_index < old(self).len(),
        ensures
            final(self).wf(),
            final(self).len() == old(self).len(),
            r is Err <==> !in_chunk(position[0] as int, position[1] as int, position[2] as int),
            r is Err ==> *final(self) == *old(self),
            r is Ok ==> {
                &&& final(self).grid(chunk_index as int) == old(self).grid(chunk_index as int).update(
                    grid_index(position[0] as int, position[1] as int, position[2] as int),
                    new_material_type,
                )
                &&& final(self).offset(chunk_index as int) == old(self).offset(chunk_index as int)
            },
            forall|s: int| 0 <= s < old(self).len() && s != chunk_index ==> #[trigger] final(self).same_slot(old(self), s),
    {
        let x = position[0];
        let y = position[1];
        let z = position[2];
        if x >= CHUNK_X_SIZE || y >= CHUNK_Y_SIZE || z >= CHUNK_Z_SIZE {
            return Err(BoundsError);
        }
        assert(self.slot_wf(chunk_index as int));
        let mut grid = self.blocks_array[chunk_index].clone();
        assert(grid@ =~= self.grid(chunk_index as int));
        grid.set(y * 256 + x * 16 + z, new_material_type);
        let offset = self.offset_array[chunk_index];
        let mesh = World::compute_mesh(&grid, offset);
        self.blocks_array.set(chunk_index, grid);
        self.mesh_array.set(chunk_index, mesh);
        assert(forall|s: int| 0 <= s < old(self).len() && s != chunk_index ==> #[trigger] self.same_slot(old(self), s));
        assert(self.slot_wf(chunk_index as int));
        assert forall|s: int| 0 <= s < self.len() implies #[trigger] self.slot_wf(s) by {
            if s != chunk_index {
                assert(self.same_slot(old(self), s));
                assert(old(self).slot_wf(s));
            }
        }
        Ok(())
    }

    /// The voxel at local `position` of slot `chunk_index`.
    pub fn get_block(&self, chunk_index: usize, position: [i32; 3]) -> (r: Result<Block, BoundsError>)
        requires
            self.wf(),
            chunk_index < self.len(),
        ensures
            r is Err <==> !in_chunk(position[0] as int, position[1] as int, position[2] as int),
            r matches Ok(b) ==> {
                &&& b.material_type == self.grid(chunk_index as int)[grid_index(
                    position[0] as int,
                    position[1] as int,
                    position[2] as int,
                )]
                &&& b.position == (Vec3i { x: position[0], y: position[1], z: position[2] })
            },
    {
        let x = position[0];
        let y = position[1];
        let z = position[2];
        if x < 0 || y < 0 || z < 0 || x >= CHUNK_X_SIZE as i32 || y >= CHUNK_Y_SIZE as i32 || z >= CHUNK_Z_SIZE as i32 {
            return Err(BoundsError);
        }
        assert(self.slot_wf(chunk_index as int));
        let k = (y as usize) * 256 + (x as usize) * 16 + (z as usize);
        let material = self.blocks_array[chunk_index][k];
        Ok(Block::new(material, Vec3i::new(x, y, z)))
    }

    /// Makes slot `slot` stand for chunk coordinate `offset`: its grid is
    /// replaced by terrain (flat, or reaching `heights`) and its mesh rebuilt.
    pub fn load_chunk(&mut self, slot: usize, offset: [i32; 3], heights: &HeightMap, flat_world: bool)
        requires
            old(self).wf(),
            slot < old(self).len(),
        ensures
            final(self).wf(),
            final(self).len() == old(self).len(),
            final(self).offset(slot as int) == offset,
            flat_world ==> is_flat_terrain(final(self).grid(slot as int)),
            !flat_world ==> is_terrain(final(self).grid(slot as int), heights@),
            forall|s: int| 0 <= s < old(self).len() && s != slot ==> #[trigger] final(self).same_slot(old(self), s),
    {
        let mut grid: Blocks = Vec::new();
        let mut k: usize = 0;
        while k < TOTAL_CHUNK_SIZE
            invariant
                k <= TOTAL_CHUNK_SIZE,
                grid@.len() == k,
            decreases TOTAL_CHUNK_SIZE - k,
        {
            grid.push(BlockType::AIR);
            k += 1;
        }
        generate_chunk(&mut grid, heights, flat_world);
        let mesh = World::compute_mesh(&grid, offset);
        self.blocks_array.set(slot, grid);
        self.offset_array.set(slot, offset);
        self.mesh_array.set(slot, mesh);
        assert(forall|s: int| 0 <= s < old(self).len() && s != slot ==> #[trigger] self.same_slot(old(self), s));
        assert(self.slot_wf(slot as int));
        assert forall|s: int| 0 <= s < self.len() implies #[trigger] self.slot_wf(s) by {
            if s != slot {
                assert(self.same_slot(old(self), s));
                assert(old(self).slot_wf(s));
            }
        }
    }
}

} // verus!
