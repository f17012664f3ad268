use std::collections::VecDeque;

use vstd::prelude::*;
use vstd::seq_lib::seq_to_set_is_finite;
use vstd::set_lib::{lemma_int_range, lemma_subset_equality, set_int_range};

use crate::atlas::BlockType;
use crate::block::Block;
use crate::chunk::{grid_index, BoundsError, ChunkArray, CHUNK_X_SIZE, CHUNK_Y_SIZE, CHUNK_Z_SIZE};
use crate::chunk::mesh_faces;
use crate::mesher::{lemma_removal_face_count, solid_neighbour_count, voxel_face_count};
use crate::vector::{lemma_shifted_div_mod, Vec3i};
use crate::world_generation::{is_flat_terrain, is_terrain, HeightMap};

verus! {

/// Side of the square window of loaded chunks.
pub const WORLD_SIZE: usize = 10;

/// Number of chunk slots: one per window position.
pub const WORLD_ARRAY_SIZE: usize = WORLD_SIZE * WORLD_SIZE;

/// Settings that shape the world.
#[derive(Copy, Clone, Debug, PartialEq, Eq, Structural)]
pub struct Config {
    pub wireframe: bool,
    pub display_coordinates: bool,
    pub flat_world: bool,
}

impl Default for Config {
    fn default() -> (r: Self)
        ensures
            !r.wireframe && !r.display_coordinates && !r.flat_world,
    {
        Self { wireframe: false, display_coordinates: false, flat_world: false }
    }
}

/// Chunk coordinate `(cx, cz)` of the chunk holding world voxel `p`.
pub open spec fn chunk_of(p: Vec3i) -> (int, int) {
    (p.x as int / CHUNK_X_SIZE as int, p.z as int / CHUNK_Z_SIZE as int)
}

/// Window corner that centres the window on the chunk holding `p`.
pub open spec fn window_origin_for(p: Vec3i) -> (int, int) {
    (chunk_of(p).0 - 5, chunk_of(p).1 - 5)
}

/// Chunk coordinate of window index `i` for a window with corner `origin`.
pub open spec fn window_coord(origin: (int, int), i: int) -> (int, int) {
    (origin.0 + i % 10, origin.1 + i / 10)
}

pub open spec fn in_window(origin: (int, int), c: (int, int)) -> bool {
    0 <= c.0 - origin.0 < 10 && 0 <= c.1 - origin.1 < 10
}

/// Window index of chunk coordinate `c`.
pub open spec fn window_index(origin: (int, int), c: (int, int)) -> int {
    (c.1 - origin.1) * 10 + (c.0 - origin.0)
}

/// Chunk-local position of world voxel `p` (remainders are never negative).
pub open spec fn local_of(p: Vec3i) -> (int, int, int) {
    (p.x as int % CHUNK_X_SIZE as int, p.y as int % CHUNK_Y_SIZE as int, p.z as int % CHUNK_Z_SIZE as int)
}

pub open spec fn coord_of_offset(o: [i32; 3]) -> (int, int) {
    (o[0] as int, o[2] as int)
}

/// Number of unmapped window positions.
pub open spec fn none_count(s: Seq<Option<usize>>) -> nat
    decreases s.len(),
{
    if s.len() == 0 {
        0
    } else {
        none_count(s.drop_last()) + if s.last() is None {
            1nat
        } else {
            0nat
        }
    }
}

proof fn lemma_none_count_update(s: Seq<Option<usize>>, j: int, v: usize)
    requires
        0 <= j < s.len(),
        s[j] is None,
    ensures
        none_count(s.update(j, Some(v))) + 1 == none_count(s),
    decreases s.len(),
{
    if j == s.len() - 1 {
        assert(s.update(j, Some(v)).drop_last() =~= s.drop_last());
    } else {
        lemma_none_count_update(s.drop_last(), j, v);
        assert(s.update(j, Some(v)).drop_last() =~= s.drop_last().update(j, Some(v)));
    }
}

proof fn lemma_none_count_prefix(s: Seq<Option<usize>>, j: int)
    requires
        0 <= j < s.len(),
    ensures
        none_count(s.subrange(0, j + 1)) == none_count(s.subrange(0, j)) + if s[j] is None {
            1nat
        } else {
            0nat
        },
{
    assert(s.subrange(0, j + 1).drop_last() =~= s.subrange(0, j));
}

proof fn lemma_none_count_all_some(s: Seq<Option<usize>>)
    requires
        forall|i: int| 0 <= i < s.len() ==> #[trigger] s[i] is Some,
    ensures
        none_count(s) == 0,
    decreases s.len(),
{
    if s.len() > 0 {
        lemma_none_count_all_some(s.drop_last());
    }
}

proof fn lemma_none_count_all_none(s: Seq<Option<usize>>)
    requires
        forall|i: int| 0 <= i < s.len() ==> #[trigger] s[i] is None,
    ensures
        none_count(s) == s.len(),
    decreases s.len(),
{
    if s.len() > 0 {
        lemma_none_count_all_none(s.drop_last());
    }
}

/// Window coordinates and window indices are inverse to each other.
proof fn lemma_window_coord(origin: (int, int), i: int)
    requires
        0 <= i < 100,
    ensures
        in_window(origin, window_coord(origin, i)),
        window_index(origin, window_coord(origin, i)) == i,
{
}

proof fn lemma_window_index(origin: (int, int), c: (int, int))
    requires
        in_window(origin, c),
    ensures
        0 <= window_index(origin, c) < 100,
        window_coord(origin, window_index(origin, c)) == c,
{
}

/// Grid generated for chunk coordinate `offset`: flat, or reaching the
/// heights that `terrain` gives for `(seed, offset)`.
pub open spec fn is_generated<F: Fn(u32, [i32; 3]) -> HeightMap>(
    grid: Seq<BlockType>,
    flat: bool,
    seed: u32,
    offset: [i32; 3],
    terrain: F,
) -> bool {
    if flat {
        is_flat_terrain(grid)
    } else {
        exists|h: HeightMap| terrain.ensures((seed, offset), h) && is_terrain(grid, h@)
    }
}

/// Bound on the window corner, so that every coordinate computed from it fits.
pub const ORIGIN_BOUND: i32 = 0x0800_0010;

/// The streaming world: the slot pool, the window of chunk coordinates around
/// the observer, the slot mapped to each window position, and the slots that
/// no window position holds.
pub struct World {
    pub chunks: ChunkArray,
    chunk_indices: Vec<Option<usize>>,
    free_chunk_indices: VecDeque<usize>,
    center_offset: Vec3i,
    chunks_origin: Vec3i,
    world_seed: u32,
    config: Config,
}

impl World {
    /// The slot pool.
    pub closed spec fn pool(&self) -> ChunkArray {
        self.chunks
    }

    /// Chunk coordinate of the window's corner.
    pub closed spec fn origin(&self) -> (int, int) {
        (self.chunks_origin.x as int, self.chunks_origin.z as int)
    }

    /// Slot mapped to window index `i`.
    pub closed spec fn slot_at(&self, i: int) -> Option<usize> {
        self.chunk_indices@[i]
    }

    /// Slots that no window position holds, in the order they are handed out.
    pub closed spec fn free_slots(&self) -> Seq<usize> {
        self.free_chunk_indices@
    }

    pub closed spec fn seed(&self) -> u32 {
        self.world_seed
    }

    pub closed spec fn config_spec(&self) -> Config {
        self.config
    }

    pub open spec fn flat(&self) -> bool {
        self.config_spec().flat_world
    }

    /// The slot pool and the mapping agree, except that some window positions
    /// may still wait for a slot: exactly as many as there are free slots.
    pub open spec fn mapping_ok(&self) -> bool {
        &&& self.pool().wf()
        &&& self.pool().len() == WORLD_ARRAY_SIZE
        &&& self.index_len() == WORLD_ARRAY_SIZE
        &&& self.origin_ok()
        &&& forall|i: int| 0 <= i < 100 ==> (#[trigger] self.slot_at(i) matches Some(s) ==> {
            &&& s < 100
            &&& coord_of_offset(self.pool().offset(s as int)) == window_coord(self.origin(), i)
            &&& self.pool().offset(s as int)[1] == 0
        })
        &&& forall|i: int, j: int|
            0 <= i < 100 && 0 <= j < 100 && i != j && (#[trigger] self.slot_at(i)) is Some ==> self.slot_at(i)
                != #[trigger] self.slot_at(j)
        &&& forall|k: int| 0 <= k < self.free_slots().len() ==> #[trigger] self.free_slots()[k] < 100
        &&& forall|k1: int, k2: int|
            0 <= k1 < self.free_slots().len() && 0 <= k2 < self.free_slots().len() && k1 != k2
                ==> #[trigger] self.free_slots()[k1] != #[trigger] self.free_slots()[k2]
        &&& forall|k: int, i: int|
            0 <= k < self.free_slots().len() && 0 <= i < 100 ==> #[trigger] self.slot_at(i) != Some(
                #[trigger] self.free_slots()[k],
            )
        &&& self.free_slots().len() == self.unmapped_count()
        &&& self.center_ok()
    }

    pub open spec fn origin_ok(&self) -> bool {
        &&& -ORIGIN_BOUND <= self.origin().0 <= ORIGIN_BOUND
        &&& -ORIGIN_BOUND <= self.origin().1 <= ORIGIN_BOUND
    }

    pub closed spec fn index_len(&self) -> nat {
        self.chunk_indices@.len()
    }

    /// Number of unmapped window positions before window index `i`.
    pub closed spec fn unmapped_before(&self, i: int) -> nat {
        none_count(self.chunk_indices@.subrange(0, i))
    }

    pub closed spec fn unmapped_count(&self) -> nat {
        none_count(self.chunk_indices@)
    }

    pub closed spec fn center_ok(&self) -> bool {
        &&& self.chunks_origin.y == 0
        &&& self.center_offset == (Vec3i {
            x: (self.chunks_origin.x + 5) as i32,
            y: 0,
            z: (self.chunks_origin.z + 5) as i32,
        })
    }

    /// Every window position holds a slot, and no slot is free.
    pub open spec fn wf(&self) -> bool {
        &&& self.mapping_ok()
        &&& forall|i: int| 0 <= i < 100 ==> #[trigger] self.slot_at(i) is Some
        &&& self.free_slots().len() == 0
    }

    /// Slot holding chunk coordinate `c`, if it lies in the window.
    pub open spec fn lookup(&self, c: (int, int)) -> Option<usize> {
        if in_window(self.origin(), c) {
            self.slot_at(window_index(self.origin(), c))
        } else {
            None
        }
    }

    /// Material of world voxel `p`, if it is loaded.
    pub open spec fn block_at(&self, p: Vec3i) -> Option<BlockType> {
        if 0 <= p.y < CHUNK_Y_SIZE {
            match self.lookup(chunk_of(p)) {
                Some(s) => Some(
                    self.pool().grid(s as int)[grid_index(local_of(p).0, local_of(p).1, local_of(p).2)],
                ),
                None => None,
            }
        } else {
            None
        }
    }

    /// Window index `i` holds a slot whose grid was generated for its chunk
    /// coordinate.
    pub open spec fn slot_generated<F: Fn(u32, [i32; 3]) -> HeightMap>(&self, i: int, terrain: F) -> bool {
        &&& self.slot_at(i) is Some
        &&& is_generated(
            self.pool().grid(self.slot_at(i)->0 as int),
            self.flat(),
            self.seed(),
            self.pool().offset(self.slot_at(i)->0 as int),
            terrain,
        )
    }

    /// World voxel `p` is loaded and not air.
    pub open spec fn hits(&self, p: Vec3i) -> bool {
        self.block_at(p) matches Some(m) && m != BlockType::AIR
    }
}

impl World {
    /// World position to the coordinate of the chunk holding it (`y` is
    /// always 0: the window is flat).
    pub fn world_pos_to_chunk_offset(world_pos: Vec3i) -> (r: Vec3i)
        ensures
            (r.x as int, r.z as int) == chunk_of(world_pos),
            r.y == 0,
            -0x0800_0000 <= r.x < 0x0800_0000,
            -0x0800_0000 <= r.z < 0x0800_0000,
    {
        proof {
            lemma_shifted_div_mod(world_pos.x as int, 0x0800_0000, 16);
            lemma_shifted_div_mod(world_pos.z as int, 0x0800_0000, 16);
        }
        let x = ((world_pos.x as i64 + 0x8000_0000) / 16 - 0x0800_0000) as i32;
        let z = ((world_pos.z as i64 + 0x8000_0000) / 16 - 0x0800_0000) as i32;
        Vec3i::new(x, 0, z)
    }

    /// World voxel position to its position inside its chunk.
    #[verifier::spinoff_prover]
    pub fn world_pos_to_block_pos(world_pos: Vec3i) -> (r: Vec3i)
        ensures
            (r.x as int, r.y as int, r.z as int) == local_of(world_pos),
            0 <= r.x < CHUNK_X_SIZE,
            0 <= r.y < CHUNK_Y_SIZE,
            0 <= r.z < CHUNK_Z_SIZE,
    {
        proof {
            lemma_shifted_div_mod(world_pos.x as int, 0x0800_0000, 16);
            lemma_shifted_div_mod(world_pos.y as int, 0x0100_0000, 200);
            lemma_shifted_div_mod(world_pos.z as int, 0x0800_0000, 16);
        }
        let x = ((world_pos.x as i64 + 0x8000_0000) % 16) as i32;
        let y = ((world_pos.y as i64 + 0xC800_0000) % 200) as i32;
        let z = ((world_pos.z as i64 + 0x8000_0000) % 16) as i32;
        Vec3i::new(x, y, z)
    }

    /// World position of the voxel at local `block_pos` of the chunk at
    /// `chunk_offset`.
    pub fn block_pos_to_world_pos(block_pos: Vec3i, chunk_offset: Vec3i) -> (r: [i64; 3])
        ensures
            r[0] == block_pos.x + chunk_offset.x * CHUNK_X_SIZE,
            r[1] == block_pos.y,
            r[2] == block_pos.z + chunk_offset.z * CHUNK_Z_SIZE,
    {
        [
            block_pos.x as i64 + chunk_offset.x as i64 * 16,
            block_pos.y as i64,
            block_pos.z as i64 + chunk_offset.z as i64 * 16,
        ]
    }

    /// Chunk coordinate of window index `i`.
    pub fn get_chunk_offset(&self, i: usize) -> (r: Vec3i)
        requires
            self.origin_ok(),
            i < WORLD_ARRAY_SIZE,
        ensures
            (r.x as int, r.z as int) == window_coord(self.origin(), i as int),
            r.y == 0,
    {
        Vec3i::new(self.chunks_origin.x + (i % WORLD_SIZE) as i32, 0, self.chunks_origin.z + (i / WORLD_SIZE) as i32)
    }

    /// Window index of chunk coordinate `chunk_offset`, which lies in the
    /// window.
    pub fn get_chunk_world_index(&self, chunk_offset: Vec3i) -> (r: usize)
        requires
            self.origin_ok(),
            in_window(self.origin(), (chunk_offset.x as int, chunk_offset.z as int)),
        ensures
            r == window_index(self.origin(), (chunk_offset.x as int, chunk_offset.z as int)),
            r < WORLD_ARRAY_SIZE,
    {
        let px = (chunk_offset.x - self.chunks_origin.x) as usize;
        let pz = (chunk_offset.z - self.chunks_origin.z) as usize;
        pz * WORLD_SIZE + px
    }

    /// Whether chunk coordinate `chunk_offset` lies in the window.
    pub fn chunk_in_bounds(&self, chunk_offset: Vec3i) -> (r: bool)
        requires
            self.origin_ok(),
        ensures
            r == in_window(self.origin(), (chunk_offset.x as int, chunk_offset.z as int)),
    {
        let px = chunk_offset.x as i64 - self.chunks_origin.x as i64;
        let pz = chunk_offset.z as i64 - self.chunks_origin.z as i64;
        px >= 0 && pz >= 0 && px < WORLD_SIZE as i64 && pz < WORLD_SIZE as i64
    }

    /// Slot holding chunk coordinate `chunk_offset`, if it lies in the window.
    pub fn get_chunk_index(&self, chunk_offset: Vec3i) -> (r: Option<usize>)
        requires
            self.mapping_ok(),
        ensures
            r == self.lookup((chunk_offset.x as int, chunk_offset.z as int)),
    {
        if !self.chunk_in_bounds(chunk_offset) {
            return None;
        }
        let i = self.get_chunk_world_index(chunk_offset);
        self.chunk_indices[i]
    }

    /// The voxel at world position `world_pos`, if it is loaded.
    pub fn get_block(&self, world_pos: Vec3i) -> (r: Option<Block>)
        requires
            self.wf(),
        ensures
            r is Some <==> self.block_at(world_pos) is Some,
            r matches Some(b) ==> {
                &&& Some(b.material_type) == self.block_at(world_pos)
                &&& (b.position.x as int, b.position.y as int, b.position.z as int) == local_of(world_pos)
            },
    {
        let chunk_offset = World::world_pos_to_chunk_offset(world_pos);
        if world_pos.y >= 0 && world_pos.y < CHUNK_Y_SIZE as i32 && self.chunk_in_bounds(chunk_offset) {
            if let Some(chunk_index) = self.get_chunk_index(chunk_offset) {
                let block_pos = World::world_pos_to_block_pos(world_pos);
                let b = self.chunks.get_block(chunk_index, [block_pos.x, block_pos.y, block_pos.z]);
                return match b {
                    Ok(b) => Some(b),
                    Err(_) => None,
                };
            }
            return None;
        }
        None
    }

    /// Whether the voxel at `world_pos` is loaded and is air.
    pub fn block_is_air(&self, world_pos: Vec3i) -> (r: bool)
        requires
            self.wf(),
        ensures
            r == (self.block_at(world_pos) == Some(BlockType::AIR)),
    {
        if let Some(block) = self.get_block(world_pos) {
            if block.material_type == BlockType::AIR {
                return true;
            }
        }
        false
    }

    /// Whether the voxel at `pos` is loaded and solid.
    pub fn is_hitting_block(&self, pos: Vec3i) -> (r: bool)
        requires
            self.wf(),
        ensures
            r == self.hits(pos),
    {
        if let Some(block) = self.get_block(pos) {
            if block.material_type == BlockType::AIR {
                return false;
            }
            return true;
        }
        false
    }
}

impl World {
    /// Gives every window position that holds no slot a free slot, in window
    /// order, and fills it with the terrain of its chunk coordinate.
    #[verifier::spinoff_prover]
    pub fn load_empty_chunks<F: Fn(u32, [i32; 3]) -> HeightMap>(&mut self, terrain: &F)
        requires
            old(self).mapping_ok(),
            forall|seed: u32, c: [i32; 3]| terrain.requires((seed, c)),
        ensures
            final(self).wf(),
            final(self).origin() == old(self).origin(),
            final(self).seed() == old(self).seed(),
            final(self).config_spec() == old(self).config_spec(),
            forall|i: int| 0 <= i < 100 ==> (#[trigger] old(self).slot_at(i) matches Some(s) ==> {
                &&& final(self).slot_at(i) == Some(s)
                &&& final(self).pool().same_slot(&old(self).pool(), s as int)
            }),
            forall|i: int| 0 <= i < 100 ==> (#[trigger] old(self).slot_at(i) is None ==> final(self).slot_generated(i, *terrain)),
            forall|i: int| 0 <= i < 100 ==> (#[trigger] old(self).slot_at(i) is None ==> final(self).slot_at(i) == Some(
                old(self).free_slots()[old(self).unmapped_before(i) as int],
            )),
    {
        let ghost old_world = *self;
        let mut i: usize = 0;
        while i < WORLD_ARRAY_SIZE
            invariant
                forall|seed: u32, c: [i32; 3]| terrain.requires((seed, c)),
                i <= WORLD_ARRAY_SIZE,
                self.mapping_ok(),
                self.origin() == old_world.origin(),
                self.seed() == old_world.seed(),
                self.config_spec() == old_world.config_spec(),
                forall|j: int| 0 <= j < i ==> #[trigger] self.slot_at(j) is Some,
                forall|j: int| 0 <= j < 100 ==> (#[trigger] old_world.slot_at(j) matches Some(s) ==> {
                    &&& self.slot_at(j) == Some(s)
                    &&& self.pool().same_slot(&old_world.pool(), s as int)
                }),
                forall|j: int| 0 <= j < 100 ==> (#[trigger] old_world.slot_at(j) is None ==> if j < i {
                    self.slot_generated(j, *terrain)
                } else {
                    self.slot_at(j) is None
                }),
                old_world.mapping_ok(),
                self.free_slots().len() + old_world.unmapped_before(i as int) == old_world.free_slots().len(),
                forall|k: int| 0 <= k < self.free_slots().len() ==> #[trigger] self.free_slots()[k] == old_world.free_slots()[k
                    + old_world.unmapped_before(i as int)],
                forall|j: int| 0 <= j < i ==> (#[trigger] old_world.slot_at(j) is None ==> self.slot_at(j) == Some(
                    old_world.free_slots()[old_world.unmapped_before(j) as int],
                )),
            decreases WORLD_ARRAY_SIZE - i,
        {
            proof {
                lemma_none_count_prefix(old_world.chunk_indices@, i as int);
            }
            if self.chunk_indices[i].is_none() {
                proof {
                    lemma_none_count_update(self.chunk_indices@, i as int, 0);
                }
                let chunk_offset = self.get_chunk_offset(i);
                let ghost before = *self;
                let new_index = self.free_chunk_indices.pop_front().unwrap();
                assert(new_index == before.free_slots()[0]);
                let offset: [i32; 3] = [chunk_offset.x, 0, chunk_offset.z];
                let heights: HeightMap = if self.config.flat_world {
                    [0; 256]
                } else {
                    terrain(self.world_seed, offset)
                };
                self.chunks.load_chunk(new_index, offset, &heights, self.config.flat_world);
                proof {
                    lemma_none_count_update(self.chunk_indices@, i as int, new_index);
                }
                self.chunk_indices.set(i, Some(new_index));
                assert(self.free_slots() =~= before.free_slots().drop_first());
                assert(old_world.slot_at(i as int) is None);
                assert forall|k: int| 0 <= k < self.free_slots().len() implies #[trigger] self.free_slots()[k]
                    == old_world.free_slots()[k + old_world.unmapped_before(i + 1)] by {
                    assert(self.free_slots()[k] == before.free_slots()[k + 1]);
                }
                assert forall|j: int| 0 <= j < i + 1 implies (#[trigger] old_world.slot_at(j) is None ==> self.slot_at(j) == Some(
                    old_world.free_slots()[old_world.unmapped_before(j) as int],
                )) by {
                    if j < i {
                        assert(before.slot_at(j) == self.slot_at(j));
                    }
                }
                assert forall|j: int| 0 <= j < i + 1 implies #[trigger] self.slot_at(j) is Some by {
                    if j < i {
                        assert(before.slot_at(j) is Some);
                    }
                }
                assert forall|k: int| 0 <= k < self.free_slots().len() implies #[trigger] self.free_slots()[k] < 100 by {
                    assert(self.free_slots()[k] == before.free_slots()[k + 1]);
                }
                assert forall|k1: int, k2: int|
                    0 <= k1 < self.free_slots().len() && 0 <= k2 < self.free_slots().len() && k1 != k2
                        implies #[trigger] self.free_slots()[k1] != #[trigger] self.free_slots()[k2] by {
                    assert(self.free_slots()[k1] == before.free_slots()[k1 + 1]);
                    assert(self.free_slots()[k2] == before.free_slots()[k2 + 1]);
                }
                assert forall|k: int, j: int| 0 <= k < self.free_slots().len() && 0 <= j < 100 implies #[trigger] self.slot_at(j)
                    != Some(#[trigger] self.free_slots()[k]) by {
                    assert(self.free_slots()[k] == before.free_slots()[k + 1]);
                    assert(before.free_slots()[k + 1] != before.free_slots()[0]);
                    if j != i {
                        assert(before.slot_at(j) != Some(before.free_slots()[k + 1]));
                    }
                }
                assert forall|j: int| 0 <= j < 100 implies (#[trigger] self.slot_at(j) matches Some(s) ==> {
                    &&& s < 100
                    &&& coord_of_offset(self.pool().offset(s as int)) == window_coord(self.origin(), j)
                    &&& self.pool().offset(s as int)[1] == 0
                }) by {
                    if j != i {
                        if let Some(s) = before.slot_at(j) {
                            assert(before.slot_at(j) != Some(before.free_slots()[0]));
                            assert(self.pool().same_slot(&before.pool(), s as int));
                        }
                    }
                }
                assert forall|a: int, b: int|
                    0 <= a < 100 && 0 <= b < 100 && a != b && (#[trigger] self.slot_at(a)) is Some implies self.slot_at(a)
                    != #[trigger] self.slot_at(b) by {
                    if a == i {
                        assert(before.slot_at(b) != Some(before.free_slots()[0]));
                    } else if b == i {
                        assert(before.slot_at(a) != Some(before.free_slots()[0]));
                    }
                }
                assert forall|j: int| 0 <= j < 100 implies (#[trigger] old_world.slot_at(j) matches Some(s) ==> {
                    &&& self.slot_at(j) == Some(s)
                    &&& self.pool().same_slot(&old_world.pool(), s as int)
                }) by {
                    if let Some(s) = old_world.slot_at(j) {
                        assert(before.slot_at(j) == Some(s));
                        assert(before.slot_at(j) != Some(before.free_slots()[0]));
                        assert(self.pool().same_slot(&before.pool(), s as int));
                    }
                }
                assert forall|j: int| 0 <= j < 100 implies (#[trigger] old_world.slot_at(j) is None ==> if j < i + 1 {
                    self.slot_generated(j, *terrain)
                } else {
                    self.slot_at(j) is None
                }) by {
                    if old_world.slot_at(j) is None && j < i {
                        let s = before.slot_at(j).unwrap();
                        assert(before.slot_at(j) != Some(before.free_slots()[0]));
                        assert(self.pool().same_slot(&before.pool(), s as int));
                    }
                    if j == i && !self.flat() {
                        assert(terrain.ensures((self.seed(), offset), heights));
                    }
                }
            }
            i += 1;
        }
        proof {
            assert forall|j: int| 0 <= j < self.chunk_indices@.len() implies #[trigger] self.chunk_indices@[j] is Some by {
                assert(self.slot_at(j) is Some);
            }
            lemma_none_count_all_some(self.chunk_indices@);
        }
    }
}

/// Slot that window index `j` of the window at `new_origin` holds once the
/// first `i` window positions of `old` have been carried over.
pub open spec fn carried_slot(old: World, new_origin: (int, int), j: int, i: int) -> Option<usize> {
    let c = window_coord(new_origin, j);
    if in_window(old.origin(), c) && window_index(old.origin(), c) < i {
        old.slot_at(window_index(old.origin(), c))
    } else {
        None
    }
}

/// Number of window positions before index `i` of the window at `new_origin`
/// whose chunk lies outside the window at `old_origin`: the positions that
/// enter the window when it moves.
pub open spec fn entering_before(old_origin: (int, int), new_origin: (int, int), i: int) -> nat
    decreases i,
{
    if i <= 0 {
        0
    } else {
        entering_before(old_origin, new_origin, i - 1) + if in_window(old_origin, window_coord(new_origin, i - 1)) {
            0nat
        } else {
            1nat
        }
    }
}

/// Slots of the first `n` window positions of `old` whose chunk lies outside
/// the window at `new_origin`, in window order: the slots freed when the
/// window moves there.
pub open spec fn leaving_slots(old: World, new_origin: (int, int), n: int) -> Seq<usize>
    decreases n,
{
    if n <= 0 {
        Seq::empty()
    } else if in_window(new_origin, window_coord(old.origin(), n - 1)) {
        leaving_slots(old, new_origin, n - 1)
    } else {
        leaving_slots(old, new_origin, n - 1).push(old.slot_at(n - 1)->0)
    }
}

proof fn lemma_unmapped_is_entering(mid: World, old: World, new_origin: (int, int), i: int)
    requires
        0 <= i <= 100,
        mid.index_len() == 100,
        old.wf(),
        forall|j: int| 0 <= j < 100 ==> #[trigger] mid.slot_at(j) == carried_slot(old, new_origin, j, 100),
    ensures
        mid.unmapped_before(i) == entering_before(old.origin(), new_origin, i),
    decreases i,
{
    if i > 0 {
        lemma_unmapped_is_entering(mid, old, new_origin, i - 1);
        lemma_none_count_prefix(mid.chunk_indices@, i - 1);
        assert(mid.slot_at(i - 1) == carried_slot(old, new_origin, i - 1, 100));
        if in_window(old.origin(), window_coord(new_origin, i - 1)) {
            lemma_window_index(old.origin(), window_coord(new_origin, i - 1));
            assert(old.slot_at(window_index(old.origin(), window_coord(new_origin, i - 1))) is Some);
        }
    }
}

impl World {
    /// Recentres the window on the chunk holding `pos`. Slots whose chunk
    /// stays in the window keep their contents and move to its new index; the
    /// others are freed and handed, in window order, to the positions that
    /// entered the window, whose terrain and mesh are then generated. Nothing
    /// happens when the window does not move.
    #[verifier::spinoff_prover]
    pub fn set_center<F: Fn(u32, [i32; 3]) -> HeightMap>(&mut self, pos: Vec3i, terrain: &F)
        requires
            old(self).wf(),
            forall|seed: u32, c: [i32; 3]| terrain.requires((seed, c)),
        ensures
            final(self).wf(),
            recentred(*old(self), *final(self), pos),
            final(self).seed() == old(self).seed(),
            final(self).config_spec() == old(self).config_spec(),
            forall|i: int| 0 <= i < 100 && in_window(old(self).origin(), #[trigger] window_coord(final(self).origin(), i)) ==> {
                &&& final(self).slot_at(i) == old(self).slot_at(window_index(old(self).origin(), window_coord(final(self).origin(), i)))
                &&& final(self).pool().same_slot(&old(self).pool(), final(self).slot_at(i)->0 as int)
            },
            forall|i: int| 0 <= i < 100 && !in_window(old(self).origin(), #[trigger] window_coord(final(self).origin(), i))
                ==> final(self).slot_generated(i, *terrain),
            forall|i: int| 0 <= i < 100 && !in_window(old(self).origin(), #[trigger] window_coord(final(self).origin(), i))
                ==> final(self).slot_at(i) == Some(
                leaving_slots(*old(self), final(self).origin(), 100)[entering_before(
                    old(self).origin(),
                    final(self).origin(),
                    i,
                ) as int],
            ),
    {
        let new_offset = World::world_pos_to_chunk_offset(pos);
        let new_origin = Vec3i::new(new_offset.x - 5, 0, new_offset.z - 5);
        if new_origin == self.chunks_origin {
            return;
        }
        let ghost old_world = *self;
        let ghost n_origin = (new_origin.x as int, new_origin.z as int);
        self.center_offset = new_offset;
        self.chunks_origin = new_origin;
        let mut old_indices: Vec<Option<usize>> = Vec::new();
        let mut k: usize = 0;
        while k < WORLD_ARRAY_SIZE
            invariant
                k <= WORLD_ARRAY_SIZE,
                old_indices@.len() == k,
                forall|j: int| 0 <= j < k ==> #[trigger] old_indices@[j] is None,
            decreases WORLD_ARRAY_SIZE - k,
        {
            old_indices.push(None);
            k += 1;
        }
        std::mem::swap(&mut self.chunk_indices, &mut old_indices);
        assert(old_indices@ == old_world.chunk_indices@);
        assert(self.free_slots() =~= leaving_slots(old_world, n_origin, 0));
        proof {
            lemma_none_count_all_none(self.chunk_indices@);
            assert forall|j: int| 0 <= j < 100 implies #[trigger] self.slot_at(j) == carried_slot(old_world, n_origin, j, 0) by {
            }
        }
        let mut i: usize = 0;
        while i < WORLD_ARRAY_SIZE
            invariant
                i <= WORLD_ARRAY_SIZE,
                old_world.wf(),
                old_indices@ == old_world.chunk_indices@,
                self.chunks == old_world.chunks,
                self.origin() == n_origin,
                self.origin_ok(),
                self.center_ok(),
                self.seed() == old_world.seed(),
                self.config_spec() == old_world.config_spec(),
                self.index_len() == 100,
                forall|j: int| 0 <= j < 100 ==> #[trigger] self.slot_at(j) == carried_slot(old_world, n_origin, j, i as int),
                forall|k: int| 0 <= k < self.free_slots().len() ==> #[trigger] self.free_slots()[k] < 100,
                forall|k1: int, k2: int|
                    0 <= k1 < self.free_slots().len() && 0 <= k2 < self.free_slots().len() && k1 != k2
                        ==> #[trigger] self.free_slots()[k1] != #[trigger] self.free_slots()[k2],
                forall|k: int, j: int|
                    0 <= k < self.free_slots().len() && i <= j < 100 ==> #[trigger] old_world.slot_at(j) != Some(
                        #[trigger] self.free_slots()[k],
                    ),
                forall|k: int, j: int|
                    0 <= k < self.free_slots().len() && 0 <= j < 100 ==> #[trigger] self.slot_at(j) != Some(
                        #[trigger] self.free_slots()[k],
                    ),
                self.unmapped_count() == 100 - i + self.free_slots().len(),
                self.free_slots() == leaving_slots(old_world, n_origin, i as int),
            decreases WORLD_ARRAY_SIZE - i,
        {
            let ghost before = *self;
            assert(old_world.slot_at(i as int) is Some);
            let chunk_index = old_indices[i].unwrap();
            assert(old_world.pool().slot_wf(chunk_index as int));
            let offset = self.chunks.offset_array[chunk_index];
            let chunk_offset = Vec3i::new(offset[0], 0, offset[2]);
            let ghost c = (offset[0] as int, offset[2] as int);
            assert(c == window_coord(old_world.origin(), i as int));
            proof {
                lemma_window_coord(old_world.origin(), i as int);
            }
            if self.chunk_in_bounds(chunk_offset) {
                let j = self.get_chunk_world_index(chunk_offset);
                proof {
                    lemma_window_index(n_origin, c);
                    assert(self.slot_at(j as int) is None);
                    lemma_none_count_update(self.chunk_indices@, j as int, chunk_index);
                }
                self.chunk_indices.set(j, Some(chunk_index));
                assert forall|jj: int| 0 <= jj < 100 implies #[trigger] self.slot_at(jj) == carried_slot(
                    old_world,
                    n_origin,
                    jj,
                    i + 1,
                ) by {
                    lemma_window_coord(n_origin, jj);
                    if jj != j {
                        assert(before.slot_at(jj) == carried_slot(old_world, n_origin, jj, i as int));
                        if in_window(old_world.origin(), window_coord(n_origin, jj)) {
                            lemma_window_index(old_world.origin(), window_coord(n_origin, jj));
                        }
                    }
                }
                assert forall|k: int, jj: int| 0 <= k < self.free_slots().len() && 0 <= jj < 100 implies #[trigger] self.slot_at(jj)
                    != Some(#[trigger] self.free_slots()[k]) by {
                    if jj != j {
                        assert(before.slot_at(jj) != Some(before.free_slots()[k]));
                    }
                }
            } else {
                let ghost cs = self.free_slots();
                self.free_chunk_indices.push_back(chunk_index);
                assert(self.free_slots() == cs.push(chunk_index));
                assert(leaving_slots(old_world, n_origin, i + 1) == cs.push(chunk_index));
                assert forall|jj: int| 0 <= jj < 100 implies #[trigger] self.slot_at(jj) == carried_slot(
                    old_world,
                    n_origin,
                    jj,
                    i + 1,
                ) by {
                    assert(before.slot_at(jj) == carried_slot(old_world, n_origin, jj, i as int));
                    lemma_window_coord(n_origin, jj);
                    if in_window(old_world.origin(), window_coord(n_origin, jj)) {
                        lemma_window_index(old_world.origin(), window_coord(n_origin, jj));
                    }
                }
                assert forall|k: int| 0 <= k < self.free_slots().len() implies #[trigger] self.free_slots()[k] < 100 by {
                    if k < cs.len() {
                        assert(self.free_slots()[k] == cs[k]);
                    }
                }
                assert forall|k1: int, k2: int|
                    0 <= k1 < self.free_slots().len() && 0 <= k2 < self.free_slots().len() && k1 != k2
                        implies #[trigger] self.free_slots()[k1] != #[trigger] self.free_slots()[k2] by {
                    if k1 < cs.len() && k2 < cs.len() {
                        assert(self.free_slots()[k1] == cs[k1]);
                        assert(self.free_slots()[k2] == cs[k2]);
                    } else if k1 < cs.len() {
                        assert(old_world.slot_at(i as int) != Some(cs[k1]));
                    } else if k2 < cs.len() {
                        assert(old_world.slot_at(i as int) != Some(cs[k2]));
                    }
                }
                assert forall|k: int, jj: int|
                    0 <= k < self.free_slots().len() && i + 1 <= jj < 100 implies #[trigger] old_world.slot_at(jj) != Some(
                        #[trigger] self.free_slots()[k],
                    ) by {
                    if k < cs.len() {
                        assert(self.free_slots()[k] == cs[k]);
                    }
                }
                assert forall|k: int, jj: int| 0 <= k < self.free_slots().len() && 0 <= jj < 100 implies #[trigger] self.slot_at(jj)
                    != Some(#[trigger] self.free_slots()[k]) by {
                    if k < cs.len() {
                        assert(self.free_slots()[k] == cs[k]);
                        assert(before.slot_at(jj) != Some(cs[k]));
                    } else {
                        let w = window_index(old_world.origin(), window_coord(n_origin, jj));
                        if self.slot_at(jj) is Some {
                            assert(w < i);
                            assert(old_world.slot_at(w) != old_world.slot_at(i as int));
                        }
                    }
                }
            }
            i += 1;
        }
        assert forall|j: int| 0 <= j < 100 implies (#[trigger] self.slot_at(j) matches Some(s) ==> {
            &&& s < 100
            &&& coord_of_offset(self.pool().offset(s as int)) == window_coord(self.origin(), j)
            &&& self.pool().offset(s as int)[1] == 0
        }) by {
            if let Some(s) = self.slot_at(j) {
                let w = window_index(old_world.origin(), window_coord(n_origin, j));
                lemma_window_index(old_world.origin(), window_coord(n_origin, j));
                assert(old_world.slot_at(w) == Some(s));
                assert(old_world.pool().slot_wf(s as int));
            }
        }
        assert forall|a: int, b: int|
            0 <= a < 100 && 0 <= b < 100 && a != b && (#[trigger] self.slot_at(a)) is Some implies self.slot_at(a)
            != #[trigger] self.slot_at(b) by {
            if self.slot_at(b) is Some {
                let wa = window_index(old_world.origin(), window_coord(n_origin, a));
                let wb = window_index(old_world.origin(), window_coord(n_origin, b));
                lemma_window_index(old_world.origin(), window_coord(n_origin, a));
                lemma_window_index(old_world.origin(), window_coord(n_origin, b));
                lemma_window_coord(n_origin, a);
                lemma_window_coord(n_origin, b);
                assert(wa != wb);
            }
        }
        let ghost mid = *self;
        self.load_empty_chunks(terrain);
        assert forall|i: int| 0 <= i < 100 && in_window(old_world.origin(), #[trigger] window_coord(self.origin(), i)) implies {
            &&& self.slot_at(i) == old_world.slot_at(window_index(old_world.origin(), window_coord(self.origin(), i)))
            &&& self.pool().same_slot(&old_world.pool(), self.slot_at(i)->0 as int)
        } by {
            lemma_window_index(old_world.origin(), window_coord(n_origin, i));
            assert(mid.slot_at(i) == carried_slot(old_world, n_origin, i, 100));
            assert(mid.slot_at(i) is Some);
        }
        assert forall|i: int| 0 <= i < 100 && !in_window(old_world.origin(), #[trigger] window_coord(self.origin(), i))
            implies self.slot_generated(i, *terrain) by {
            assert(mid.slot_at(i) == carried_slot(old_world, n_origin, i, 100));
        }
        assert forall|i: int| 0 <= i < 100 && !in_window(old_world.origin(), #[trigger] window_coord(self.origin(), i))
            implies self.slot_at(i) == Some(
            leaving_slots(old_world, n_origin, 100)[entering_before(old_world.origin(), n_origin, i) as int],
        ) by {
            assert(mid.slot_at(i) == carried_slot(old_world, n_origin, i, 100));
            lemma_unmapped_is_entering(mid, old_world, n_origin, i);
        }
    }
}

impl World {
    /// A world whose window is centred on chunk `(0, 0)`: every slot is
    /// created with placeholder terrain and freed, then the slots are handed
    /// out in window order (window index `i` gets slot `i`) and filled with
    /// generated terrain.
    #[verifier::spinoff_prover]
    pub fn new<F: Fn(u32, [i32; 3]) -> HeightMap>(config: Config, world_seed: u32, terrain: &F) -> (r: Self)
        requires
            forall|seed: u32, c: [i32; 3]| terrain.requires((seed, c)),
        ensures
            r.wf(),
            r.origin() == (-5int, -5int),
            r.seed() == world_seed,
            r.config_spec() == config,
            forall|i: int| 0 <= i < 100 ==> #[trigger] r.slot_generated(i, *terrain),
            forall|i: int| 0 <= i < 100 ==> #[trigger] r.slot_at(i) == Some(i as usize),
    {
        let mut chunks = ChunkArray::new();
        let mut chunk_indices: Vec<Option<usize>> = Vec::new();
        let mut free_chunk_indices: VecDeque<usize> = VecDeque::new();
        let mut x: usize = 0;
        while x < WORLD_ARRAY_SIZE
            invariant
                x <= WORLD_ARRAY_SIZE,
                chunks.wf(),
                chunks.len() == x,
                chunk_indices@.len() == x,
                free_chunk_indices@.len() == x,
                forall|k: int| 0 <= k < x ==> #[trigger] free_chunk_indices@[k] == k,
                forall|k: int| 0 <= k < x ==> #[trigger] chunk_indices@[k] is None,
                forall|k: int| 0 <= k < x ==> (#[trigger] chunks.offset(k))[1] == 0,
            decreases WORLD_ARRAY_SIZE - x,
        {
            let ghost prev = chunks;
            chunks.new_chunk([0, 0, 0]);
            assert(chunks.offset(x as int)[1] == 0);
            assert forall|k: int| 0 <= k < x implies (#[trigger] chunks.offset(k))[1] == 0 by {
                assert(chunks.same_slot(&prev, k));
            }
            chunk_indices.push(None);
            free_chunk_indices.push_back(x);
            x += 1;
        }
        let mut world = World {
            chunks,
            chunk_indices,
            free_chunk_indices,
            center_offset: Vec3i::new(0, 0, 0),
            chunks_origin: Vec3i::new(-5, 0, -5),
            world_seed,
            config,
        };
        proof {
            lemma_none_count_all_none(world.chunk_indices@);
            assert forall|i: int| 0 <= i < 100 implies #[trigger] world.slot_at(i) is None by {
            }
        }
        let ghost fresh = world;
        world.load_empty_chunks(terrain);
        assert forall|i: int| 0 <= i < 100 implies #[trigger] world.slot_generated(i, *terrain) by {
            assert(fresh.slot_at(i) is None);
        }
        assert forall|i: int| 0 <= i < 100 implies #[trigger] world.slot_at(i) == Some(i as usize) by {
            assert(fresh.slot_at(i) is None);
            assert forall|j: int| 0 <= j < i implies #[trigger] fresh.chunk_indices@.subrange(0, i)[j] is None by {
                assert(fresh.slot_at(j) is None);
            }
            lemma_none_count_all_none(fresh.chunk_indices@.subrange(0, i));
        }
        world
    }

    /// Sets the material of the loaded voxel at `world_pos` and rebuilds the
    /// mesh of the slot holding it; fails if that voxel is not loaded.
    pub fn set_block(&mut self, world_pos: Vec3i, block_type: BlockType) -> (r: Result<(), BoundsError>)
        requires
            old(self).wf(),
        ensures
            final(self).wf(),
            r is Err <==> old(self).block_at(world_pos) is None,
            r is Err ==> *final(self) == *old(self),
            r is Ok ==> block_set(*old(self), *final(self), world_pos, block_type),
            final(self).origin() == old(self).origin(),
            forall|i: int| 0 <= i < 100 ==> #[trigger] final(self).slot_at(i) == old(self).slot_at(i),
            final(self).seed() == old(self).seed(),
            final(self).config_spec() == old(self).config_spec(),
    {
        if world_pos.y < 0 || world_pos.y >= CHUNK_Y_SIZE as i32 {
            return Err(BoundsError);
        }
        let chunk_offset = World::world_pos_to_chunk_offset(world_pos);
        match self.get_chunk_index(chunk_offset) {
            Some(chunk_index) => {
                let ghost before = *self;
                let block_pos = World::world_pos_to_block_pos(world_pos);
                assert(self.pool().slot_wf(chunk_index as int));
                let changed = self.chunks.change_block(
                    chunk_index,
                    [block_pos.x as usize, block_pos.y as usize, block_pos.z as usize],
                    block_type,
                );
                assert(changed is Ok);
                assert(self.chunk_indices == before.chunk_indices);
                assert forall|i: int| 0 <= i < 100 implies (#[trigger] self.slot_at(i) matches Some(s) ==> {
                    &&& s < 100
                    &&& coord_of_offset(self.pool().offset(s as int)) == window_coord(self.origin(), i)
                    &&& self.pool().offset(s as int)[1] == 0
                }) by {
                    assert(self.slot_at(i) == before.slot_at(i));
                    if let Some(s) = self.slot_at(i) {
                        if s != chunk_index {
                            assert(self.pool().same_slot(&before.pool(), s as int));
                        }
                    }
                }
                assert(self.chunk_indices == before.chunk_indices);
                assert(self.mapping_ok());
                assert forall|i: int| 0 <= i < 100 implies #[trigger] self.slot_at(i) is Some by {
                    assert(before.slot_at(i) is Some);
                }
                Ok(())
            },
            None => Err(BoundsError),
        }
    }
}

/// Every chunk coordinate in the active window is held by a slot whose stored
/// coordinate is that coordinate.
pub proof fn lemma_lookup_in_window(world: World, c: (int, int))
    requires
        world.wf(),
        in_window(world.origin(), c),
    ensures
        world.lookup(c) is Some,
        coord_of_offset(world.pool().offset(world.lookup(c)->0 as int)) == c,
{
    lemma_window_index(world.origin(), c);
    assert(world.slot_at(window_index(world.origin(), c)) is Some);
}

/// `after` is what `set_center(pos)` makes of `before`: the window corner
/// moves to `window_origin_for(pos)`, and a world whose window is already
/// there is left as it is.
pub open spec fn recentred(before: World, after: World, pos: Vec3i) -> bool {
    &&& after.origin() == window_origin_for(pos)
    &&& before.origin() == window_origin_for(pos) ==> after == before
}

/// Recentring twice on positions that give the same window does nothing the
/// second time: no slot is freed or regenerated.
pub proof fn lemma_set_center_idempotent(w0: World, w1: World, w2: World, first_pos: Vec3i, second_pos: Vec3i)
    requires
        recentred(w0, w1, first_pos),
        recentred(w1, w2, second_pos),
        window_origin_for(first_pos) == window_origin_for(second_pos),
    ensures
        w2 == w1,
{
}

/// `after` is what a successful `set_block(p, m)` makes of `before`: voxel
/// `p` of the slot holding its chunk becomes `m`, every other slot is as it
/// was.
pub open spec fn block_set(before: World, after: World, p: Vec3i, m: BlockType) -> bool {
    let s = before.lookup(chunk_of(p))->0 as int;
    let l = local_of(p);
    &&& after.block_at(p) == Some(m)
    &&& after.pool().grid(s) == before.pool().grid(s).update(grid_index(l.0, l.1, l.2), m)
    &&& after.pool().offset(s) == before.pool().offset(s)
    &&& forall|t: int| 0 <= t < 100 && t != s ==> #[trigger] after.pool().same_slot(&before.pool(), t)
}

/// Turning a loaded solid voxel to air reads back as air, and its slot's
/// grid loses the faces the voxel showed and gains one face for each solid
/// neighbour it had in its chunk; the slot's mesh is rebuilt from that grid,
/// so when neither mesh is truncated its face count changes the same way.
pub proof fn lemma_set_block_air(before: World, after: World, p: Vec3i)
    requires
        before.wf(),
        after.wf(),
        before.block_at(p) matches Some(m) && m != BlockType::AIR,
        block_set(before, after, p, BlockType::AIR),
    ensures
        after.block_at(p) == Some(BlockType::AIR),
        ({
            let s = before.lookup(chunk_of(p))->0 as int;
            let l = local_of(p);
            let k = grid_index(l.0, l.1, l.2);
            let g = before.pool().grid(s);
            &&& after.pool().mesh(s).is_mesh_of(after.pool().grid(s), after.pool().offset(s))
            &&& mesh_faces(after.pool().grid(s)).len() == mesh_faces(g).len() - voxel_face_count(g, k)
                + solid_neighbour_count(g, k)
            &&& !before.pool().mesh(s).truncated && !after.pool().mesh(s).truncated ==> after.pool().mesh(s).face_count()
                == before.pool().mesh(s).face_count() - voxel_face_count(g, k) + solid_neighbour_count(g, k)
        }),
{
    let s = before.lookup(chunk_of(p))->0 as int;
    let l = local_of(p);
    let k = grid_index(l.0, l.1, l.2);
    assert(before.pool().slot_wf(s));
    assert(after.pool().slot_wf(s));
    assert(0 <= l.0 < 16 && 0 <= l.1 < 200 && 0 <= l.2 < 16);
    lemma_removal_face_count(before.pool().grid(s), k);
}

/// In a settled world every slot of the pool is held by exactly one window
/// position: none is lost, none is shared.
pub proof fn lemma_every_slot_held_once(world: World, s: usize)
    requires
        world.wf(),
        s < WORLD_ARRAY_SIZE,
    ensures
        exists|i: int| 0 <= i < 100 && world.slot_at(i) == Some(s),
        forall|i: int, j: int|
            0 <= i < 100 && 0 <= j < 100 && world.slot_at(i) == Some(s) && world.slot_at(j) == Some(s) ==> i == j,
{
    let held = Seq::new(100, |i: int| world.slot_at(i)->0 as int);
    assert(held.no_duplicates()) by {
        assert forall|i: int, j: int| 0 <= i < held.len() && 0 <= j < held.len() && i != j implies held[i] != held[j] by {
            assert(world.slot_at(i) is Some);
            assert(world.slot_at(i) != world.slot_at(j));
        }
    }
    held.unique_seq_to_set();
    seq_to_set_is_finite(held);
    lemma_int_range(0, 100);
    assert(held.to_set().subset_of(set_int_range(0, 100))) by {
        assert forall|v: int| held.to_set().contains(v) implies set_int_range(0, 100).contains(v) by {
            let i = choose|i: int| 0 <= i < held.len() && held[i] == v;
            assert(world.slot_at(i) is Some);
        }
    }
    lemma_subset_equality(held.to_set(), set_int_range(0, 100));
    assert(set_int_range(0, 100).contains(s as int));
    assert(held.to_set().contains(s as int));
    let i = choose|i: int| 0 <= i < held.len() && held[i] == s as int;
    assert(world.slot_at(i) is Some);
    assert(world.slot_at(i) == Some(s));
}

} // verus!