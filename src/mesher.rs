use vstd::arithmetic::div_mod::{lemma_fundamental_div_mod, lemma_mod_mod};
use vstd::prelude::*;

use crate::atlas::BlockType;
use crate::block::{position_ok, quad_index, unit, BlockVertex, Face, FaceDirection};
use crate::chunk::{
    face_of, face_visible, faces_before, grid_index, holds_faces, in_chunk, kept_faces, mesh_faces, slot_emitted, voxel_world_pos,
    voxel_x, voxel_y, voxel_z, Blocks, Mesh, CHUNK_X_SIZE, CHUNK_Y_SIZE, CHUNK_Z_SIZE, MAX_MESH_FACES, TOTAL_CHUNK_SIZE,
};
use crate::world::World;

verus! {

fn face_at(d: usize) -> (r: FaceDirection)
    requires
        d < 6,
    ensures
        r == face_of(d as int),
{
    if d == 0 {
        FaceDirection::TOP
    } else if d == 1 {
        FaceDirection::BOTTOM
    } else if d == 2 {
        FaceDirection::RIGHT
    } else if d == 3 {
        FaceDirection::LEFT
    } else if d == 4 {
        FaceDirection::FRONT
    } else {
        FaceDirection::BACK
    }
}

/// Whether the face of voxel `k` looking along `f` is seen.
fn is_face_visible(blocks: &Blocks, k: usize, f: FaceDirection) -> (r: bool)
    requires
        blocks@.len() == TOTAL_CHUNK_SIZE,
        k < TOTAL_CHUNK_SIZE,
    ensures
        r == face_visible(blocks@, k as int, f),
{
    let step = f.to_vec();
    let nx: i32 = ((k % 256) / 16) as i32 + step.x;
    let ny: i32 = (k / 256) as i32 + step.y;
    let nz: i32 = (k % 16) as i32 + step.z;
    if 0 <= nx && nx < CHUNK_X_SIZE as i32 && 0 <= ny && ny < CHUNK_Y_SIZE as i32 && 0 <= nz && nz
        < CHUNK_Z_SIZE as i32 {
        let n = (ny as usize) * 256 + (nx as usize) * 16 + (nz as usize);
        blocks[n] == BlockType::AIR
    } else {
        true
    }
}

proof fn lemma_faces_before_len(grid: Seq<BlockType>, s: nat)
    ensures
        faces_before(grid, s).len() <= s,
    decreases s,
{
    if s > 0 {
        lemma_faces_before_len(grid, (s - 1) as nat);
    }
}

impl World {
    /// Mesh of a chunk grid placed at chunk coordinate `offset`: every visible
    /// face of every non-air voxel, scanned in grid order.
    #[verifier::spinoff_prover]
    pub fn compute_mesh(blocks: &Blocks, offset: [i32; 3]) -> (r: Mesh)
        requires
            blocks@.len() == TOTAL_CHUNK_SIZE,
        ensures
            r.is_mesh_of(blocks@, offset),
    {
        let ghost grid = blocks@;
        let mut vertices: Vec<BlockVertex> = Vec::new();
        let mut indices: Vec<u16> = Vec::new();
        let mut truncated = false;
        let mut k: usize = 0;
        while k < TOTAL_CHUNK_SIZE
            invariant
                grid == blocks@,
                grid.len() == TOTAL_CHUNK_SIZE,
                k <= TOTAL_CHUNK_SIZE,
                holds_faces(
                    vertices@,
                    indices@,
                    faces_before(grid, (6 * k) as nat),
                    kept_faces(faces_before(grid, (6 * k) as nat).len() as int),
                    grid,
                    offset,
                ),
                truncated == (faces_before(grid, (6 * k) as nat).len() > MAX_MESH_FACES),
            decreases TOTAL_CHUNK_SIZE - k,
        {
            let material = blocks[k];
            let world_pos: [i64; 3] = [
                ((k % 256) / 16) as i64 + offset[0] as i64 * 16,
                (k / 256) as i64,
                (k % 16) as i64 + offset[2] as i64 * 16,
            ];
            assert(world_pos == voxel_world_pos(offset, k as int));
            let mut d: usize = 0;
            while d < 6
                invariant
                    grid == blocks@,
                    grid.len() == TOTAL_CHUNK_SIZE,
                    k < TOTAL_CHUNK_SIZE,
                    d <= 6,
                    material == grid[k as int],
                    world_pos == voxel_world_pos(offset, k as int),
                    position_ok(world_pos),
                    holds_faces(
                        vertices@,
                        indices@,
                        faces_before(grid, (6 * k + d) as nat),
                        kept_faces(faces_before(grid, (6 * k + d) as nat).len() as int),
                        grid,
                        offset,
                    ),
                    truncated == (faces_before(grid, (6 * k + d) as nat).len() > MAX_MESH_FACES),
                decreases 6 - d,
            {
                let ghost s = (6 * k + d) as int;
                let ghost prev = faces_before(grid, s as nat);
                assert(s / 6 == k && s % 6 == d);
                let f = face_at(d);
                proof {
                    lemma_faces_before_len(grid, s as nat);
                }
                if material != BlockType::AIR && is_face_visible(blocks, k, f) && vertices.len() >= 4
                    * MAX_MESH_FACES {
                    let ghost new_faces = prev.push((k as int, f));
                    assert(faces_before(grid, (s + 1) as nat) == new_faces);
                    truncated = true;
                    assert(holds_faces(vertices@, indices@, new_faces, MAX_MESH_FACES as int, grid, offset));
                } else if material != BlockType::AIR && is_face_visible(blocks, k, f) {
                    let n = vertices.len();
                    let face = Face::new(material, f, world_pos);
                    let ghost vs0 = vertices@;
                    let ghost is0 = indices@;
                    let ghost new_faces = prev.push((k as int, f));
                    assert(faces_before(grid, (s + 1) as nat) == new_faces);
                    assert(prev.len() < MAX_MESH_FACES);
                    let mut j: usize = 0;
                    while j < 4
                        invariant
                            j <= 4,
                            n == 4 * prev.len(),
                            vertices@.len() == n + j,
                            vs0.len() == n,
                            forall|v: int| 0 <= v < n ==> #[trigger] vertices@[v] == vs0[v],
                            forall|v: int| n <= v < n + j ==> #[trigger] vertices@[v] == face.vertices[v - n],
                        decreases 4 - j,
                    {
                        vertices.push(face.vertices[j]);
                        j += 1;
                    }
                    let mut q: usize = 0;
                    while q < 6
                        invariant
                            q <= 6,
                            n == 4 * prev.len(),
                            prev.len() < MAX_MESH_FACES,
                            indices@.len() == 6 * prev.len() + q,
                            is0.len() == 6 * prev.len(),
                            forall|w: int| 0 <= w < 6 * prev.len() ==> #[trigger] indices@[w] == is0[w],
                            forall|w: int| 6 * prev.len() <= w < 6 * prev.len() + q ==>
                                #[trigger] indices@[w] == 4 * prev.len() + quad_index(w - 6 * prev.len()),
                        decreases 6 - q,
                    {
                        let base: usize = if q == 0 || q == 5 {
                            0
                        } else if q == 1 {
                            1
                        } else if q == 4 {
                            3
                        } else {
                            2
                        };
                        indices.push((n + base) as u16);
                        q += 1;
                    }
                    assert(holds_faces(vertices@, indices@, new_faces, new_faces.len() as int, grid, offset));
                } else {
                    assert(faces_before(grid, (s + 1) as nat) == prev);
                }
                d += 1;
            }
            k += 1;
        }
        proof {
            lemma_faces_before_len(grid, (6 * TOTAL_CHUNK_SIZE) as nat);
        }
        let num_elements = indices.len() as u32;
        Mesh { vertices, indices, num_elements, truncated }
    }
}

/// Number of faces of voxel `k` that are emitted.
pub open spec fn voxel_face_count(grid: Seq<BlockType>, k: int) -> nat {
    (if slot_emitted(grid, 6 * k) { 1nat } else { 0nat }) + (if slot_emitted(grid, 6 * k + 1) { 1nat } else { 0nat })
        + (if slot_emitted(grid, 6 * k + 2) { 1nat } else { 0nat }) + (if slot_emitted(grid, 6 * k + 3) { 1nat } else { 0nat })
        + (if slot_emitted(grid, 6 * k + 4) { 1nat } else { 0nat }) + (if slot_emitted(grid, 6 * k + 5) { 1nat } else { 0nat })
}

/// Number of faces emitted for the voxels before `k`.
pub open spec fn faces_upto(grid: Seq<BlockType>, k: nat) -> nat
    decreases k,
{
    if k == 0 {
        0
    } else {
        faces_upto(grid, (k - 1) as nat) + voxel_face_count(grid, k - 1)
    }
}

proof fn lemma_faces_before_is_sum(grid: Seq<BlockType>, k: nat)
    ensures
        faces_before(grid, 6 * k).len() == faces_upto(grid, k),
    decreases k,
{
    if k > 0 {
        let j = (k - 1) as nat;
        lemma_faces_before_is_sum(grid, j);
        let b: int = 6 * (j as int);
        assert((b + 0) / 6 == j && (b + 0) % 6 == 0) by (nonlinear_arith) requires b == 6 * j;
        assert((b + 1) / 6 == j && (b + 1) % 6 == 1) by (nonlinear_arith) requires b == 6 * j;
        assert((b + 2) / 6 == j && (b + 2) % 6 == 2) by (nonlinear_arith) requires b == 6 * j;
        assert((b + 3) / 6 == j && (b + 3) % 6 == 3) by (nonlinear_arith) requires b == 6 * j;
        assert((b + 4) / 6 == j && (b + 4) % 6 == 4) by (nonlinear_arith) requires b == 6 * j;
        assert((b + 5) / 6 == j && (b + 5) % 6 == 5) by (nonlinear_arith) requires b == 6 * j;
        assert(faces_before(grid, (b + 1) as nat).len() == faces_before(grid, b as nat).len() + (if slot_emitted(grid, b) { 1int } else { 0 }));
        assert(faces_before(grid, (b + 2) as nat).len() == faces_before(grid, (b + 1) as nat).len() + (if slot_emitted(grid, b + 1) { 1int } else { 0 }));
        assert(faces_before(grid, (b + 3) as nat).len() == faces_before(grid, (b + 2) as nat).len() + (if slot_emitted(grid, b + 2) { 1int } else { 0 }));
        assert(faces_before(grid, (b + 4) as nat).len() == faces_before(grid, (b + 3) as nat).len() + (if slot_emitted(grid, b + 3) { 1int } else { 0 }));
        assert(faces_before(grid, (b + 5) as nat).len() == faces_before(grid, (b + 4) as nat).len() + (if slot_emitted(grid, b + 4) { 1int } else { 0 }));
        assert(faces_before(grid, (b + 6) as nat).len() == faces_before(grid, (b + 5) as nat).len() + (if slot_emitted(grid, b + 5) { 1int } else { 0 }));
        assert(6 * k == b + 6);
    }
}

/// Voxels that emit nothing add nothing to the count.
proof fn lemma_faces_upto_quiet(grid: Seq<BlockType>, k1: nat, k2: nat)
    requires
        k1 <= k2,
        forall|j: int| k1 <= j < k2 ==> #[trigger] voxel_face_count(grid, j) == 0,
    ensures
        faces_upto(grid, k2) == faces_upto(grid, k1),
    decreases k2,
{
    if k2 > k1 {
        lemma_faces_upto_quiet(grid, k1, (k2 - 1) as nat);
    }
}

proof fn lemma_voxel_decode(k: int)
    requires
        0 <= k < TOTAL_CHUNK_SIZE,
    ensures
        k == grid_index(voxel_x(k), voxel_y(k), voxel_z(k)),
        in_chunk(voxel_x(k), voxel_y(k), voxel_z(k)),
{
    lemma_fundamental_div_mod(k, 256);
    lemma_fundamental_div_mod(k % 256, 16);
    lemma_mod_mod(k, 16, 16);
}

/// Index of the neighbour of voxel `k` along `f`.
pub open spec fn neighbour(k: int, f: FaceDirection) -> int {
    grid_index(voxel_x(k) + unit(f).0, voxel_y(k) + unit(f).1, voxel_z(k) + unit(f).2)
}

pub open spec fn neighbour_in_chunk(k: int, f: FaceDirection) -> bool {
    in_chunk(voxel_x(k) + unit(f).0, voxel_y(k) + unit(f).1, voxel_z(k) + unit(f).2)
}

proof fn lemma_neighbour_coords(k: int, f: FaceDirection)
    requires
        0 <= k < TOTAL_CHUNK_SIZE,
        neighbour_in_chunk(k, f),
    ensures
        neighbour(k, f) == k + unit(f).1 * 256 + unit(f).0 * 16 + unit(f).2,
        0 <= neighbour(k, f) < TOTAL_CHUNK_SIZE,
        voxel_x(neighbour(k, f)) == voxel_x(k) + unit(f).0,
        voxel_y(neighbour(k, f)) == voxel_y(k) + unit(f).1,
        voxel_z(neighbour(k, f)) == voxel_z(k) + unit(f).2,
{
    lemma_voxel_decode(k);
    let n = neighbour(k, f);
    lemma_voxel_decode(n);
    let (x, y, z) = (voxel_x(k) + unit(f).0, voxel_y(k) + unit(f).1, voxel_z(k) + unit(f).2);
    assert(n == y * 256 + x * 16 + z);
    assert(voxel_y(n) == y && voxel_x(n) == x && voxel_z(n) == z) by {
        assert(n / 256 == y) by (nonlinear_arith) requires n == y * 256 + x * 16 + z, 0 <= x < 16, 0 <= z < 16;
        assert(n % 256 == x * 16 + z) by (nonlinear_arith) requires n == y * 256 + x * 16 + z, 0 <= x < 16, 0 <= z < 16;
        assert((x * 16 + z) / 16 == x) by (nonlinear_arith) requires 0 <= z < 16;
        assert(n % 16 == z) by (nonlinear_arith) requires n == y * 256 + x * 16 + z, 0 <= z < 16;
    }
}

proof fn lemma_slot_of(k: int, d: int)
    requires
        0 <= d < 6,
    ensures
        (6 * k + d) / 6 == k,
        (6 * k + d) % 6 == d,
{
    assert((6 * k + d) / 6 == k && (6 * k + d) % 6 == d) by (nonlinear_arith) requires 0 <= d < 6;
}

/// The faces of voxel `v` whose neighbour is not `w` are all emitted when
/// `v` is solid and every voxel but `v` and `w` is air.
proof fn lemma_face_count_among_air(grid: Seq<BlockType>, v: int, w: int)
    requires
        grid.len() == TOTAL_CHUNK_SIZE,
        0 <= v < TOTAL_CHUNK_SIZE,
        grid[v] != BlockType::AIR,
        forall|k: int| 0 <= k < TOTAL_CHUNK_SIZE && k != v && k != w ==> #[trigger] grid[k] == BlockType::AIR,
    ensures
        forall|d: int| 0 <= d < 6 ==> (slot_emitted(grid, #[trigger] (6 * v + d)) <==> !(neighbour_in_chunk(v, face_of(d))
            && neighbour(v, face_of(d)) == w && grid[w] != BlockType::AIR)),
{
    assert forall|d: int| 0 <= d < 6 implies (slot_emitted(grid, #[trigger] (6 * v + d)) <==> !(neighbour_in_chunk(
        v,
        face_of(d),
    ) && neighbour(v, face_of(d)) == w && grid[w] != BlockType::AIR)) by {
        lemma_slot_of(v, d);
        if neighbour_in_chunk(v, face_of(d)) {
            lemma_neighbour_coords(v, face_of(d));
        }
    }
}

proof fn lemma_air_voxel_quiet(grid: Seq<BlockType>, j: int)
    requires
        0 <= j < grid.len(),
        grid[j] == BlockType::AIR,
    ensures
        voxel_face_count(grid, j) == 0,
{
    assert forall|d: int| 0 <= d < 6 implies !slot_emitted(grid, #[trigger] (6 * j + d)) by {
        lemma_slot_of(j, d);
    }
    assert(!slot_emitted(grid, 6 * j + 0));
    assert(!slot_emitted(grid, 6 * j + 1));
    assert(!slot_emitted(grid, 6 * j + 2));
    assert(!slot_emitted(grid, 6 * j + 3));
    assert(!slot_emitted(grid, 6 * j + 4));
    assert(!slot_emitted(grid, 6 * j + 5));
}

/// A solid voxel with air all around it shows all six faces: its mesh holds
/// 24 vertices and 36 indices.
pub proof fn lemma_lone_voxel_faces(grid: Seq<BlockType>, v: int, mesh: Mesh, offset: [i32; 3])
    requires
        grid.len() == TOTAL_CHUNK_SIZE,
        0 <= v < TOTAL_CHUNK_SIZE,
        grid[v] != BlockType::AIR,
        forall|k: int| 0 <= k < TOTAL_CHUNK_SIZE && k != v ==> #[trigger] grid[k] == BlockType::AIR,
        mesh.is_mesh_of(grid, offset),
    ensures
        mesh_faces(grid).len() == 6,
        mesh.vertices@.len() == 24,
        mesh.indices@.len() == 36,
{
    lemma_face_count_among_air(grid, v, v);
    assert(slot_emitted(grid, 6 * v + 0));
    assert(slot_emitted(grid, 6 * v + 1));
    assert(slot_emitted(grid, 6 * v + 2));
    assert(slot_emitted(grid, 6 * v + 3));
    assert(slot_emitted(grid, 6 * v + 4));
    assert(slot_emitted(grid, 6 * v + 5));
    assert(voxel_face_count(grid, v) == 6);
    assert forall|j: int| 0 <= j < TOTAL_CHUNK_SIZE && j != v implies #[trigger] voxel_face_count(grid, j) == 0 by {
        lemma_air_voxel_quiet(grid, j);
    }
    lemma_faces_upto_quiet(grid, 0, v as nat);
    lemma_faces_upto_quiet(grid, (v + 1) as nat, TOTAL_CHUNK_SIZE as nat);
    lemma_faces_before_is_sum(grid, TOTAL_CHUNK_SIZE as nat);
}

/// The face looking the opposite way.
pub open spec fn opposite(f: FaceDirection) -> FaceDirection {
    match f {
        FaceDirection::TOP => FaceDirection::BOTTOM,
        FaceDirection::BOTTOM => FaceDirection::TOP,
        FaceDirection::RIGHT => FaceDirection::LEFT,
        FaceDirection::LEFT => FaceDirection::RIGHT,
        FaceDirection::FRONT => FaceDirection::BACK,
        FaceDirection::BACK => FaceDirection::FRONT,
    }
}

/// Of the six faces of voxel `v`, exactly those whose neighbour is not the
/// voxel at `target` come out, when `target` is the neighbour along `f`
/// alone.
#[verifier::spinoff_prover]
#[verifier::rlimit(50)]
proof fn lemma_five_faces(grid: Seq<BlockType>, v: int, f: FaceDirection, target: int)
    requires
        grid.len() == TOTAL_CHUNK_SIZE,
        0 <= v < TOTAL_CHUNK_SIZE,
        neighbour_in_chunk(v, f),
        neighbour(v, f) == target,
        forall|d: int| 0 <= d < 6 ==> (slot_emitted(grid, #[trigger] (6 * v + d)) <==> !(neighbour_in_chunk(v, face_of(d))
            && neighbour(v, face_of(d)) == target)),
    ensures
        voxel_face_count(grid, v) == 5,
{
    let t = target;
    lemma_neighbour_coords(v, f);
    assert forall|d: int| 0 <= d < 6 implies (slot_emitted(grid, #[trigger] (6 * v + d)) <==> face_of(d) != f) by {
        if neighbour_in_chunk(v, face_of(d)) {
            lemma_neighbour_coords(v, face_of(d));
        }
    }
    assert(slot_emitted(grid, 6 * v + 0) == (face_of(0) != f));
    assert(slot_emitted(grid, 6 * v + 1) == (face_of(1) != f));
    assert(slot_emitted(grid, 6 * v + 2) == (face_of(2) != f));
    assert(slot_emitted(grid, 6 * v + 3) == (face_of(3) != f));
    assert(slot_emitted(grid, 6 * v + 4) == (face_of(4) != f));
    assert(slot_emitted(grid, 6 * v + 5) == (face_of(5) != f));
}

proof fn lemma_opposite_neighbour(v: int, f: FaceDirection)
    requires
        0 <= v < TOTAL_CHUNK_SIZE,
        neighbour_in_chunk(v, f),
    ensures
        neighbour_in_chunk(neighbour(v, f), opposite(f)),
        neighbour(neighbour(v, f), opposite(f)) == v,
{
    lemma_neighbour_coords(v, f);
    lemma_voxel_decode(v);
}

/// Two solid voxels side by side with air all around them show ten faces:
/// the two faces between them are hidden. Their mesh holds 40 vertices and
/// 60 indices.
#[verifier::spinoff_prover]
#[verifier::rlimit(50)]
pub proof fn lemma_adjacent_pair_faces(grid: Seq<BlockType>, v: int, f: FaceDirection, mesh: Mesh, offset: [i32; 3])
    requires
        grid.len() == TOTAL_CHUNK_SIZE,
        0 <= v < TOTAL_CHUNK_SIZE,
        neighbour_in_chunk(v, f),
        grid[v] != BlockType::AIR,
        grid[neighbour(v, f)] != BlockType::AIR,
        forall|k: int| 0 <= k < TOTAL_CHUNK_SIZE && k != v && k != neighbour(v, f) ==> #[trigger] grid[k] == BlockType::AIR,
        mesh.is_mesh_of(grid, offset),
    ensures
        mesh_faces(grid).len() == 10,
        mesh.vertices@.len() == 40,
        mesh.indices@.len() == 60,
{
    let w = neighbour(v, f);
    lemma_neighbour_coords(v, f);
    lemma_face_count_among_air(grid, v, w);
    lemma_five_faces(grid, v, f, w);
    lemma_opposite_neighbour(v, f);
    lemma_neighbour_coords(w, opposite(f));
    lemma_face_count_among_air(grid, w, v);
    lemma_five_faces(grid, w, opposite(f), v);
    assert forall|j: int| 0 <= j < TOTAL_CHUNK_SIZE && j != v && j != w implies #[trigger] voxel_face_count(grid, j) == 0 by {
        lemma_air_voxel_quiet(grid, j);
    }
    let lo = if v < w { v } else { w };
    let hi = if v < w { w } else { v };
    lemma_faces_upto_quiet(grid, 0, lo as nat);
    lemma_faces_upto_quiet(grid, (lo + 1) as nat, hi as nat);
    lemma_faces_upto_quiet(grid, (hi + 1) as nat, TOTAL_CHUNK_SIZE as nat);
    lemma_faces_before_is_sum(grid, TOTAL_CHUNK_SIZE as nat);
}

/// Every face slot that is emitted appears in the faces gathered past it.
proof fn lemma_emitted_listed(grid: Seq<BlockType>, t: int, s: nat)
    requires
        0 <= t < s,
        slot_emitted(grid, t),
    ensures
        faces_before(grid, s).contains((t / 6, face_of(t % 6))),
    decreases s,
{
    let prev = faces_before(grid, (s - 1) as nat);
    if t == s - 1 {
        assert(faces_before(grid, s) == prev.push((t / 6, face_of(t % 6))));
        assert(faces_before(grid, s)[prev.len() as int] == (t / 6, face_of(t % 6)));
    } else {
        lemma_emitted_listed(grid, t, (s - 1) as nat);
        let i = choose|i: int| 0 <= i < prev.len() && prev[i] == (t / 6, face_of(t % 6));
        assert(faces_before(grid, s)[i] == prev[i]);
    }
}

/// A solid voxel whose neighbour along `face_of(d)` lies outside the chunk
/// always shows that face: nothing outside the grid can hide it.
pub proof fn lemma_boundary_face_shown(grid: Seq<BlockType>, k: int, d: int)
    requires
        grid.len() == TOTAL_CHUNK_SIZE,
        0 <= k < TOTAL_CHUNK_SIZE,
        0 <= d < 6,
        grid[k] != BlockType::AIR,
        !neighbour_in_chunk(k, face_of(d)),
    ensures
        face_visible(grid, k, face_of(d)),
        mesh_faces(grid).contains((k, face_of(d))),
{
    lemma_slot_of(k, d);
    lemma_emitted_listed(grid, 6 * k + d, (6 * TOTAL_CHUNK_SIZE) as nat);
}

pub open spec fn indicator(b: bool) -> int {
    if b {
        1
    } else {
        0
    }
}

/// Sum of `f(j)` over `0 <= j < n`.
pub open spec fn sum_upto(f: spec_fn(int) -> int, n: nat) -> int
    decreases n,
{
    if n == 0 {
        0
    } else {
        sum_upto(f, (n - 1) as nat) + f(n - 1)
    }
}

proof fn lemma_sum_point(f: spec_fn(int) -> int, a: int, v: int, n: nat)
    requires
        forall|j: int| 0 <= j < n ==> #[trigger] f(j) == if j == a { v } else { 0 },
    ensures
        sum_upto(f, n) == if 0 <= a < n { v } else { 0 },
    decreases n,
{
    if n > 0 {
        lemma_sum_point(f, a, v, (n - 1) as nat);
    }
}

/// Whether solid voxel `j` (not `k`) has its face `face_of(d)` against `k`.
pub open spec fn faces_toward(grid: Seq<BlockType>, j: int, d: int, k: int) -> bool {
    j != k && grid[j] != BlockType::AIR && neighbour_in_chunk(j, face_of(d)) && neighbour(j, face_of(d)) == k
}

/// Whether the neighbour of `k` along `f` is in the chunk and solid.
pub open spec fn solid_neighbour(grid: Seq<BlockType>, k: int, f: FaceDirection) -> bool {
    neighbour_in_chunk(k, f) && grid[neighbour(k, f)] != BlockType::AIR
}

/// Number of solid in-chunk neighbours of voxel `k`: the faces that turning
/// `k` to air uncovers.
pub open spec fn solid_neighbour_count(grid: Seq<BlockType>, k: int) -> int {
    indicator(solid_neighbour(grid, k, FaceDirection::TOP)) + indicator(solid_neighbour(grid, k, FaceDirection::BOTTOM))
        + indicator(solid_neighbour(grid, k, FaceDirection::RIGHT)) + indicator(solid_neighbour(grid, k, FaceDirection::LEFT))
        + indicator(solid_neighbour(grid, k, FaceDirection::FRONT)) + indicator(solid_neighbour(grid, k, FaceDirection::BACK))
}

/// Change of voxel `j`'s face count when voxel `k` turns to air.
pub open spec fn removal_delta(grid: Seq<BlockType>, k: int, j: int) -> int {
    (if j == k { -(voxel_face_count(grid, k) as int) } else { 0 }) + indicator(faces_toward(grid, j, 0, k))
        + indicator(faces_toward(grid, j, 1, k)) + indicator(faces_toward(grid, j, 2, k)) + indicator(
        faces_toward(grid, j, 3, k),
    ) + indicator(faces_toward(grid, j, 4, k)) + indicator(faces_toward(grid, j, 5, k))
}

proof fn lemma_removal_slot(grid: Seq<BlockType>, k: int, j: int, d: int)
    requires
        grid.len() == TOTAL_CHUNK_SIZE,
        0 <= k < TOTAL_CHUNK_SIZE,
        0 <= j < TOTAL_CHUNK_SIZE,
        0 <= d < 6,
        j != k,
        grid[k] != BlockType::AIR,
    ensures
        indicator(slot_emitted(grid.update(k, BlockType::AIR), 6 * j + d)) == indicator(slot_emitted(grid, 6 * j + d))
            + indicator(faces_toward(grid, j, d, k)),
{
    lemma_slot_of(j, d);
    if neighbour_in_chunk(j, face_of(d)) {
        lemma_neighbour_coords(j, face_of(d));
    }
}

#[verifier::spinoff_prover]
#[verifier::rlimit(80)]
proof fn lemma_removal_delta(grid: Seq<BlockType>, k: int, j: int)
    requires
        grid.len() == TOTAL_CHUNK_SIZE,
        0 <= k < TOTAL_CHUNK_SIZE,
        0 <= j < TOTAL_CHUNK_SIZE,
        grid[k] != BlockType::AIR,
    ensures
        voxel_face_count(grid.update(k, BlockType::AIR), j) == voxel_face_count(grid, j) + removal_delta(grid, k, j),
{
    let g2 = grid.update(k, BlockType::AIR);
    if j == k {
        lemma_air_voxel_quiet(g2, j);
    } else {
        lemma_removal_slot(grid, k, j, 0);
        lemma_removal_slot(grid, k, j, 1);
        lemma_removal_slot(grid, k, j, 2);
        lemma_removal_slot(grid, k, j, 3);
        lemma_removal_slot(grid, k, j, 4);
        lemma_removal_slot(grid, k, j, 5);
    }
}

/// Voxel `j` faces `k` along `face_of(d)` exactly when `j` is the solid
/// neighbour of `k` on the opposite side.
proof fn lemma_faces_toward_point(grid: Seq<BlockType>, k: int, d: int, j: int)
    requires
        grid.len() == TOTAL_CHUNK_SIZE,
        0 <= k < TOTAL_CHUNK_SIZE,
        0 <= d < 6,
        0 <= j < TOTAL_CHUNK_SIZE,
    ensures
        faces_toward(grid, j, d, k) == (solid_neighbour(grid, k, opposite(face_of(d))) && j == neighbour(
            k,
            opposite(face_of(d)),
        )),
{
    let f = face_of(d);
    if neighbour_in_chunk(j, f) && neighbour(j, f) == k {
        lemma_opposite_neighbour(j, f);
        lemma_neighbour_coords(j, f);
    }
    if neighbour_in_chunk(k, opposite(f)) {
        lemma_opposite_neighbour(k, opposite(f));
        lemma_neighbour_coords(k, opposite(f));
        assert(opposite(opposite(f)) == f);
    }
}

proof fn lemma_sum_faces_toward(grid: Seq<BlockType>, k: int, d: int)
    requires
        grid.len() == TOTAL_CHUNK_SIZE,
        0 <= k < TOTAL_CHUNK_SIZE,
        0 <= d < 6,
    ensures
        sum_upto(|j: int| indicator(faces_toward(grid, j, d, k)), TOTAL_CHUNK_SIZE as nat) == indicator(
            solid_neighbour(grid, k, opposite(face_of(d))),
        ),
{
    let f = |j: int| indicator(faces_toward(grid, j, d, k));
    let o = opposite(face_of(d));
    let a = neighbour(k, o);
    let v = indicator(solid_neighbour(grid, k, o));
    assert forall|j: int| 0 <= j < TOTAL_CHUNK_SIZE implies #[trigger] f(j) == if j == a { v } else { 0 } by {
        lemma_faces_toward_point(grid, k, d, j);
    }
    lemma_sum_point(f, a, v, TOTAL_CHUNK_SIZE as nat);
    if neighbour_in_chunk(k, o) {
        lemma_neighbour_coords(k, o);
    }
}

proof fn lemma_sum_removal(grid: Seq<BlockType>, k: int, n: nat)
    requires
        grid.len() == TOTAL_CHUNK_SIZE,
        0 <= k < TOTAL_CHUNK_SIZE,
        n <= TOTAL_CHUNK_SIZE,
        grid[k] != BlockType::AIR,
    ensures
        faces_upto(grid.update(k, BlockType::AIR), n) == faces_upto(grid, n) + sum_upto(
            |j: int| if j == k { -(voxel_face_count(grid, k) as int) } else { 0 },
            n,
        ) + sum_upto(|j: int| indicator(faces_toward(grid, j, 0, k)), n) + sum_upto(
            |j: int| indicator(faces_toward(grid, j, 1, k)),
            n,
        ) + sum_upto(|j: int| indicator(faces_toward(grid, j, 2, k)), n) + sum_upto(
            |j: int| indicator(faces_toward(grid, j, 3, k)),
            n,
        ) + sum_upto(|j: int| indicator(faces_toward(grid, j, 4, k)), n) + sum_upto(
            |j: int| indicator(faces_toward(grid, j, 5, k)),
            n,
        ),
    decreases n,
{
    if n > 0 {
        lemma_sum_removal(grid, k, (n - 1) as nat);
        lemma_removal_delta(grid, k, n - 1);
    }
}

/// Turning solid voxel `k` to air removes the faces it showed and uncovers
/// one face of each solid neighbour it had inside the chunk; nothing else
/// changes in the face count of the chunk's mesh.
pub proof fn lemma_removal_face_count(grid: Seq<BlockType>, k: int)
    requires
        grid.len() == TOTAL_CHUNK_SIZE,
        0 <= k < TOTAL_CHUNK_SIZE,
        grid[k] != BlockType::AIR,
    ensures
        mesh_faces(grid.update(k, BlockType::AIR)).len() == mesh_faces(grid).len() - voxel_face_count(grid, k)
            + solid_neighbour_count(grid, k),
{
    let t = TOTAL_CHUNK_SIZE as nat;
    lemma_sum_removal(grid, k, t);
    lemma_sum_point(|j: int| if j == k { -(voxel_face_count(grid, k) as int) } else { 0 }, k, -(voxel_face_count(grid, k) as int), t);
    lemma_sum_faces_toward(grid, k, 0);
    lemma_sum_faces_toward(grid, k, 1);
    lemma_sum_faces_toward(grid, k, 2);
    lemma_sum_faces_toward(grid, k, 3);
    lemma_sum_faces_toward(grid, k, 4);
    lemma_sum_faces_toward(grid, k, 5);
    lemma_faces_before_is_sum(grid, t);
    lemma_faces_before_is_sum(grid.update(k, BlockType::AIR), t);
}

} // verus!