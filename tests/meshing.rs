use voxel_world::atlas::BlockType;
use voxel_world::block::{Block, Face, FaceDirection};
use voxel_world::chunk::{ChunkArray, CHUNK_X_SIZE, MAX_MESH_FACES, TOTAL_CHUNK_SIZE};
use voxel_world::vector::Vec3i;
use voxel_world::world::World;

fn index(x: usize, y: usize, z: usize) -> usize {
    y * 256 + x * 16 + z
}

fn air_grid() -> Vec<BlockType> {
    vec![BlockType::AIR; TOTAL_CHUNK_SIZE]
}

#[test]
fn texture_coordinates_of_grass_faces() {
    let top = BlockType::GRASS.get_texture_coordinates([1, 1], FaceDirection::TOP);
    assert_eq!(top, [31, 31]);
    let side = BlockType::GRASS.get_texture_coordinates([0, 1], FaceDirection::LEFT);
    assert_eq!(side, [33, 31]);
    let bottom = BlockType::GRASS.get_texture_coordinates([1, 0], FaceDirection::BOTTOM);
    assert_eq!(bottom, [95, 1]);
}

#[test]
fn texture_coordinates_of_other_materials() {
    assert_eq!(BlockType::WATER.get_texture_coordinates([0, 0], FaceDirection::TOP), [1, 481]);
    assert_eq!(BlockType::ROCK.get_texture_coordinates([1, 1], FaceDirection::FRONT), [127, 31]);
    assert_eq!(BlockType::DEBUG.get_texture_coordinates([0, 0], FaceDirection::BACK), [481, 1]);
    assert_eq!(BlockType::AIR.get_texture_coordinates([1, 1], FaceDirection::TOP), [0, 0]);
}

#[test]
fn face_directions_are_unit_steps() {
    assert_eq!(FaceDirection::TOP.to_vec(), Vec3i::new(0, 1, 0));
    assert_eq!(FaceDirection::BOTTOM.to_vec(), Vec3i::new(0, -1, 0));
    assert_eq!(FaceDirection::RIGHT.to_vec(), Vec3i::new(1, 0, 0));
    assert_eq!(FaceDirection::LEFT.to_vec(), Vec3i::new(-1, 0, 0));
    assert_eq!(FaceDirection::FRONT.to_vec(), Vec3i::new(0, 0, 1));
    assert_eq!(FaceDirection::BACK.to_vec(), Vec3i::new(0, 0, -1));
}

#[test]
fn face_indices_form_two_triangles() {
    let face = Face::new(BlockType::DIRT, FaceDirection::TOP, [0, 0, 0]);
    assert_eq!(face.get_indices(0), [0, 1, 2, 2, 3, 0]);
    assert_eq!(face.get_indices(2), [8, 9, 10, 10, 11, 8]);
}

#[test]
fn face_vertices_sit_on_the_voxel() {
    let face = Face::new(BlockType::DIRT, FaceDirection::TOP, [3, 4, -5]);
    assert_eq!(face.vertices[0].pos, [3, 5, -5]);
    assert_eq!(face.vertices[1].pos, [3, 5, -4]);
    assert_eq!(face.vertices[2].pos, [4, 5, -4]);
    assert_eq!(face.vertices[3].pos, [4, 5, -5]);
    assert_eq!(face.vertices[2].texture_coordinates, [95, 31]);
}

#[test]
fn block_update_keeps_position() {
    let mut b = Block::new(BlockType::ROCK, Vec3i::new(1, 2, 3));
    b.update(BlockType::AIR);
    assert_eq!(b.material_type, BlockType::AIR);
    assert_eq!(b.position, Vec3i::new(1, 2, 3));
}

#[test]
fn empty_grid_has_empty_mesh() {
    let mesh = World::compute_mesh(&air_grid(), [0, 0, 0]);
    assert_eq!(mesh.vertices.len(), 0);
    assert_eq!(mesh.indices.len(), 0);
    assert_eq!(mesh.num_elements, 0);
    assert!(!mesh.truncated);
}

#[test]
fn oversized_mesh_is_truncated_with_valid_indices() {
    let mut grid = air_grid();
    for y in 0..200 {
        for x in 0..16 {
            for z in 0..16 {
                if (x + y + z) % 2 == 0 {
                    grid[index(x, y, z)] = BlockType::DIRT;
                }
            }
        }
    }
    let mesh = World::compute_mesh(&grid, [0, 0, 0]);
    assert!(mesh.truncated);
    assert_eq!(mesh.vertices.len(), 4 * MAX_MESH_FACES);
    assert_eq!(mesh.indices.len(), 6 * MAX_MESH_FACES);
    assert_eq!(mesh.num_elements as usize, 6 * MAX_MESH_FACES);
    assert!(mesh.indices.iter().all(|i| (*i as usize) < mesh.vertices.len()));
    assert_eq!(mesh.indices[6 * MAX_MESH_FACES - 1] as usize, 4 * (MAX_MESH_FACES - 1));
    assert_eq!(mesh.indices[6 * MAX_MESH_FACES - 2] as usize, 4 * (MAX_MESH_FACES - 1) + 3);
}

#[test]
fn lone_voxel_shows_six_faces() {
    let mut grid = air_grid();
    grid[index(5, 50, 7)] = BlockType::DIRT;
    let mesh = World::compute_mesh(&grid, [0, 0, 0]);
    assert_eq!(mesh.vertices.len(), 24);
    assert_eq!(mesh.indices.len(), 36);
    assert_eq!(mesh.num_elements, 36);
    assert!(!mesh.truncated);
    let expected: Vec<u16> = (0..6u16).flat_map(|f| [0, 1, 2, 2, 3, 0].map(|q| 4 * f + q)).collect();
    assert_eq!(mesh.indices, expected);
}

#[test]
fn lone_voxel_in_a_corner_shows_six_faces() {
    let mut grid = air_grid();
    grid[index(0, 0, 0)] = BlockType::ROCK;
    let mesh = World::compute_mesh(&grid, [0, 0, 0]);
    assert_eq!(mesh.vertices.len(), 24);
    assert_eq!(mesh.indices.len(), 36);
}

#[test]
fn adjacent_voxels_hide_two_faces() {
    for (a, b) in [((4, 9, 4), (5, 9, 4)), ((4, 9, 4), (4, 10, 4)), ((4, 9, 4), (4, 9, 5))] {
        let mut grid = air_grid();
        grid[index(a.0, a.1, a.2)] = BlockType::DIRT;
        grid[index(b.0, b.1, b.2)] = BlockType::GRASS;
        let mesh = World::compute_mesh(&grid, [0, 0, 0]);
        assert_eq!(mesh.vertices.len(), 40);
        assert_eq!(mesh.indices.len(), 60);
    }
}

#[test]
fn boundary_face_is_always_shown() {
    let mut grid = air_grid();
    grid[index(CHUNK_X_SIZE - 1, 3, 3)] = BlockType::DIRT;
    grid[index(CHUNK_X_SIZE - 2, 3, 3)] = BlockType::DIRT;
    let mesh = World::compute_mesh(&grid, [2, 0, -1]);
    assert_eq!(mesh.vertices.len(), 40);
    let right_x = (2 * 16 + 16) as i64;
    let on_boundary = mesh.vertices.iter().filter(|v| v.pos[0] == right_x).count();
    assert_eq!(on_boundary, 4 + 4 * 2);
    assert!(mesh.vertices.iter().any(|v| v.pos == [right_x, 3, -16 + 3]));
}

#[test]
fn mesh_positions_follow_the_chunk_offset() {
    let mut grid = air_grid();
    grid[index(1, 2, 3)] = BlockType::DIRT;
    let mesh = World::compute_mesh(&grid, [-1, 0, 2]);
    assert_eq!(mesh.vertices[0].pos, [-16 + 1, 3, 32 + 3]);
}

#[test]
fn change_block_rebuilds_the_mesh() {
    let mut chunks = ChunkArray::new();
    chunks.new_chunk([0, 0, 0]);
    assert!(chunks.blocks_array[0].iter().all(|m| *m == BlockType::DEBUG));
    let full = chunks.mesh_array[0].vertices.len();
    assert_eq!(full, 4 * (2 * 256 + 4 * 16 * 200));
    assert_eq!(chunks.change_block(0, [5, 5, 5], BlockType::AIR), Ok(()));
    assert_eq!(chunks.get_block(0, [5, 5, 5]).unwrap().material_type, BlockType::AIR);
    assert_eq!(chunks.mesh_array[0].vertices.len(), full + 4 * 6);
    assert!(chunks.change_block(0, [16, 0, 0], BlockType::AIR).is_err());
    assert!(chunks.get_block(0, [0, 200, 0]).is_err());
    assert!(chunks.get_block(0, [-1, 0, 0]).is_err());
}

#[test]
fn chunk_bounds() {
    assert!(ChunkArray::pos_in_chunk_bounds(Vec3i::new(0, 0, 0)));
    assert!(ChunkArray::pos_in_chunk_bounds(Vec3i::new(15, 199, 15)));
    assert!(!ChunkArray::pos_in_chunk_bounds(Vec3i::new(16, 0, 0)));
    assert!(!ChunkArray::pos_in_chunk_bounds(Vec3i::new(0, -1, 0)));
    assert!(!ChunkArray::pos_in_chunk_bounds(Vec3i::new(0, 0, 16)));
}
