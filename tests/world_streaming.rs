use voxel_world::atlas::BlockType;
use voxel_world::chunk::{BoundsError, SEA_LEVEL, TOTAL_CHUNK_SIZE};
use voxel_world::ray_tracer::{ray_block, Ray, RAY_SCALE};
use voxel_world::vector::Vec3i;
use voxel_world::world::{Config, World, WORLD_SIZE};
use voxel_world::world_generation::{generate_chunk, generate_flat_world, HeightMap};

fn flat_config() -> Config {
    Config { wireframe: false, display_coordinates: false, flat_world: true }
}

fn no_terrain(_seed: u32, _offset: [i32; 3]) -> HeightMap {
    [SEA_LEVEL as u8; 256]
}

fn flat_world() -> World {
    World::new(flat_config(), 7, &no_terrain)
}

fn index(x: usize, y: usize, z: usize) -> usize {
    y * 256 + x * 16 + z
}

#[test]
fn flat_terrain_layers() {
    let mut grid = vec![BlockType::DEBUG; TOTAL_CHUNK_SIZE];
    generate_flat_world(&mut grid);
    assert_eq!(grid[index(3, 0, 4)], BlockType::ROCK);
    assert_eq!(grid[index(3, 1, 4)], BlockType::DIRT);
    assert_eq!(grid[index(3, 99, 4)], BlockType::DIRT);
    assert_eq!(grid[index(3, 100, 4)], BlockType::GRASS);
    assert_eq!(grid[index(3, 101, 4)], BlockType::AIR);
    assert_eq!(grid[index(15, 199, 15)], BlockType::AIR);
}

#[test]
fn terrain_follows_column_heights() {
    let mut heights: HeightMap = [50; 256];
    heights[2 * 16 + 5] = 120;
    let mut grid = vec![BlockType::DEBUG; TOTAL_CHUNK_SIZE];
    generate_chunk(&mut grid, &heights, false);
    assert_eq!(grid[index(0, 50, 0)], BlockType::GRASS);
    assert_eq!(grid[index(0, 51, 0)], BlockType::WATER);
    assert_eq!(grid[index(0, 100, 0)], BlockType::WATER);
    assert_eq!(grid[index(0, 101, 0)], BlockType::AIR);
    assert_eq!(grid[index(0, 0, 0)], BlockType::ROCK);
    assert_eq!(grid[index(0, 49, 0)], BlockType::DIRT);
    assert_eq!(grid[index(2, 120, 5)], BlockType::GRASS);
    assert_eq!(grid[index(2, 119, 5)], BlockType::DIRT);
    assert_eq!(grid[index(2, 121, 5)], BlockType::AIR);
}

#[test]
fn flat_flag_ignores_heights() {
    let heights: HeightMap = [10; 256];
    let mut grid = vec![BlockType::DEBUG; TOTAL_CHUNK_SIZE];
    generate_chunk(&mut grid, &heights, true);
    assert_eq!(grid[index(1, 100, 1)], BlockType::GRASS);
    assert_eq!(grid[index(1, 10, 1)], BlockType::DIRT);
}

#[test]
fn grass_at_height_zero_wins_over_rock() {
    let heights: HeightMap = [0; 256];
    let mut grid = vec![BlockType::DEBUG; TOTAL_CHUNK_SIZE];
    generate_chunk(&mut grid, &heights, false);
    assert_eq!(grid[index(7, 0, 7)], BlockType::GRASS);
    assert_eq!(grid[index(7, 1, 7)], BlockType::WATER);
}

#[test]
fn world_to_local_is_never_negative() {
    assert_eq!(World::world_pos_to_block_pos(Vec3i::new(-1, -1, -17)), Vec3i::new(15, 199, 15));
    assert_eq!(World::world_pos_to_block_pos(Vec3i::new(33, 250, 16)), Vec3i::new(1, 50, 0));
    assert_eq!(World::world_pos_to_block_pos(Vec3i::new(i32::MIN, i32::MIN, i32::MAX)), Vec3i::new(0, 152, 15));
    for v in [-1000, -17, -16, -15, -1, 0, 1, 15, 16, 1000] {
        let l = World::world_pos_to_block_pos(Vec3i::new(v, v, v));
        assert!((0..16).contains(&l.x) && (0..200).contains(&l.y) && (0..16).contains(&l.z));
    }
}

#[test]
fn world_to_chunk_offset_floors() {
    assert_eq!(World::world_pos_to_chunk_offset(Vec3i::new(-1, 7, 15)), Vec3i::new(-1, 0, 0));
    assert_eq!(World::world_pos_to_chunk_offset(Vec3i::new(-16, 7, 16)), Vec3i::new(-1, 0, 1));
    assert_eq!(World::world_pos_to_chunk_offset(Vec3i::new(-17, 7, 31)), Vec3i::new(-2, 0, 1));
    assert_eq!(World::block_pos_to_world_pos(Vec3i::new(3, 4, 5), Vec3i::new(-2, 0, 1)), [-29, 4, 21]);
}

#[test]
fn new_world_loads_flat_terrain() {
    let world = flat_world();
    assert_eq!(world.get_block(Vec3i::new(0, 100, 0)).unwrap().material_type, BlockType::GRASS);
    assert_eq!(world.get_block(Vec3i::new(-80, 0, 79)).unwrap().material_type, BlockType::ROCK);
    assert!(world.get_block(Vec3i::new(-81, 0, 0)).is_none());
    assert!(world.get_block(Vec3i::new(80, 0, 0)).is_none());
    assert!(world.get_block(Vec3i::new(0, 200, 0)).is_none());
    assert!(world.get_block(Vec3i::new(0, -1, 0)).is_none());
    assert!(world.block_is_air(Vec3i::new(3, 101, 3)));
    assert!(!world.block_is_air(Vec3i::new(3, 100, 3)));
    assert!(!world.block_is_air(Vec3i::new(3, 300, 3)));
    assert!(world.is_hitting_block(Vec3i::new(-3, 42, -70)));
    assert!(!world.is_hitting_block(Vec3i::new(-3, 142, -70)));
    assert!(!world.is_hitting_block(Vec3i::new(500, 42, 0)));
    let b = world.get_block(Vec3i::new(-1, 100, -17)).unwrap();
    assert_eq!(b.position, Vec3i::new(15, 100, 15));
}

#[test]
fn lookup_gives_slot_with_that_coordinate() {
    let mut world = flat_world();
    world.set_center(Vec3i::new(37, 3, -70), &no_terrain);
    let center = World::world_pos_to_chunk_offset(Vec3i::new(37, 3, -70));
    let (ox, oz) = (center.x - 5, center.z - 5);
    let mut seen = Vec::new();
    for dz in 0..WORLD_SIZE as i32 {
        for dx in 0..WORLD_SIZE as i32 {
            let c = Vec3i::new(ox + dx, 0, oz + dz);
            let slot = world.get_chunk_index(c).unwrap();
            assert_eq!(world.chunks.offset_array[slot], [c.x, 0, c.z]);
            seen.push(slot);
        }
    }
    seen.sort();
    seen.dedup();
    assert_eq!(seen.len(), 100);
    assert!(world.get_chunk_index(Vec3i::new(ox - 1, 0, oz)).is_none());
    assert!(world.get_chunk_index(Vec3i::new(ox, 0, oz + 10)).is_none());
}

#[test]
fn recentring_keeps_chunks_that_stay() {
    let mut world = flat_world();
    assert_eq!(world.set_block(Vec3i::new(20, 100, 20), BlockType::ROCK), Ok(()));
    world.set_center(Vec3i::new(40, 0, 0), &no_terrain);
    assert_eq!(world.get_block(Vec3i::new(20, 100, 20)).unwrap().material_type, BlockType::ROCK);
    assert!(world.get_block(Vec3i::new(-80, 100, 0)).is_none());
    assert_eq!(world.get_block(Vec3i::new(110, 100, 0)).unwrap().material_type, BlockType::GRASS);
}

#[test]
fn second_recentre_in_same_window_does_nothing() {
    let mut world = flat_world();
    world.set_center(Vec3i::new(100, 0, 100), &no_terrain);
    assert_eq!(world.set_block(Vec3i::new(101, 100, 101), BlockType::WATER), Ok(()));
    let slot = world.get_chunk_index(Vec3i::new(6, 0, 6)).unwrap();
    let vertices = world.chunks.mesh_array[slot].vertices.len();
    world.set_center(Vec3i::new(111, 50, 97), &no_terrain);
    assert_eq!(world.get_chunk_index(Vec3i::new(6, 0, 6)), Some(slot));
    assert_eq!(world.get_block(Vec3i::new(101, 100, 101)).unwrap().material_type, BlockType::WATER);
    assert_eq!(world.chunks.mesh_array[slot].vertices.len(), vertices);
}

#[test]
fn terrain_source_is_asked_with_seed_and_offset() {
    fn ramp(seed: u32, offset: [i32; 3]) -> HeightMap {
        assert_eq!(seed, 11);
        [(60 + offset[0] + 5) as u8; 256]
    }
    let world = World::new(Config::default(), 11, &ramp);
    assert_eq!(world.get_block(Vec3i::new(-80, 60, 0)).unwrap().material_type, BlockType::GRASS);
    assert_eq!(world.get_block(Vec3i::new(-64, 61, 0)).unwrap().material_type, BlockType::GRASS);
    assert_eq!(world.get_block(Vec3i::new(-64, 62, 0)).unwrap().material_type, BlockType::WATER);
}

#[test]
fn removing_a_block_reads_back_air_and_updates_mesh() {
    let mut world = flat_world();
    let p = Vec3i::new(3, 100, 3);
    let slot = world.get_chunk_index(World::world_pos_to_chunk_offset(p)).unwrap();
    let before = world.chunks.mesh_array[slot].vertices.len();
    assert_eq!(world.set_block(p, BlockType::AIR), Ok(()));
    assert_eq!(world.get_block(p).unwrap().material_type, BlockType::AIR);
    // The top face goes; the dirt below and the four grass neighbours each
    // show one more face.
    assert_eq!(world.chunks.mesh_array[slot].vertices.len(), before - 4 + 5 * 4);
}

#[test]
fn set_block_outside_the_window_fails() {
    let mut world = flat_world();
    assert_eq!(world.set_block(Vec3i::new(1000, 10, 0), BlockType::AIR), Err(BoundsError));
    assert_eq!(world.set_block(Vec3i::new(0, 200, 0), BlockType::AIR), Err(BoundsError));
    assert_eq!(world.set_block(Vec3i::new(0, -1, 0), BlockType::AIR), Err(BoundsError));
}

#[test]
fn ray_hits_first_solid_voxel() {
    let mut world = flat_world();
    for x in 0..3 {
        assert_eq!(world.set_block(Vec3i::new(x, 0, 0), BlockType::AIR), Ok(()));
    }
    let half = (RAY_SCALE / 2) as i32;
    let ray = Ray { origin: [half, half, half], direction: [1, 0, 0] };
    let hit = ray_block(ray, 6 * RAY_SCALE as u32, &world).unwrap();
    assert_eq!(hit.block_pos, Vec3i::new(3, 0, 0));
    assert_eq!(hit.block_face_direction, Vec3i::new(-1, 0, 0));
    assert!(ray_block(ray, 2 * RAY_SCALE as u32, &world).is_none());
}

#[test]
fn ray_from_a_grid_line_crosses_a_whole_cell_first() {
    let mut world = flat_world();
    for x in 0..2 {
        assert_eq!(world.set_block(Vec3i::new(x, 0, 0), BlockType::AIR), Ok(()));
    }
    let ray = Ray { origin: [0, 512, 512], direction: [1, 0, 0] };
    assert!(ray_block(ray, 1536, &world).is_none());
    let hit = ray_block(ray, 2048, &world).unwrap();
    assert_eq!(hit.block_pos, Vec3i::new(2, 0, 0));
    assert_eq!(hit.block_face_direction, Vec3i::new(-1, 0, 0));
}

#[test]
fn diagonal_ray_from_a_grid_line_visits_every_crossed_cell() {
    let mut world = flat_world();
    assert_eq!(world.set_block(Vec3i::new(0, 0, 0), BlockType::AIR), Ok(()));
    let ray = Ray { origin: [0, 512, 512], direction: [1, 1, 0] };
    let hit = ray_block(ray, 6 * 1024, &world).unwrap();
    assert_eq!(hit.block_pos, Vec3i::new(0, 1, 0));
    assert_eq!(hit.block_face_direction, Vec3i::new(0, -1, 0));
}

#[test]
fn ray_starting_inside_a_solid_voxel_has_no_face() {
    let world = flat_world();
    let ray = Ray { origin: [100, 50 * 1024 + 3, -7], direction: [0, -3, 0] };
    let hit = ray_block(ray, 0, &world).unwrap();
    assert_eq!(hit.block_pos, Vec3i::new(0, 50, -1));
    assert_eq!(hit.block_face_direction, Vec3i::new(0, 0, 0));
}

#[test]
fn ray_down_onto_the_ground() {
    let world = flat_world();
    let ray = Ray { origin: [2 * 1024 + 512, 104 * 1024 + 512, -1024 + 10], direction: [0, -1, 0] };
    let hit = ray_block(ray, 6 * 1024, &world).unwrap();
    assert_eq!(hit.block_pos, Vec3i::new(2, 100, -1));
    assert_eq!(hit.block_face_direction, Vec3i::new(0, 1, 0));
    assert!(ray_block(ray, 3 * 1024, &world).is_none());
}

#[test]
fn ray_with_zero_direction_never_leaves_its_cell() {
    let world = flat_world();
    let ray = Ray { origin: [0, 150 * 1024, 0], direction: [0, 0, 0] };
    assert!(ray_block(ray, 6 * 1024, &world).is_none());
}

#[test]
fn diagonal_ray_steps_through_cells() {
    let world = flat_world();
    let ray = Ray { origin: [512, 101 * 1024 + 512, 512], direction: [1, -1, 0] };
    let hit = ray_block(ray, 6 * 1024, &world).unwrap();
    assert_eq!(hit.block_pos, Vec3i::new(0, 100, 0));
    assert_eq!(hit.block_face_direction, Vec3i::new(0, 1, 0));
}

use voxel_world::player::{Player, RAY_MAX_DISTANCE};

#[test]
fn player_picks_places_and_breaks() {
    let mut world = flat_world();
    let ray = Ray { origin: [2 * 1024 + 512, 104 * 1024 + 512, -1024 + 10], direction: [0, -1, 0] };
    let mut player = Player::new(ray);
    assert_eq!(RAY_MAX_DISTANCE, 6 * RAY_SCALE as u32);
    player.update2(ray, &world);
    assert_eq!(player.block_pos_in_view, Some(Vec3i::new(2, 100, -1)));
    assert_eq!(player.block_face_direction_in_view, Vec3i::new(0, 1, 0));
    player.place_block(&mut world);
    assert_eq!(world.get_block(Vec3i::new(2, 101, -1)).unwrap().material_type, BlockType::DEBUG);
    player.update2(ray, &world);
    assert_eq!(player.block_pos_in_view, Some(Vec3i::new(2, 101, -1)));
    player.destroy_block(&mut world);
    assert_eq!(world.get_block(Vec3i::new(2, 101, -1)).unwrap().material_type, BlockType::AIR);
    let up = Ray { origin: [0, 150 * 1024, 0], direction: [0, 1, 0] };
    player.update2(up, &world);
    assert_eq!(player.block_pos_in_view, None);
    player.place_block(&mut world);
    player.destroy_block(&mut world);
    assert_eq!(world.get_block(Vec3i::new(0, 150, 0)).unwrap().material_type, BlockType::AIR);
}
