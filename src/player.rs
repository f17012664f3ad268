use vstd::prelude::*;

use crate::atlas::BlockType;
use crate::ray_tracer::{ray_block, ray_hit, Ray};
use crate::vector::Vec3i;
use crate::world::{block_set, World};

verus! {

/// Reach of the player's pick ray, in fixed point: six world units.
pub const RAY_MAX_DISTANCE: u32 = 6144;

/// What the player points at and what it places.
pub struct Player {
    pub pos_ray: Ray,
    pub block_pos_in_view: Option<Vec3i>,
    pub block_face_direction_in_view: Vec3i,
    pub selected_block: BlockType,
}

/// The neighbour of `p` across the face with normal `n`, if its coordinates
/// fit.
pub open spec fn beside(p: Vec3i, n: Vec3i) -> Option<Vec3i> {
    let (x, y, z) = (p.x + n.x, p.y + n.y, p.z + n.z);
    if i32::MIN <= x <= i32::MAX && i32::MIN <= y <= i32::MAX && i32::MIN <= z <= i32::MAX {
        Some(Vec3i { x: x as i32, y: y as i32, z: z as i32 })
    } else {
        None
    }
}

fn add_checked(a: i32, b: i32) -> (r: Option<i32>)
    ensures
        r is Some <==> i32::MIN <= a + b <= i32::MAX,
        r matches Some(v) ==> v == a + b,
{
    let s = a as i64 + b as i64;
    if s < i32::MIN as i64 || s > i32::MAX as i64 {
        None
    } else {
        Some(s as i32)
    }
}

impl Player {
    pub fn new(ray: Ray) -> (r: Self)
        ensures
            r.pos_ray == ray,
            r.block_pos_in_view is None,
            r.block_face_direction_in_view == (Vec3i { x: 0, y: 0, z: 0 }),
            r.selected_block == BlockType::DEBUG,
    {
        Player {
            pos_ray: ray,
            block_pos_in_view: None,
            block_face_direction_in_view: Vec3i::new(0, 0, 0),
            selected_block: BlockType::DEBUG,
        }
    }

    /// Aims along `ray` and remembers the voxel it picks within reach, and the
    /// face it enters that voxel by.
    pub fn update2(&mut self, ray: Ray, world: &World)
        requires
            world.wf(),
        ensures
            final(self).pos_ray == ray,
            final(self).selected_block == old(self).selected_block,
            match ray_hit(*world, ray, RAY_MAX_DISTANCE as int) {
                Some((c, f)) => {
                    &&& final(self).block_pos_in_view matches Some(p) && seq![p.x as int, p.y as int, p.z as int] == c
                    &&& seq![
                        final(self).block_face_direction_in_view.x as int,
                        final(self).block_face_direction_in_view.y as int,
                        final(self).block_face_direction_in_view.z as int,
                    ] == f
                },
                None => {
                    &&& final(self).block_pos_in_view is None
                    &&& final(self).block_face_direction_in_view == old(self).block_face_direction_in_view
                },
            },
    {
        self.pos_ray = ray;
        let mut block_pos = None;
        if let Some(ray_collision) = ray_block(ray, RAY_MAX_DISTANCE, world) {
            block_pos = Some(ray_collision.block_pos);
            self.block_face_direction_in_view = ray_collision.block_face_direction;
        }
        self.block_pos_in_view = block_pos;
    }

    /// Turns the voxel in view to air.
    pub fn destroy_block(&mut self, world: &mut World)
        requires
            old(world).wf(),
        ensures
            final(world).wf(),
            *final(self) == *old(self),
            match old(self).block_pos_in_view {
                Some(p) => if old(world).block_at(p) is Some {
                    block_set(*old(world), *final(world), p, BlockType::AIR)
                } else {
                    *final(world) == *old(world)
                },
                None => *final(world) == *old(world),
            },
    {
        if let Some(pos) = self.block_pos_in_view {
            let _ = world.set_block(pos, BlockType::AIR);
        }
    }

    /// Puts the selected material into the air voxel in front of the face in
    /// view.
    pub fn place_block(&mut self, world: &mut World)
        requires
            old(world).wf(),
        ensures
            final(world).wf(),
            *final(self) == *old(self),
            match old(self).block_pos_in_view {
                Some(p) => match beside(p, old(self).block_face_direction_in_view) {
                    Some(q) => if old(world).block_at(q) == Some(BlockType::AIR) {
                        block_set(*old(world), *final(world), q, old(self).selected_block)
                    } else {
                        *final(world) == *old(world)
                    },
                    None => *final(world) == *old(world),
                },
                None => *final(world) == *old(world),
            },
    {
        if let Some(pos) = self.block_pos_in_view {
            let n = self.block_face_direction_in_view;
            let x = add_checked(pos.x, n.x);
            let y = add_checked(pos.y, n.y);
            let z = add_checked(pos.z, n.z);
            if let (Some(x), Some(y), Some(z)) = (x, y, z) {
                let q = Vec3i::new(x, y, z);
                if world.block_is_air(q) {
                    let _ = world.set_block(q, self.selected_block);
                }
            }
        }
    }
}

} // verus!
