//! A streaming voxel world: a fixed pool of terrain chunks kept around a moving
//! observer, neighbour-aware chunk meshing, terrain generation from column
//! heights, exact voxel-grid ray marching for picking, and the line reader of
//! a bitmap-font descriptor.

pub mod atlas;
pub mod bitmap_font;
pub mod block;
pub mod chunk;
pub mod mesher;
pub mod player;
pub mod ray_tracer;
pub mod vector;
pub mod world;
pub mod world_generation;
