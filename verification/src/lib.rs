//! The computational core of a voxel world: a registry of block types, an
//! atlas that packs per-face textures into fixed-size sheets, and a mesher
//! that turns a chunk of voxels into render and collision geometry.
//!
//! Geometry is kept in exact integers. Positions are in half-voxel units,
//! normals are axis vectors, and texture coordinates are numerators over
//! [`block::texture::UV_DENOMINATOR`].

pub mod block;
pub mod chunk;
