//! The integer core of a tiled CPU ray tracer: tile layout and assembly of the
//! raster, sample averaging, texture addressing, nearest-hit selection, the
//! split rules of the mesh tree and triangle extraction from OBJ objects.
pub mod bvh;
pub mod faces;
pub mod nearest;
pub mod pixel;
pub mod raster;
pub mod ray;
pub mod texture;
pub mod tiles;
