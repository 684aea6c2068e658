//! A wireframe software rasterizer: coordinate-space markers, a pixel buffer
//! with clipped Bresenham line drawing, a barycentric triangle helper and
//! mesh face lookup.
pub mod color;
pub mod frame;
pub mod mesh;
pub mod primitives;
pub mod raster;
pub mod shading;
pub mod space;
