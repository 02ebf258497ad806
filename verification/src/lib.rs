//! Tessellation core of a 2D vector renderer: paths, curve flattening,
//! polygon triangulation, stroking, mesh assembly and draw-call batching, on
//! fixed-point coordinates.

pub mod atlas;
pub mod batch;
pub mod brush;
pub mod canvas;
pub mod color;
pub mod color_text;
pub mod config;
pub mod draw_list;
pub mod earcut;
pub mod fill;
pub mod math;
pub mod mesh;
pub mod path;
pub mod path_brush;
pub mod primitives;
pub mod scene;
pub mod slot;
pub mod stroke;
pub mod transform;
