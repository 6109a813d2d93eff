//! Rendering and input policy of a GPU-accelerated user interface.
//!
//! [`renderer::WgpuRenderer`] holds the state of a window's renderer and decides
//! what is asked of the GPU. Frames are recorded as [`commands::Command`]s, which
//! a host carries out. [`input_policy`] decides what touches and deletions do.
pub mod backdrop;
pub mod blur_coverage;
pub mod blur_kernel;
pub mod blur_laws;
pub mod blur_weights;
pub mod commands;
pub mod drawing;
pub mod drawing_laws;
pub mod float;
pub mod frame;
pub mod frame_laws;
pub mod frame_painting;
pub mod geometry;
pub mod geometry_laws;
pub mod input_policy;
pub mod kernel_laws;
pub mod layout;
pub mod paint_order;
pub mod pipelines;
pub mod quad_laws;
pub mod quad_painting;
pub mod quads;
pub mod renderer;
pub mod renderer_laws;
pub mod replay;
pub mod rounding;
pub mod scene;
pub mod surface;
pub mod uniforms;
