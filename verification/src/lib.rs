//! A verified core of a chunked voxel engine: coordinate-space transformations, chunk
//! storage structures, neighbor selections, occlusion data, quads and meshing helpers,
//! chunk connectivity graphs and job queues.
mod outside;
pub mod math;
pub mod face;
pub mod transformations;
pub mod bounding_box;
pub mod neighbors;
pub mod storage;
pub mod block;
pub mod generic_chunk;
pub mod visibility;
pub mod occlusion;
pub mod quad;
pub mod gpu;
pub mod greedy;
pub mod slice_reads;
pub mod jobs;
pub mod permits;
pub mod generator;
pub mod mesh_state;
pub mod containers;
pub mod controller;
pub mod batch;
