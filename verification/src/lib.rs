//! Verified core of the tunnels render client: the data that its
//! renderers, caches, controllers and services decide things with.

pub mod ab;
pub mod bootstrap;
pub mod child;
pub mod compare;
pub mod demo_mesh;
pub mod fill_gpu;
pub mod fill_mesh;
pub mod geom;
pub mod layout_sync;
pub mod layout_zip;
pub mod params;
pub mod projector;
pub mod ramp_pool;
pub mod remote;
pub mod run_flag;
pub mod show_frames;
pub mod snapshot_manager;
pub mod text;
pub mod timesync;
