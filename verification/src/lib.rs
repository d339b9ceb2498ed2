//! Scene recording, raster tile residency and frame tracing for a GPU renderer.
//!
//! The crate holds the decisions of the renderer as ordinary values and state
//! machines: what a scene records, in which order it is drawn, which tiles stay
//! resident on the device, what a frame trace keeps. The code that talks to the
//! graphics device, the clock and other threads lives outside and hands plain
//! values in.
pub mod account_laws;
pub mod batch_laws;
pub mod batches;
pub mod bounds_tree;
pub mod buffer_laws;
pub mod compositor;
pub mod compositor_laws;
pub mod compositor_transform;
pub mod counter_laws;
pub mod display_link;
pub mod element_laws;
pub mod encode;
pub mod encode_laws;
pub mod event_laws;
pub mod float_bits;
pub mod frame_laws;
pub mod frame_plan;
pub mod frame_trace;
pub mod geometry;
pub mod gpu_types;
pub mod image_comparison;
pub mod image_laws;
pub mod instance_buffer;
pub mod natural;
pub mod number_laws;
pub mod paint_laws;
pub mod pass_laws;
pub mod path;
pub mod plan_laws;
pub mod presentation;
pub mod primitive;
pub mod raster_cache;
pub mod raster_elements;
pub mod record_laws;
pub mod renderer;
pub mod residency;
pub mod residency_laws;
pub mod room_laws;
pub mod scene;
pub mod scene_laws;
pub mod sort_laws;
pub mod stable_sort;
pub mod tile_laws;
pub mod time;
pub mod trace_buffer;
pub mod trace_event;
pub mod vector_scene_cache;
