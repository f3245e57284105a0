//! A compute-shader scheduling and resource-preparation pipeline for a
//! pixel-addressable framebuffer rendered by a host game engine.
//!
//! The host engine drives four stages per frame, in order: extraction of
//! simulation-side state, preparation of GPU bind groups, building of the
//! per-frame dispatch queue, and execution of the dispatch node. The logic
//! of each stage lives here, stated over plain values: asset identities,
//! pixel extents, and opaque GPU handles. The host glue converts engine
//! events and GPU objects to and from these values at the edge.

pub mod assoc;
pub mod extract;
pub mod frame_store;
pub mod ids;
pub mod image_cache;
pub mod laws;
pub mod node;
pub mod queue;
pub mod registration;
pub mod shader_cache;
