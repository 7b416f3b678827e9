//! Host-side plugin runtime logic of StellaTune: plugin metadata, capability
//! bookkeeping, sidecar process and channel bookkeeping, shared-memory rings,
//! stream seeking and plugin installation rules.
pub mod text;
pub mod error;
pub mod endpoint;
pub mod ring;
pub mod sidecar;
pub mod env;
pub mod paths;
pub mod shadow;
pub mod capability_registry;
pub mod events;
pub mod sdk;
pub mod stream;
pub mod calls;
pub mod install;
pub mod order;
pub mod host_runtime;
pub mod keyed;
pub mod sidecar_state;
pub mod stdio_buffer;
pub mod process_exit;
pub mod executor;
pub mod zip;
