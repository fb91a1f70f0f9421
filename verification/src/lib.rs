//! Open Dwarf world logic: voxel grid geometry, terrain hashing, the
//! authoritative world state, its command replay, wire protocol decoding,
//! multiplayer signalling payloads and render-side bookkeeping.

pub mod geometry;
pub mod ordered;
pub mod terrain;
pub mod world_state;
pub mod world_sim;
pub mod sdk;
pub mod replay;
pub mod protocol;
pub mod text;
pub mod multiplayer;
pub mod payload;
pub mod sdp;
pub mod peer_drive;
pub mod coords;
pub mod invalidation;
pub mod tile_geometry;
pub mod tilemap;
pub mod playback;
pub mod projection;
pub mod render;
pub mod client_world;
pub mod input;
pub mod streaming;
pub mod runtime_cache;
pub mod render_patches;
pub mod runtime_bridge;
pub mod movement;
pub mod block_tiles;
pub mod chat_bubbles;
pub mod runtime_telemetry;
pub mod block_tilemap;
