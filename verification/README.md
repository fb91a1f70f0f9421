# opendwarf

The logic of the OpenDwarf game, written in Verus with its contracts proved.

- `src/` is the verified library: the voxel world and its simulation
  (`world_state`, `world_sim`, `terrain`), replay recording and checking
  (`replay`), the client projection and rendering decisions (`projection`,
  `render`, `client_world`), the chunk streaming and tilemap planners
  (`streaming`, `tilemap`, `tile_geometry`, `block_tiles`, `block_tilemap`,
  `render_patches`, `runtime_cache`, `runtime_bridge`), input and movement
  (`input`, `movement`), the multiplayer controller and its clipboard payloads
  (`multiplayer`, `payload`, `sdp`), the decisions of a native WebRTC peer
  (`peer_drive`), the mod SDK (`sdk`) and the wire
  protocol (`protocol`). Calls into `base64`, `flate2` and `bincode` sit
  behind small trusted wrappers whose contracts are stated in their doc
  comments.
- `app/` is a headless driver: it generates the cave field (floating-point
  noise), runs the simulation, renders one frame and round-trips a
  multiplayer payload through JSON.
- `tests/` runs the library on concrete values.
