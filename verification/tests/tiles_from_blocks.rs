use std::collections::{BTreeMap, BTreeSet};

use opendwarf::block_tiles::{
    build_ceiling_shadow_tile_data, build_chunk_tile_data, build_edge_shadow_tile_data, build_fog_tile_data,
    chunk_has_edge,
};
use opendwarf::chat_bubbles::{ChatBubbleEvent, ChatBubbleStyle, strip_emote_tag};
use opendwarf::client_world::{FogData, TileMemory};
use opendwarf::coords::{DepthTint, IVec2, TerrainBlocks};
use opendwarf::geometry::{BlockType, Vec3i, Vec3u};
use opendwarf::render_patches::{PatchTile, PatchTint, depth_tint_color};
use opendwarf::runtime_telemetry::{sanitize_component, should_persist_now};
use opendwarf::streaming::{chunk_window, world_pos_to_chunk_coord};

/// A 2x2 chunk (edge 2, so tiles -1..=0 on each axis) at level 0.
fn blocks(list: &[((i32, i32, i32), BlockType)]) -> TerrainBlocks {
    list.iter().copied().collect::<BTreeMap<_, _>>()
}

fn tile(index: u16) -> Option<PatchTile> {
    Some(PatchTile { tileset_index: index, tint: PatchTint::Plain })
}

#[test]
fn stone_tiles_follow_known_solid_blocks() {
    let b = blocks(&[((-1, -1, 0), BlockType::SolidStone), ((0, -1, 0), BlockType::Air)]);
    let tiles = build_chunk_tile_data(IVec2 { x: 0, y: 0 }, 0, 2, &b, -1, true);
    let stone = Some(PatchTile { tileset_index: 5, tint: PatchTint::Depth(DepthTint::Level(1)) });
    assert_eq!(tiles, vec![stone, None, None, None]);
    let plain = build_chunk_tile_data(IVec2 { x: 0, y: 0 }, 0, 2, &b, -1, false);
    assert_eq!(plain[0], tile(5));
    assert_eq!(depth_tint_color(-3), DepthTint::Level(3));
}

#[test]
fn edge_shadows_mark_mixed_corners() {
    // Only (0, 0) is stone: tile (-1, -1) sees it as its top-right corner
    // (mask 8), tile (-1, 0) as its bottom-right corner (mask 2), tile (0, 0)
    // as its bottom-left corner (mask 1).
    let b = blocks(&[((0, 0, 0), BlockType::SolidStone)]);
    let tiles = build_edge_shadow_tile_data(IVec2 { x: 0, y: 0 }, 0, 2, &b, false);
    assert_eq!(tiles, vec![tile(7), tile(3), tile(1), tile(0)]);
    assert!(chunk_has_edge(IVec2 { x: 0, y: 0 }, 0, 2, &b, false));
    // With unknown blocks solid, everything is stone: no edges anywhere.
    let all = build_edge_shadow_tile_data(IVec2 { x: 0, y: 0 }, 0, 2, &BTreeMap::new(), true);
    assert_eq!(all, vec![None; 4]);
    assert!(!chunk_has_edge(IVec2 { x: 0, y: 0 }, 0, 2, &BTreeMap::new(), true));
}

#[test]
fn ceiling_shadows_need_stone_above_and_below() {
    let b = blocks(&[((0, 0, 0), BlockType::SolidStone), ((0, 0, 1), BlockType::SolidStone), ((-1, -1, 1), BlockType::SolidStone)]);
    let tiles = build_ceiling_shadow_tile_data(IVec2 { x: 0, y: 0 }, 0, 2, &b, false);
    assert_eq!(tiles, vec![tile(7), tile(3), tile(1), tile(0)]);
}

#[test]
fn fog_overlay_marks_remembered_and_hidden_stone() {
    let mut fog = FogData { visible: BTreeSet::new(), memory: BTreeMap::new(), dirty: false };
    fog.visible.insert((-1, -1, 0));
    fog.memory.insert((0, -1, 0), TileMemory { block: BlockType::Air, tick_observed: 1 });
    let b = blocks(&[((-1, 0, 0), BlockType::SolidStone), ((0, 0, -1), BlockType::SolidStone)]);
    let remembered = Some(PatchTile { tileset_index: 0, tint: PatchTint::RememberedFog });
    // At the view level: remembered tiles only.
    let at_view = build_fog_tile_data(IVec2 { x: 0, y: 0 }, 0, 0, 2, &b, &fog);
    assert_eq!(at_view, vec![None, remembered, None, None]);
    // Below it: unseen stone.
    let below = build_fog_tile_data(IVec2 { x: 0, y: 0 }, -1, 0, 2, &b, &fog);
    assert_eq!(below, vec![None, None, None, remembered]);
}

#[test]
fn chunk_of_world_position_is_centred() {
    let world = Vec3u::new(4, 4, 2);
    assert_eq!(world_pos_to_chunk_coord(Vec3i::new(0, 0, 0), 16, world), Some(Vec3i::new(0, 0, 0)));
    assert_eq!(world_pos_to_chunk_coord(Vec3i::new(-1, 15, -16), 16, world), Some(Vec3i::new(-1, 0, -1)));
    assert_eq!(world_pos_to_chunk_coord(Vec3i::new(-33, 0, 0), 16, world), None);
    assert_eq!(world_pos_to_chunk_coord(Vec3i::new(0, 0, 16), 16, world), None);
    // A zero chunk edge counts as one voxel per chunk.
    assert_eq!(world_pos_to_chunk_coord(Vec3i::new(1, 0, 0), 0, Vec3u::new(4, 1, 1)), Some(Vec3i::new(1, 0, 0)));
}

#[test]
fn chunk_window_is_clipped_to_the_grid() {
    let window = chunk_window(Vec3i::new(0, 0, 0), Vec3u::new(3, 3, 1));
    assert_eq!(window.len(), 9);
    let far = chunk_window(Vec3i::new(5, 5, 0), Vec3u::new(16, 16, 4));
    assert_eq!(far.len(), 5 * 5 * 3);
    assert!(far.contains(&(3, 3, -1)) && far.contains(&(7, 7, 1)) && !far.contains(&(8, 5, 0)));
}

#[test]
fn emote_tags_are_stripped() {
    assert_eq!(strip_emote_tag("  <i> waves </i> ").as_deref(), Some("waves"));
    assert_eq!(strip_emote_tag("<i></i>"), None);
    assert_eq!(strip_emote_tag("<i>  </i>"), None);
    assert_eq!(strip_emote_tag("hello <i>x</i>"), None);
    assert_eq!(strip_emote_tag("<i>x</i"), None);
    let e = ChatBubbleEvent::from_chat_input("<i>nods</i>");
    assert_eq!((e.message.as_str(), e.style, e.target), ("nods", ChatBubbleStyle::Emote, None));
    let n = ChatBubbleEvent::from_chat_input(" hi ");
    assert_eq!((n.message.as_str(), n.style), (" hi ", ChatBubbleStyle::Normal));
}

#[test]
fn path_components_keep_only_safe_characters() {
    assert_eq!(sanitize_component("build 1.2/é-x_y"), "build_1_2__-x_y");
    assert_eq!(sanitize_component(""), "");
}

#[test]
fn reports_persist_at_start_on_status_change_and_every_thirty_frames() {
    assert!(should_persist_now(0, false, 0));
    assert!(should_persist_now(7, true, 7));
    assert!(!should_persist_now(7, false, 0));
    assert!(should_persist_now(30, false, 0));
    assert!(!should_persist_now(30, false, 30));
}
