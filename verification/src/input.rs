//! Turning the keys the player presses into world commands and debug-view
//! toggles.

use vstd::prelude::*;

use crate::client_world::{RenderEntityData, RenderEntityState};
use crate::geometry::{direction_contains, direction_contains_spec, step_direction, step_direction_spec, Vec3i};
use crate::invalidation::{InvalidationModel, TileLayerDebugState, TilemapInvalidation};

verus! {

/// Whether the primary entity was moving in the previous frame (so that a
/// held key chains into the next move).
#[derive(Debug, Clone, Copy, PartialEq, Eq, Structural)]
pub struct HeldMovementState {
    pub was_moving_last_frame: bool,
}

pub open spec fn is_zero(v: Vec3i) -> bool {
    v.x == 0 && v.y == 0 && v.z == 0
}

/// The direction of one or two movement keys: their sum, or zero.
pub open spec fn combined_spec(first: Option<Vec3i>, second: Option<Vec3i>) -> Vec3i {
    match (first, second) {
        (Some(a), Some(b)) => Vec3i { x: (a.x + b.x) as i32, y: (a.y + b.y) as i32, z: (a.z + b.z) as i32 },
        (Some(a), None) => a,
        _ => Vec3i { x: 0, y: 0, z: 0 },
    }
}

/// The direction of the first two movement keys.
pub fn combine_directions(first: Option<Vec3i>, second: Option<Vec3i>) -> (r: Vec3i)
    requires
        first matches Some(a) && second matches Some(b) ==> {
            &&& i32::MIN <= a.x + b.x <= i32::MAX
            &&& i32::MIN <= a.y + b.y <= i32::MAX
            &&& i32::MIN <= a.z + b.z <= i32::MAX
        },
    ensures
        r == combined_spec(first, second),
{
    match (first, second) {
        (Some(a), Some(b)) => Vec3i { x: a.x + b.x, y: a.y + b.y, z: a.z + b.z },
        (Some(a), None) => a,
        _ => Vec3i { x: 0, y: 0, z: 0 },
    }
}

/// The move command (if any) for this frame, and whether the entity is
/// moving: an idle entity moves in the pressed direction, or keeps going in
/// the held direction right after a move ends; a moving entity turns only
/// to a newly pressed direction that is neither its own nor still held.
pub open spec fn movement_command_spec(
    replay_active: bool,
    primary: Option<u64>,
    entities: Map<u64, RenderEntityState>,
    pressed: Vec3i,
    held: Vec3i,
    was_moving: bool,
) -> (Option<(u64, Vec3i)>, bool) {
    if replay_active {
        (None, false)
    } else {
        match primary {
            None => (None, false),
            Some(id) => if !entities.contains_key(id) {
                (None, false)
            } else {
                let e = entities[id];
                let moving = e.movement is Some;
                let active = match e.movement {
                    Some(m) => Some(step_direction_spec(m.origin, m.target)),
                    None => None,
                };
                let chain = was_moving && !moving;
                let still_held = match active {
                    Some(a) => direction_contains_spec(held, a),
                    None => false,
                };
                let cmd = if !moving && (!is_zero(pressed) || (chain && !is_zero(held))) {
                    Some((id, if !is_zero(pressed) { pressed } else { held }))
                } else if moving && !is_zero(pressed) && active != Some(pressed) && !still_held {
                    Some((id, pressed))
                } else {
                    None
                };
                (cmd, moving)
            },
        }
    }
}

/// Decide this frame's move command for the primary entity from the
/// pressed and held movement directions; records whether it is moving.
pub fn queue_world_commands_from_input(
    replay_active: bool,
    pressed: Vec3i,
    held: Vec3i,
    primary_entity_id: Option<u64>,
    entity_data: &RenderEntityData,
    held_movement_state: &mut HeldMovementState,
) -> (r: Option<(u64, Vec3i)>)
    ensures
        (r, final(held_movement_state).was_moving_last_frame) == movement_command_spec(
            replay_active,
            primary_entity_id,
            entity_data.entities@,
            pressed,
            held,
            old(held_movement_state).was_moving_last_frame,
        ),
{
    if replay_active {
        held_movement_state.was_moving_last_frame = false;
        return None;
    }
    let entity_id = match primary_entity_id {
        Some(id) => id,
        None => {
            held_movement_state.was_moving_last_frame = false;
            return None;
        },
    };
    let entity = match entity_data.entities.get(&entity_id) {
        Some(e) => *e,
        None => {
            held_movement_state.was_moving_last_frame = false;
            return None;
        },
    };
    let is_moving = entity.movement.is_some();
    let active = match entity.movement {
        Some(m) => Some(step_direction(m.origin, m.target)),
        None => None,
    };
    let pressed_zero = pressed.x == 0 && pressed.y == 0 && pressed.z == 0;
    let held_zero = held.x == 0 && held.y == 0 && held.z == 0;
    let chain = held_movement_state.was_moving_last_frame && !is_moving;
    let still_held = match active {
        Some(a) => direction_contains(held, a),
        None => false,
    };
    let same_as_active = match active {
        Some(a) => a.x == pressed.x && a.y == pressed.y && a.z == pressed.z,
        None => false,
    };
    let cmd = if !is_moving && (!pressed_zero || (chain && !held_zero)) {
        Some((entity_id, if !pressed_zero { pressed } else { held }))
    } else if is_moving && !pressed_zero && !same_as_active && !still_held {
        Some((entity_id, pressed))
    } else {
        None
    };
    held_movement_state.was_moving_last_frame = is_moving;
    cmd
}

/// The debug-menu keys pressed this frame, one per layer switch.
#[derive(Debug, Clone, Copy, PartialEq, Eq, Structural)]
pub struct LayerToggleKeys {
    pub floor: bool,
    pub edge_shadow: bool,
    pub ceiling_shadow: bool,
    pub fog_shadow: bool,
    pub depth_stack: bool,
}

/// Flip every layer switch whose key was pressed; any change asks for a
/// full rebuild of the view.
pub fn toggle_tile_layers(
    keys: LayerToggleKeys,
    state: &mut TileLayerDebugState,
    invalidation: &mut TilemapInvalidation,
)
    ensures
        *final(state) == (TileLayerDebugState {
            show_floor: old(state).show_floor != keys.floor,
            show_edge_shadow: old(state).show_edge_shadow != keys.edge_shadow,
            show_ceiling_shadow: old(state).show_ceiling_shadow != keys.ceiling_shadow,
            show_fog_shadow: old(state).show_fog_shadow != keys.fog_shadow,
            show_depth_stack: old(state).show_depth_stack != keys.depth_stack,
        }),
        final(invalidation)@ == (if keys.floor || keys.edge_shadow || keys.ceiling_shadow || keys.fog_shadow
            || keys.depth_stack {
            InvalidationModel { view_invalidated: true, ..old(invalidation)@ }
        } else {
            old(invalidation)@
        }),
{
    let mut changed = false;
    if keys.floor {
        state.show_floor = !state.show_floor;
        changed = true;
    }
    if keys.edge_shadow {
        state.show_edge_shadow = !state.show_edge_shadow;
        changed = true;
    }
    if keys.ceiling_shadow {
        state.show_ceiling_shadow = !state.show_ceiling_shadow;
        changed = true;
    }
    if keys.fog_shadow {
        state.show_fog_shadow = !state.show_fog_shadow;
        changed = true;
    }
    if keys.depth_stack {
        state.show_depth_stack = !state.show_depth_stack;
        changed = true;
    }
    if changed {
        invalidation.invalidate_view();
    }
}

} // verus!
