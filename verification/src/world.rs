//! What a tick sees of the world, and what it hands back.

use vstd::prelude::*;
use crate::geometry::{AABox, Vector3};

verus! {

/// Where an entity stands, and the box around it that the pointer has to
/// hit.
#[derive(Clone, Copy, Debug, PartialEq, Eq, Structural)]
pub struct Transform {
    pub position: Vector3,
    pub selection_box: AABox,
}

/// One entity that carries a unit, as it stands at the start of the tick. One
/// without a transform stands nowhere: it can lend its attacks to the
/// judgment of the cursor, but it is no target, cannot be clicked and is not
/// sent anywhere.
#[derive(Clone, Copy, Debug, PartialEq, Eq)]
pub struct Unit {
    pub entity_id: u32,
    pub civilization_id: u8,
    pub unit_id: u16,
    pub player_id: u8,
    pub transform: Option<Transform>,
    pub on_screen: bool,
}

/// Each entity occurs once among the units.
pub open spec fn distinct_entities(units: Seq<Unit>) -> bool {
    forall|i: int, j: int|
        #![trigger units[i], units[j]]
        0 <= i < j < units.len() ==> units[i].entity_id != units[j].entity_id
}

/// The buttons and keys of one tick. A button counts in the tick in which it
/// goes from pressed to released; a key counts while it is held.
#[derive(Clone, Copy, Debug, PartialEq, Eq, Structural)]
pub struct Input {
    pub primary_released: bool,
    pub secondary_released: bool,
    pub additive_held: bool,
    pub append_held: bool,
}

/// The archives that hold the game's graphics and sounds.
#[derive(Clone, Copy, Debug, PartialEq, Eq, Structural)]
pub enum DrsKey {
    Border,
    Graphics,
    Interfac,
    Sounds,
    Terrain,
}

/// A cursor mark to be shown at a point of the terrain: a frame of a
/// graphic of an archive.
#[derive(Clone, Copy, Debug, PartialEq, Eq, Structural)]
pub struct Decal {
    pub position: Vector3,
    pub frame: u16,
    pub drs_key: DrsKey,
    pub slp_id: u32,
}

/// A route to be found for one entity.
#[derive(Clone, Copy, Debug, PartialEq, Eq, Structural)]
pub struct MoveRequest {
    pub entity_id: u32,
    pub from: Vector3,
    pub to: Vector3,
    pub terrain_restriction: u8,
}

/// What one tick decided.
#[derive(Clone, Debug)]
pub struct TickOutcome {
    pub attack_decal: Option<Decal>,
    pub clicked: Option<u32>,
    pub move_requests: Vec<MoveRequest>,
}

/// The graphic that holds the cursor marks, in the interface archive.
pub const CURSOR_SLP: u32 = 50405;

/// The frame of the mark that shows a move.
pub const MOVE_FRAME: u16 = 0;

/// The frame of the mark that shows an attack.
pub const ATTACK_FRAME: u16 = 1;

/// The mark for "an attack would land here".
pub open spec fn attack_decal_at(position: Vector3) -> Decal {
    Decal { position, frame: ATTACK_FRAME, drs_key: DrsKey::Interfac, slp_id: CURSOR_SLP }
}

/// The mark for "units were sent here".
pub open spec fn move_decal_at(position: Vector3) -> Decal {
    Decal { position, frame: MOVE_FRAME, drs_key: DrsKey::Interfac, slp_id: CURSOR_SLP }
}

/// The mark for "an attack would land here".
pub fn attack_decal(position: Vector3) -> (decal: Decal)
    ensures
        decal == attack_decal_at(position),
{
    Decal { position, frame: ATTACK_FRAME, drs_key: DrsKey::Interfac, slp_id: CURSOR_SLP }
}

/// The mark for "units were sent here".
pub fn move_decal(position: Vector3) -> (decal: Decal)
    ensures
        decal == move_decal_at(position),
{
    Decal { position, frame: MOVE_FRAME, drs_key: DrsKey::Interfac, slp_id: CURSOR_SLP }
}

} // verus!
