//! The structure catalog: the kinds of structures the world can hold and the
//! rule that assigns a kind to a placement when it is first revealed.

use crate::rng::rand_below;
use crate::utils::TilePos;
use vstd::prelude::*;

verus! {

/// The kind of a placed structure. `Unspawned` is the sentinel for a
/// placement whose kind has not been revealed yet; it becomes a concrete kind
/// exactly once, when the player first brings the tile into the reality
/// bubble.
#[derive(Clone, Copy, Debug, PartialEq, Eq, Structural, Hash)]
pub enum StructureType {
    Unspawned,
    SpawnTutorial,
    Remember,
    BewareSpider,
    FearTheSpider,
    Forget,
    RememberRemember,
    TorchHint,
    Altar,
    BossAltar,
}

/// A concrete kind that reveal-time assignment can pick away from the boss
/// room: the upgrade altar or one of the six decorative lore markers.
pub open spec fn is_flavor_or_altar(t: StructureType) -> bool {
    ||| t is Altar
    ||| t is Remember
    ||| t is BewareSpider
    ||| t is FearTheSpider
    ||| t is Forget
    ||| t is RememberRemember
    ||| t is TorchHint
}

/// Picks the kind a structure takes when revealed: the dedicated boss-room
/// location always holds the boss altar; any other location draws the upgrade
/// altar with weight 3 in 10, and otherwise one of the six lore markers
/// uniformly.
pub fn decide_structure_type(boss_room_loc: TilePos, loc: TilePos) -> (t: StructureType)
    ensures
        loc == boss_room_loc ==> t is BossAltar,
        loc != boss_room_loc ==> is_flavor_or_altar(t),
{
    if loc == boss_room_loc {
        return StructureType::BossAltar;
    }
    if rand_below(10) < 3 {
        return StructureType::Altar;
    }
    match rand_below(6) {
        0 => StructureType::Remember,
        1 => StructureType::BewareSpider,
        2 => StructureType::FearTheSpider,
        3 => StructureType::Forget,
        4 => StructureType::RememberRemember,
        _ => StructureType::TorchHint,
    }
}

} // verus!
