//! Combatants placed on the map.

use vstd::prelude::*;
use crate::attributes::{Hp, Size};
use crate::tile::EntityId;

verus! {

/// Whose side a combatant is on.
#[derive(Debug, Copy, Clone)]
pub enum CombatantType {
    Player,
    Summon,
    Enemy,
    Ally,
}

/// One combatant: its token artwork, summoning links, name and stats.
#[derive(Debug)]
pub struct Combatant {
    pub texture: usize,
    pub summoner: Option<EntityId>,
    pub summons: Option<EntityId>,
    pub name: String,
    pub size: Size,
    pub hp: Hp,
    pub combatant_type: CombatantType,
}

impl Combatant {
    /// A freshly created combatant with no summoning links.
    pub fn new(texture: usize, name: String, size: Size, hp: Hp, combatant_type: CombatantType)
        -> (r: Combatant)
        ensures
            r.texture == texture,
            r.summoner is None,
            r.summons is None,
            r.name == name,
            r.hp == hp,
    {
        Combatant { texture, summoner: None, summons: None, name, size, hp, combatant_type }
    }
}

} // verus!
