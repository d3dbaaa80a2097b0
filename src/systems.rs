use vstd::prelude::*;
use crate::ai::ai_post;
use crate::combat::combat_post;
use crate::world::World;

verus! {

/// The melee combat system as a schedulable unit; see `World::melee_combat`.
pub struct MeleeCombatSystem {}

impl MeleeCombatSystem {
    pub fn run(&mut self, ecs: &mut World)
        requires
            old(ecs).wf(),
        ensures
            combat_post(*old(ecs), *final(ecs)),
    {
        ecs.melee_combat();
    }
}

/// The monster AI system as a schedulable unit; see `World::monster_ai`.
pub struct MonsterAI {}

impl MonsterAI {
    pub fn run(&mut self, ecs: &mut World)
        requires
            old(ecs).wf(),
            old(ecs).player_entity < old(ecs).count(),
            old(ecs).map.in_bounds(old(ecs).player_pos.x as int, old(ecs).player_pos.y as int),
        ensures
            ai_post(*old(ecs), *final(ecs)),
    {
        ecs.monster_ai();
    }
}

} // verus!
