use vstd::prelude::*;
use crate::components::RunState;
use crate::ai::ai_post;
use crate::combat::combat_post;
use crate::damage::damage_post;
use crate::indexing::index_post;
use crate::player::{input_state, key_delta_spec, move_keeps, move_outcome, player_input, Key};
use crate::visibility::sight_post;
use crate::world::maintain_post;
use crate::systems::{MeleeCombatSystem, MonsterAI};
use crate::world::World;

verus! {

/// The stages of one pass of the systems, through the worlds between them:
/// visibility, spatial indexing, monster AI, melee combat, damage, commit.
pub open spec fn pipeline(a: World, w1: World, w2: World, w3: World, w4: World, w5: World, b: World) -> bool {
    &&& sight_post(a, w1)
    &&& index_post(w1, w2)
    &&& ai_post(w2, w3)
    &&& combat_post(w3, w4)
    &&& damage_post(w4, w5)
    &&& maintain_post(w5, b)
}

/// `b` is what one pass of the systems makes of `a`.
pub open spec fn systems_post(a: World, b: World) -> bool {
    exists|w1: World, w2: World, w3: World, w4: World, w5: World| #[trigger] pipeline(a, w1, w2, w3, w4, w5, b)
}

/// The whole game: the world and whether the next tick runs the systems.
pub struct State {
    pub ecs: World,
    pub runstate: RunState,
}

impl State {
    pub open spec fn wf(self) -> bool {
        &&& self.ecs.wf()
        &&& self.ecs.player_entity < self.ecs.count()
        &&& self.ecs.map.in_bounds(self.ecs.player_pos.x as int, self.ecs.player_pos.y as int)
    }

    /// Runs one pass of the systems in their fixed order (visibility, spatial
    /// indexing, monster AI, melee combat, damage) and then the commit step.
    /// Afterwards no melee intent and no pending damage is left.
    pub fn run_systems(&mut self)
        requires
            old(self).wf(),
        ensures
            final(self).wf(),
            final(self).runstate == old(self).runstate,
            final(self).ecs.count() == old(self).ecs.count(),
            final(self).ecs.player_pos == old(self).ecs.player_pos,
            final(self).ecs.suffer_damage@.len() == 0,
            final(self).ecs.dead@.len() == 0,
            forall|e: int|
                0 <= e < final(self).ecs.count() ==> (#[trigger] final(self).ecs.wants_to_melee@[e]).is_none(),
            final(self).ecs.wants_count(final(self).ecs.count()) == 0,
            final(self).ecs.map.tiles == old(self).ecs.map.tiles,
            final(self).ecs.map.rooms == old(self).ecs.map.rooms,
            final(self).ecs.map.width == old(self).ecs.map.width,
            final(self).ecs.map.height == old(self).ecs.map.height,
            systems_post(old(self).ecs, final(self).ecs),
    {
        self.ecs.visibility();
        let ghost w1 = self.ecs;
        self.ecs.map_indexing();
        let ghost w2 = self.ecs;
        let mut mob = MonsterAI {};
        mob.run(&mut self.ecs);
        let ghost w3 = self.ecs;
        let mut melee = MeleeCombatSystem {};
        melee.run(&mut self.ecs);
        let ghost w4 = self.ecs;
        self.ecs.apply_damage();
        let ghost w5 = self.ecs;
        self.ecs.maintain();
        proof {
            assert(pipeline(old(self).ecs, w1, w2, w3, w4, w5, self.ecs));
            lemma_no_wants(self.ecs, self.ecs.count());
        }
    }

    /// One frame of the game loop: when running, run the systems and pause;
    /// when paused, wait for the player's key.
    pub fn tick(&mut self, key: Option<Key>)
        requires
            old(self).wf(),
        ensures
            final(self).wf(),
            old(self).runstate == RunState::Running ==> final(self).runstate == RunState::Paused
                && final(self).ecs.suffer_damage@.len() == 0 && final(self).ecs.wants_count(
                final(self).ecs.count(),
            ) == 0 && systems_post(old(self).ecs, final(self).ecs),
            old(self).runstate != RunState::Running ==> final(self).runstate == input_state(key) && move_keeps(
                old(self).ecs,
                final(self).ecs,
            ) && if key.is_some()
                && key_delta_spec(key.unwrap()).is_some() {
                move_outcome(
                    old(self).ecs,
                    final(self).ecs,
                    key_delta_spec(key.unwrap()).unwrap().0 as int,
                    key_delta_spec(key.unwrap()).unwrap().1 as int,
                )
            } else {
                final(self).ecs == old(self).ecs
            },
            final(self).ecs.map.tiles == old(self).ecs.map.tiles,
            final(self).ecs.map.rooms == old(self).ecs.map.rooms,
            final(self).ecs.map.width == old(self).ecs.map.width,
            final(self).ecs.map.height == old(self).ecs.map.height,
    {
        if self.runstate == RunState::Running {
            self.run_systems();
            self.runstate = RunState::Paused;
        } else {
            let next = player_input(self, key);
            self.runstate = next;
        }
    }
}

/// With no intent left in any slot, the count of intents is zero.
pub proof fn lemma_no_wants(w: World, upto: int)
    requires
        0 <= upto <= w.wants_to_melee@.len(),
        forall|e: int| 0 <= e < upto ==> (#[trigger] w.wants_to_melee@[e]).is_none(),
    ensures
        w.wants_count(upto) == 0,
    decreases upto,
{
    if upto > 0 {
        lemma_no_wants(w, upto - 1);
    }
}

} // verus!
