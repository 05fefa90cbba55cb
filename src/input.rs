use vstd::prelude::*;
use crate::entity::{Circle, PlayerInput};
use crate::game_math::clamp;
use crate::spawn::has_input;
use crate::vector::{DbVector2, unit_scaled};
use crate::world::{World, input_ids_unique};

verus! {

/// Largest magnitude of the horizontal axis, in thousandths.
pub const AXIS_LIMIT: i64 = 1000;

/// Index of the input record of `player_id` (meaningful where it exists).
pub open spec fn input_index(s: Seq<PlayerInput>, player_id: u32) -> int {
    choose|k: int| 0 <= k < s.len() && #[trigger] s[k].player_id == player_id
}

/// Sequence number of the player's input record, zero where there is none.
pub open spec fn sequence_of(s: Seq<PlayerInput>, player_id: u32) -> int {
    if has_input(s, player_id) {
        s[input_index(s, player_id)].input_sequence as int
    } else {
        0
    }
}

/// Whether an input from `player_id` is taken: the player must be in the
/// game and its sequence counter must still be able to grow.
pub open spec fn input_accepted(w: &World, player_id: u32) -> bool {
    w.players@.contains(player_id) && sequence_of(w.inputs@, player_id) < u32::MAX
}

/// With unique player ids, the record at a position is the one looked up.
pub proof fn lemma_input_index(s: Seq<PlayerInput>, k: int)
    requires
        input_ids_unique(s),
        0 <= k < s.len(),
    ensures
        has_input(s, s[k].player_id),
        input_index(s, s[k].player_id) == k,
{
    assert(has_input(s, s[k].player_id));
    let j = input_index(s, s[k].player_id);
    assert(0 <= j < s.len() && s[j].player_id == s[k].player_id);
}

/// Clamping the horizontal axis twice stores what clamping once does.
pub proof fn lemma_clamp_horizontal_idempotent(h: int)
    ensures
        clamp(clamp(h, -AXIS_LIMIT as int, AXIS_LIMIT as int), -AXIS_LIMIT as int, AXIS_LIMIT as int) == clamp(
            h,
            -AXIS_LIMIT as int,
            AXIS_LIMIT as int,
        ),
        -AXIS_LIMIT <= clamp(h, -AXIS_LIMIT as int, AXIS_LIMIT as int) <= AXIS_LIMIT,
{
}

/// The horizontal axis clamped into `[-AXIS_LIMIT, AXIS_LIMIT]`.
pub fn clamp_horizontal(h: i64) -> (r: i64)
    ensures
        r == clamp(h as int, -AXIS_LIMIT as int, AXIS_LIMIT as int),
        -AXIS_LIMIT <= r <= AXIS_LIMIT,
{
    if h < -AXIS_LIMIT {
        -AXIS_LIMIT
    } else if h > AXIS_LIMIT {
        AXIS_LIMIT
    } else {
        h
    }
}

impl World {
    /// Stores a new input record for the player or updates its own, bumping
    /// the sequence number; returns whether it was accepted.
    fn store_input(&mut self, player_id: u32, horizontal_axis: i64, direction: DbVector2, jump: bool) -> (r: bool)
        requires
            old(self).wf(),
        ensures
            final(self).wf(),
            r == input_accepted(old(self), player_id),
            r && has_input(old(self).inputs@, player_id) ==> final(self).inputs@ == old(self).inputs@.update(
                input_index(old(self).inputs@, player_id),
                PlayerInput {
                    horizontal_axis,
                    direction,
                    jump_pressed: jump,
                    input_sequence: (sequence_of(old(self).inputs@, player_id) + 1) as u32,
                    ..old(self).inputs@[input_index(old(self).inputs@, player_id)]
                },
            ),
            r && !has_input(old(self).inputs@, player_id) ==> final(self).inputs@ == old(self).inputs@.push(
                PlayerInput { player_id, horizontal_axis, direction, jump_pressed: jump, input_sequence: 1 },
            ),
            !r ==> final(self).inputs == old(self).inputs,
            final(self).config == old(self).config,
            final(self).next_entity_id == old(self).next_entity_id,
            final(self).entities == old(self).entities,
            final(self).foods == old(self).foods,
            final(self).circles == old(self).circles,
            final(self).controllers == old(self).controllers,
            final(self).bodies == old(self).bodies,
            final(self).players == old(self).players,
            final(self).phase == old(self).phase,
    {
        if !self.has_player(player_id) {
            return false;
        }
        match self.find_input(player_id) {
            Some(k) => {
                proof {
                    lemma_input_index(self.inputs@, k as int);
                }
                let old_input = self.inputs[k];
                if old_input.input_sequence == u32::MAX {
                    return false;
                }
                self.inputs.set(
                    k,
                    PlayerInput {
                        horizontal_axis,
                        direction,
                        jump_pressed: jump,
                        input_sequence: old_input.input_sequence + 1,
                        ..old_input
                    },
                );
                true
            },
            None => {
                self.inputs.push(
                    PlayerInput { player_id, horizontal_axis, direction, jump_pressed: jump, input_sequence: 1 },
                );
                true
            },
        }
    }

    /// Platformer input: the horizontal axis (thousandths) is clamped into
    /// `[-1000, 1000]`, the jump flag stored, the sequence number bumped.
    /// Input from a player not in the game is dropped.
    pub fn update_player_input(&mut self, player_id: u32, horizontal: i64, jump: bool) -> (r: bool)
        requires
            old(self).wf(),
        ensures
            final(self).wf(),
            r == input_accepted(old(self), player_id),
            r ==> has_input(final(self).inputs@, player_id),
            r ==> {
                let i = final(self).inputs@[input_index(final(self).inputs@, player_id)];
                &&& i.horizontal_axis == clamp(horizontal as int, -AXIS_LIMIT as int, AXIS_LIMIT as int)
                &&& i.jump_pressed == jump
                &&& i.input_sequence == sequence_of(old(self).inputs@, player_id) + 1
            },
            r && has_input(old(self).inputs@, player_id) ==> final(self).inputs@ == old(self).inputs@.update(
                input_index(old(self).inputs@, player_id),
                PlayerInput {
                    horizontal_axis: clamp(horizontal as int, -AXIS_LIMIT as int, AXIS_LIMIT as int) as i64,
                    jump_pressed: jump,
                    input_sequence: (sequence_of(old(self).inputs@, player_id) + 1) as u32,
                    ..old(self).inputs@[input_index(old(self).inputs@, player_id)]
                },
            ),
            r && !has_input(old(self).inputs@, player_id) ==> final(self).inputs@ == old(self).inputs@.push(
                PlayerInput {
                    player_id,
                    horizontal_axis: clamp(horizontal as int, -AXIS_LIMIT as int, AXIS_LIMIT as int) as i64,
                    direction: DbVector2 { x: 0, y: 0 },
                    jump_pressed: jump,
                    input_sequence: 1,
                },
            ),
            !r ==> final(self).inputs == old(self).inputs,
            final(self).config == old(self).config,
            final(self).next_entity_id == old(self).next_entity_id,
            final(self).entities == old(self).entities,
            final(self).foods == old(self).foods,
            final(self).circles == old(self).circles,
            final(self).controllers == old(self).controllers,
            final(self).bodies == old(self).bodies,
            final(self).players == old(self).players,
            final(self).phase == old(self).phase,
    {
        let h = clamp_horizontal(horizontal);
        let direction = match self.find_input(player_id) {
            Some(k) => self.inputs[k].direction,
            None => DbVector2 { x: 0, y: 0 },
        };
        proof {
            if has_input(self.inputs@, player_id) {
                let k = input_index(self.inputs@, player_id);
                lemma_input_index(self.inputs@, k);
            }
        }
        let r = self.store_input(player_id, h, direction, jump);
        proof {
            if r {
                if has_input(old(self).inputs@, player_id) {
                    let k = input_index(old(self).inputs@, player_id);
                    assert(self.inputs@[k].player_id == player_id);
                    lemma_input_index(self.inputs@, k);
                } else {
                    let k = self.inputs@.len() - 1;
                    assert(self.inputs@[k].player_id == player_id);
                    lemma_input_index(self.inputs@, k);
                }
            }
        }
        r
    }

    /// Circle-mode input: the direction is scaled to unit length (rounded
    /// toward zero, so never longer than one unit), stored with the action
    /// flag, the sequence number bumped, and every circle of the player is
    /// steered by it. Input from a player not in the game is dropped.
    pub fn update_player_direction(&mut self, player_id: u32, direction: DbVector2, action: bool) -> (r: bool)
        requires
            old(self).wf(),
        ensures
            final(self).wf(),
            r == input_accepted(old(self), player_id),
            r ==> has_input(final(self).inputs@, player_id),
            r ==> {
                let i = final(self).inputs@[input_index(final(self).inputs@, player_id)];
                &&& (i.direction.x as int, i.direction.y as int) == unit_scaled(direction.x as int, direction.y as int)
                &&& i.direction.sqr_len() <= 1_000_000
                &&& i.jump_pressed == action
                &&& i.input_sequence == sequence_of(old(self).inputs@, player_id) + 1
            },
            !r ==> final(self).inputs == old(self).inputs && final(self).circles == old(self).circles,
            final(self).circles@.len() == old(self).circles@.len(),
            forall|k: int| 0 <= k < old(self).circles@.len() ==> #[trigger] final(self).circles@[k] == if r
                && old(self).circles@[k].player_id == player_id {
                Circle {
                    direction: final(self).inputs@[input_index(final(self).inputs@, player_id)].direction,
                    ..old(self).circles@[k]
                }
            } else {
                old(self).circles@[k]
            },
            final(self).config == old(self).config,
            final(self).next_entity_id == old(self).next_entity_id,
            final(self).entities == old(self).entities,
            final(self).foods == old(self).foods,
            final(self).controllers == old(self).controllers,
            final(self).bodies == old(self).bodies,
            final(self).players == old(self).players,
            final(self).phase == old(self).phase,
    {
        let d = direction.normalized();
        let h = match self.find_input(player_id) {
            Some(k) => self.inputs[k].horizontal_axis,
            None => 0,
        };
        let r = self.store_input(player_id, h, d, action);
        if !r {
            return false;
        }
        proof {
            if has_input(old(self).inputs@, player_id) {
                let k = input_index(old(self).inputs@, player_id);
                assert(self.inputs@[k].player_id == player_id);
                lemma_input_index(self.inputs@, k);
            } else {
                let k = self.inputs@.len() - 1;
                assert(self.inputs@[k].player_id == player_id);
                lemma_input_index(self.inputs@, k);
            }
        }
        let ghost inputs_mid = self.inputs@;
        let mut k: usize = 0;
        while k < self.circles.len()
            invariant
                self.wf(),
                self.inputs@ == inputs_mid,
                self.config == old(self).config,
                self.next_entity_id == old(self).next_entity_id,
                self.entities == old(self).entities,
                self.foods == old(self).foods,
                self.controllers == old(self).controllers,
                self.bodies == old(self).bodies,
                self.players == old(self).players,
                self.phase == old(self).phase,
                k <= self.circles.len(),
                self.circles@.len() == old(self).circles@.len(),
                has_input(self.inputs@, player_id),
                self.inputs@[input_index(self.inputs@, player_id)].direction == d,
                forall|t: int| 0 <= t < old(self).circles@.len() ==> #[trigger] self.circles@[t] == if t < k
                    && old(self).circles@[t].player_id == player_id {
                    Circle { direction: d, ..old(self).circles@[t] }
                } else {
                    old(self).circles@[t]
                },
            decreases self.circles.len() - k,
        {
            let c = self.circles[k];
            if c.player_id == player_id {
                self.circles.set(k, Circle { direction: d, ..c });
            }
            k = k + 1;
        }
        true
    }
}

} // verus!
