//! Engaging without a path: an attacker whose basic attack is judged by
//! continuous distance engages a target a tile or so away by walking
//! straight at it.
use vstd::prelude::*;
use crate::advance::MovementIntentContext;
use crate::attacks::pending_target_spec;
use crate::position::{Position, chebyshev_spec};
use crate::targets::{
    BasicAttackRangePolicy, TargetCandidate, choose_enemy_target_in_tile_range, distinct_unit_ids, find_unit,
    in_tile_range, lemma_selects_unique, lemma_tile_of, persisted_target_in_range, tile_of, tile_range_key,
};

verus! {

/// The target that a continuous-melee attacker engages directly, with its
/// tile: the target it keeps or else the one its attack prefers, taken only
/// when placed off the attacker's tile and within its range.
pub open spec fn direct_engage_spec(
    units: Seq<TargetCandidate>,
    context: MovementIntentContext,
    policy: BasicAttackRangePolicy,
) -> Option<(u128, Position)> {
    if !policy.use_continuous_range {
        None
    } else {
        match pending_target_spec(units, context.current_target, context.owner, context.start_pos, policy.range_tiles) {
            None => None,
            Some(t) => match tile_of(units, t) {
                None => None,
                Some(tp) => if tp == context.start_pos || chebyshev_spec(context.start_pos, tp) > policy.range_tiles {
                    None
                } else {
                    Some((t, tp))
                },
            },
        }
    }
}

/// The target (and its tile) that the unit of `context` engages at once,
/// without a path, under its range `policy`: only an attacker judged by
/// continuous distance does so.
pub fn direct_continuous_melee_engage_target(
    units: &Vec<TargetCandidate>,
    context: MovementIntentContext,
    policy: BasicAttackRangePolicy,
) -> (r: Option<(u128, Position)>)
    requires
        distinct_unit_ids(units@),
    ensures
        r == direct_engage_spec(units@, context, policy),
{
    if !policy.use_continuous_range {
        return None;
    }
    let owner = context.owner;
    let pos = context.start_pos;
    let range_tiles = policy.range_tiles;
    let kept = persisted_target_in_range(units, owner, context.current_target, pos, range_tiles);
    let target = match kept {
        Some(id) => Some(id),
        None => {
            let best = choose_enemy_target_in_tile_range(owner, pos, range_tiles, units);
            proof {
                lemma_selects_unique(
                    units@,
                    |u: TargetCandidate| in_tile_range(owner, pos, range_tiles, u),
                    |u: TargetCandidate| tile_range_key(owner, pos, u),
                    best,
                );
            }
            best
        },
    };
    let t = match target {
        Some(t) => t,
        None => return None,
    };
    let target_pos = match find_unit(units, t) {
        Some(i) => {
            proof {
                lemma_tile_of(units@, i as int);
            }
            match units[i].tile {
                Some(tp) => tp,
                None => return None,
            }
        },
        None => return None,
    };
    if pos == target_pos || pos.chebyshev(&target_pos) > range_tiles as i64 {
        return None;
    }
    Some((t, target_pos))
}

/// Whether the step from `start_pos` to `step` is a direct approach of an
/// attacker judged by continuous distance on `enemy_id`: the step leaves
/// the start tile, lies within range, and the enemy stands on it
/// (`occupant` is who stands there).
pub fn is_direct_continuous_melee_engage_approach(
    policy: BasicAttackRangePolicy,
    enemy_id: u128,
    start_pos: Position,
    step: Position,
    occupant: Option<u128>,
) -> (r: bool)
    ensures
        r == (policy.use_continuous_range && step != start_pos && chebyshev_spec(start_pos, step) <= policy.range_tiles
            && occupant == Some(enemy_id)),
{
    if !policy.use_continuous_range {
        return false;
    }
    step != start_pos && start_pos.chebyshev(&step) <= policy.range_tiles as i64 && occupant == Some(enemy_id)
}

} // verus!
