//! Preference orders used when choosing where to move and whom to chase,
//! and the ordered lists of destination tiles and chase plans.
use vstd::prelude::*;
use core::cmp::Ordering;
use crate::advance::{advance_key, advance_key_of, MovementAdvanceCandidate, MovementIntentContext};
use crate::keys::{destination_key, destination_key_of, in_range_key, in_range_key_of, plan_key, plan_key_of, range_id_key, range_id_key_of, range_key, range_key_of};
use crate::targets::{distinct_unit_ids, enemy_target_range_tiles, range_of, TargetCandidate};
use crate::order::{flip, lemma_lex_antisymmetric, lemma_lex_transitive, key_lt, lex_compare, lex_order};
use crate::position::{Position, Side};

verus! {

/// Orders destination tiles `a` and `b` next to an enemy at `enemy_pos` for
/// a mover of `owner` at `mover_start` (`Less`: `a` is preferred): by row
/// towards the player's own preferred side, then distance to the enemy,
/// sideways shift from the mover, sideways offset from the enemy, column
/// and row.
pub fn compare_destination_preference(
    owner: Side,
    mover_start: Position,
    enemy_pos: Position,
    a: Position,
    b: Position,
) -> (r: Ordering)
    ensures
        r == lex_order(
            destination_key(owner, mover_start, enemy_pos, a),
            destination_key(owner, mover_start, enemy_pos, b),
        ),
{
    let ka = destination_key_of(owner, mover_start, enemy_pos, a);
    let kb = destination_key_of(owner, mover_start, enemy_pos, b);
    lex_compare(ka.as_slice(), kb.as_slice())
}

/// Orders two chase plans, each an enemy and the best destination next to
/// it, for a mover of `owner` at `mover_start` (`Less`: plan `a` is
/// preferred): by the enemy's row, the enemy's sideways offset, then the
/// destination by row, distance to its enemy, sideways shift from the
/// mover, sideways offset from its enemy, column and row.
pub fn compare_plan_preference(
    owner: Side,
    mover_start: Position,
    enemy_a: Position,
    enemy_b: Position,
    best_dest_a: Position,
    best_dest_b: Position,
) -> (r: Ordering)
    ensures
        r == lex_order(
            plan_key(owner, mover_start, enemy_a, best_dest_a),
            plan_key(owner, mover_start, enemy_b, best_dest_b),
        ),
{
    let ka = plan_key_of(owner, mover_start, enemy_a, best_dest_a);
    let kb = plan_key_of(owner, mover_start, enemy_b, best_dest_b);
    lex_compare(ka.as_slice(), kb.as_slice())
}

/// Swapping the two plans flips their order.
pub proof fn lemma_plan_preference_antisymmetric(
    owner: Side,
    mover_start: Position,
    enemy_a: Position,
    enemy_b: Position,
    best_dest_a: Position,
    best_dest_b: Position,
)
    ensures
        lex_order(
            plan_key(owner, mover_start, enemy_b, best_dest_b),
            plan_key(owner, mover_start, enemy_a, best_dest_a),
        ) == flip(
            lex_order(
                plan_key(owner, mover_start, enemy_a, best_dest_a),
                plan_key(owner, mover_start, enemy_b, best_dest_b),
            ),
        ),
{
    lemma_lex_antisymmetric(
        plan_key(owner, mover_start, enemy_a, best_dest_a),
        plan_key(owner, mover_start, enemy_b, best_dest_b),
    );
}

/// Swapping the two destinations flips their order.
pub proof fn lemma_destination_preference_antisymmetric(
    owner: Side,
    mover_start: Position,
    enemy_pos: Position,
    a: Position,
    b: Position,
)
    ensures
        lex_order(
            destination_key(owner, mover_start, enemy_pos, b),
            destination_key(owner, mover_start, enemy_pos, a),
        ) == flip(
            lex_order(
                destination_key(owner, mover_start, enemy_pos, a),
                destination_key(owner, mover_start, enemy_pos, b),
            ),
        ),
{
    lemma_lex_antisymmetric(
        destination_key(owner, mover_start, enemy_pos, a),
        destination_key(owner, mover_start, enemy_pos, b),
    );
}

/// Orders two enemies by their own attack range, shorter first.
pub fn compare_enemy_target_range_preference(units: &Vec<TargetCandidate>, a: u128, b: u128) -> (r: Ordering)
    requires
        distinct_unit_ids(units@),
    ensures
        r == lex_order(range_key(range_of(units@, a)), range_key(range_of(units@, b))),
{
    let ka = range_key_of(enemy_target_range_tiles(units, a));
    let kb = range_key_of(enemy_target_range_tiles(units, b));
    lex_compare(&ka, &kb)
}

/// Orders two enemies by their own attack range, then identifier.
pub fn compare_enemy_target_preference(units: &Vec<TargetCandidate>, a: u128, b: u128) -> (r: Ordering)
    requires
        distinct_unit_ids(units@),
    ensures
        r == lex_order(range_id_key(range_of(units@, a), a), range_id_key(range_of(units@, b), b)),
{
    let ka = range_id_key_of(enemy_target_range_tiles(units, a), a);
    let kb = range_id_key_of(enemy_target_range_tiles(units, b), b);
    lex_compare(&ka, &kb)
}

/// Orders two enemies already in range of an attacker of `owner` at
/// `attacker_pos`: by their own attack range, then the plan order with each
/// enemy's tile as destination, then identifier.
pub fn compare_in_range_target_preference(
    units: &Vec<TargetCandidate>,
    owner: Side,
    attacker_pos: Position,
    a_id: u128,
    a_pos: Position,
    b_id: u128,
    b_pos: Position,
) -> (r: Ordering)
    requires
        distinct_unit_ids(units@),
    ensures
        r == lex_order(
            in_range_key(owner, attacker_pos, a_id, a_pos, range_of(units@, a_id)),
            in_range_key(owner, attacker_pos, b_id, b_pos, range_of(units@, b_id)),
        ),
{
    let ka = in_range_key_of(owner, attacker_pos, a_id, a_pos, enemy_target_range_tiles(units, a_id));
    let kb = in_range_key_of(owner, attacker_pos, b_id, b_pos, enemy_target_range_tiles(units, b_id));
    lex_compare(&ka, &kb)
}

/// Orders two advance candidates of the mover in `context` (`Less`: `a`
/// is preferred), each enemy's attack range read from `units`: see
/// `advance_key` for the criteria in order.
pub fn compare_advance_candidate(
    context: MovementIntentContext,
    units: &Vec<TargetCandidate>,
    a: &MovementAdvanceCandidate,
    b: &MovementAdvanceCandidate,
) -> (r: Ordering)
    requires
        distinct_unit_ids(units@),
    ensures
        r == lex_order(
            advance_key(context, *a, range_of(units@, a.enemy_id)),
            advance_key(context, *b, range_of(units@, b.enemy_id)),
        ),
{
    let ra = enemy_target_range_tiles(units, a.enemy_id);
    let rb = enemy_target_range_tiles(units, b.enemy_id);
    let ka = advance_key_of(context, a, ra);
    let kb = advance_key_of(context, b, rb);
    lex_compare(ka.as_slice(), kb.as_slice())
}

/// Among advance candidates alike in the three locked-target preferences (a
/// near engage on the locked target, a straight approach down the mover's
/// column to it, the locked target at all), the one whose enemy is strictly
/// nearer the mover's tile (Chebyshev distance) comes first, whatever the
/// enemies' attack ranges.
pub proof fn lemma_nearer_enemy_advance_first(
    context: MovementIntentContext,
    a: MovementAdvanceCandidate,
    ra: u8,
    b: MovementAdvanceCandidate,
    rb: u8,
)
    requires
        (context.current_target == Some(a.enemy_id) && a.path@.len() <= 2) == (context.current_target == Some(b.enemy_id)
            && b.path@.len() <= 2),
        (context.current_target == Some(a.enemy_id) && a.first_step.x == context.start_pos.x && a.destination.x
            == context.start_pos.x) == (context.current_target == Some(b.enemy_id) && b.first_step.x == context.start_pos.x
            && b.destination.x == context.start_pos.x),
        (context.current_target == Some(a.enemy_id)) == (context.current_target == Some(b.enemy_id)),
        crate::position::chebyshev_spec(context.start_pos, a.enemy_pos) < crate::position::chebyshev_spec(
            context.start_pos,
            b.enemy_pos,
        ),
    ensures
        key_lt(advance_key(context, a, ra), advance_key(context, b, rb)),
{
    let ka = advance_key(context, a, ra);
    let kb = advance_key(context, b, rb);
    assert(ka[0] == kb[0]);
    assert(ka[1] == kb[1]);
    assert(ka[2] == kb[2]);
    assert(ka[3] < kb[3]);
    crate::order::lemma_key_lt_at(ka, kb, 3);
}

/// The mover's near engage on its locked target with candidate `c`: the
/// locked target is `c`'s enemy and `c` reaches attack range in at most one
/// step.
pub open spec fn near_engage_on_lock(context: MovementIntentContext, c: MovementAdvanceCandidate) -> bool {
    context.current_target == Some(c.enemy_id) && c.path@.len() <= 2
}

/// Candidate `c` approaches the locked target straight down the mover's
/// column (first step and destination in the mover's column).
pub open spec fn straight_on_lock(context: MovementIntentContext, c: MovementAdvanceCandidate) -> bool {
    context.current_target == Some(c.enemy_id) && c.first_step.x == context.start_pos.x && c.destination.x
        == context.start_pos.x
}

/// The order of advance candidates puts first, in turn: a near engage on
/// the locked target; a straight approach to it; the locked target at all;
/// then, all these alike, the nearer enemy, the enemy with the shorter
/// attack range, the shorter path, a first step no one else reserved, and a
/// second step no friend blocks.
pub proof fn lemma_advance_preferences(
    context: MovementIntentContext,
    a: MovementAdvanceCandidate,
    ra: u8,
    b: MovementAdvanceCandidate,
    rb: u8,
)
    ensures
        near_engage_on_lock(context, a) && !near_engage_on_lock(context, b) ==> key_lt(
            advance_key(context, a, ra),
            advance_key(context, b, rb),
        ),
        near_engage_on_lock(context, a) == near_engage_on_lock(context, b) && straight_on_lock(context, a) && !straight_on_lock(
            context,
            b,
        ) ==> key_lt(advance_key(context, a, ra), advance_key(context, b, rb)),
        near_engage_on_lock(context, a) == near_engage_on_lock(context, b) && straight_on_lock(context, a) == straight_on_lock(
            context,
            b,
        ) && context.current_target == Some(a.enemy_id) && context.current_target != Some(b.enemy_id) ==> key_lt(
            advance_key(context, a, ra),
            advance_key(context, b, rb),
        ),
        ({
            let alike = near_engage_on_lock(context, a) == near_engage_on_lock(context, b) && straight_on_lock(context, a)
                == straight_on_lock(context, b) && (context.current_target == Some(a.enemy_id)) == (context.current_target
                == Some(b.enemy_id)) && crate::position::chebyshev_spec(context.start_pos, a.enemy_pos)
                == crate::position::chebyshev_spec(context.start_pos, b.enemy_pos);
            &&& alike && ra < rb ==> key_lt(advance_key(context, a, ra), advance_key(context, b, rb))
            &&& alike && ra == rb && a.path@.len() < b.path@.len() ==> key_lt(
                advance_key(context, a, ra),
                advance_key(context, b, rb),
            )
            &&& alike && ra == rb && a.path@.len() == b.path@.len() && !a.first_step_reserved_by_other
                && b.first_step_reserved_by_other ==> key_lt(advance_key(context, a, ra), advance_key(context, b, rb))
            &&& alike && ra == rb && a.path@.len() == b.path@.len() && a.first_step_reserved_by_other
                == b.first_step_reserved_by_other && !a.second_step_blocked_by_friendly && b.second_step_blocked_by_friendly
                ==> key_lt(advance_key(context, a, ra), advance_key(context, b, rb))
        }),
{
    let ka = advance_key(context, a, ra);
    let kb = advance_key(context, b, rb);
    if near_engage_on_lock(context, a) && !near_engage_on_lock(context, b) {
        crate::order::lemma_key_lt_at(ka, kb, 0);
    }
    if near_engage_on_lock(context, a) == near_engage_on_lock(context, b) {
        if straight_on_lock(context, a) && !straight_on_lock(context, b) {
            crate::order::lemma_key_lt_at(ka, kb, 1);
        }
        if straight_on_lock(context, a) == straight_on_lock(context, b) {
            if context.current_target == Some(a.enemy_id) && context.current_target != Some(b.enemy_id) {
                crate::order::lemma_key_lt_at(ka, kb, 2);
            }
            if (context.current_target == Some(a.enemy_id)) == (context.current_target == Some(b.enemy_id))
                && crate::position::chebyshev_spec(context.start_pos, a.enemy_pos) == crate::position::chebyshev_spec(
                context.start_pos,
                b.enemy_pos,
            ) {
                if ra < rb {
                    crate::order::lemma_key_lt_at(ka, kb, 4);
                }
                if ra == rb {
                    if a.path@.len() < b.path@.len() {
                        vstd::std_specs::vec::axiom_spec_len(&a.path);
                        vstd::std_specs::vec::axiom_spec_len(&b.path);
                        assert(ka[5] == a.path@.len() as i128);
                        assert(kb[5] == b.path@.len() as i128);
                        crate::order::lemma_key_lt_at(ka, kb, 5);
                    }
                    if a.path@.len() == b.path@.len() {
                        if !a.first_step_reserved_by_other && b.first_step_reserved_by_other {
                            crate::order::lemma_key_lt_at(ka, kb, 6);
                        }
                        if a.first_step_reserved_by_other == b.first_step_reserved_by_other && !a.second_step_blocked_by_friendly
                            && b.second_step_blocked_by_friendly {
                            crate::order::lemma_key_lt_at(ka, kb, 7);
                        }
                    }
                }
            }
        }
    }
}

/// The advance order is a strict order: swapping two candidates flips
/// their order, and it is transitive.
pub proof fn lemma_advance_order_is_strict(
    context: MovementIntentContext,
    a: MovementAdvanceCandidate,
    ra: u8,
    b: MovementAdvanceCandidate,
    rb: u8,
    c: MovementAdvanceCandidate,
    rc: u8,
)
    ensures
        lex_order(advance_key(context, b, rb), advance_key(context, a, ra)) == flip(
            lex_order(advance_key(context, a, ra), advance_key(context, b, rb)),
        ),
        key_lt(advance_key(context, a, ra), advance_key(context, b, rb)) && key_lt(
            advance_key(context, b, rb),
            advance_key(context, c, rc),
        ) ==> key_lt(advance_key(context, a, ra), advance_key(context, c, rc)),
{
    lemma_lex_antisymmetric(advance_key(context, a, ra), advance_key(context, b, rb));
    if key_lt(advance_key(context, a, ra), advance_key(context, b, rb)) && key_lt(
        advance_key(context, b, rb),
        advance_key(context, c, rc),
    ) {
        lemma_lex_transitive(advance_key(context, a, ra), advance_key(context, b, rb), advance_key(context, c, rc));
    }
}

} // verus!
