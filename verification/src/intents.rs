//! One orchestrator pass: the units that may move are considered in
//! priority order and each gets a movement decision, while first steps and
//! follow-up steps claimed by earlier units are kept track of.
use vstd::prelude::*;
use crate::advance::{
    intent_state_of, intent_state_spec, choice_spec, choose_available_advance_candidate, first_fully_free, first_with_free_step, follow_up_claimed,
    follow_up_spec, follow_up_step, fully_free, first_step_free, hold_spec, priority_spec, should_hold_position,
    MovementAdvanceCandidate, MovementIntentContext,
};
use crate::arith::ix;
use crate::board::{insert_keyed, keys_sorted};
use crate::keys::{id_key, id_key_of, lemma_id_key_injective};
use crate::order::key_lt;
use crate::arith::signum_int;
use crate::movement::{
    boundary_target_units, tile_center_axis, ActionState, MovementSegmentEndKind, MovementState, PlannedContinuation,
    BLOCKED_RETRY_DELAY_MS, HALF_TILE_UNITS, HOLD_RETRY_DELAY_MS, REPATH_BASE_DELAY_MS, YIELD_RETRY_DELAY_MS,
};
use crate::types::RuntimeUnit;
use crate::position::{Position, Side};
use crate::targets::{distinct_unit_ids, TargetCandidate};
use crate::motion::{advanced_unit, motion_fits};
use crate::waits::{next_wait_repath_until_ms, sat_add_u64, with_wait_state};

verus! {

/// What the orchestrator decided for one unit.
#[derive(Debug, Clone, PartialEq, Eq)]
pub enum MovementDecision {
    /// Attack this target from where the unit stands.
    Engage { unit_id: u128, target_id: u128 },
    /// Walk `path` towards `destination` next to the enemy.
    Advance {
        unit_id: u128,
        enemy_id: u128,
        destination: Position,
        path: Vec<Position>,
        planned_continuation: Option<PlannedContinuation>,
        orchestrator_priority: u8,
        repath_counter: u32,
    },
    /// No way to the enemies: wait, then look for a path again.
    WaitRepath { unit_id: u128, until_ms: u64, repath_counter: u32 },
    /// Every first step is taken by units decided earlier: try again soon.
    Yield { unit_id: u128, retry_at_ms: u64, repath_counter: u32 },
    /// Only blocked paths lead to the enemies: try again later.
    Blocked { unit_id: u128, retry_at_ms: u64, repath_counter: u32 },
    /// Stay put to keep a near approach to the locked target open.
    Hold { unit_id: u128, retry_at_ms: u64, repath_counter: u32 },
}

/// What the orchestrator worked out for one unit before deciding.
#[derive(Debug, Clone)]
pub struct IntentInputs {
    /// An enemy the unit can attack without moving.
    pub engage_target: Option<u128>,
    /// An enemy (and its tile) that a continuous-range melee unit walks
    /// straight into.
    pub direct_engage: Option<(u128, Position)>,
    /// The ranked ways to advance.
    pub candidates: Vec<MovementAdvanceCandidate>,
    /// Some path, ignoring blockers, leads into attack range of an enemy.
    pub has_loose_attack_path: bool,
    /// When to repath if the unit has to wait.
    pub wait_repath_until_ms: u64,
}

/// The candidate a unit takes: the first one fully free, else the first
/// with a free first step.
pub open spec fn pick(
    owner: Side,
    claimed: Seq<Position>,
    claims: Seq<(Side, Position, u8)>,
    cands: Seq<MovementAdvanceCandidate>,
) -> Option<int> {
    if exists|i: int| 0 <= i < cands.len() && fully_free(owner, claimed, claims, #[trigger] cands[i]) {
        Some(choose|k: int| first_fully_free(owner, claimed, claims, cands, k))
    } else if exists|i: int| 0 <= i < cands.len() && first_step_free(claimed, #[trigger] cands[i]) {
        Some(choose|k: int| first_with_free_step(claimed, cands, k))
    } else {
        None
    }
}

proof fn lemma_pick(
    owner: Side,
    claimed: Seq<Position>,
    claims: Seq<(Side, Position, u8)>,
    cands: Seq<MovementAdvanceCandidate>,
    r: Option<usize>,
)
    requires
        choice_spec(owner, claimed, claims, cands, r),
    ensures
        pick(owner, claimed, claims, cands) == (match r {
            Some(k) => Some(k as int),
            None => None::<int>,
        }),
{
    if exists|i: int| 0 <= i < cands.len() && fully_free(owner, claimed, claims, #[trigger] cands[i]) {
        let k = r->0 as int;
        assert(first_fully_free(owner, claimed, claims, cands, k));
        let c = choose|c: int| first_fully_free(owner, claimed, claims, cands, c);
        if c < k {
            assert(!fully_free(owner, claimed, claims, cands[c]));
        } else if k < c {
            assert(!fully_free(owner, claimed, claims, cands[k]));
        }
    } else {
        match r {
            Some(k) => {
                assert(first_step_free(claimed, cands[k as int]));
                let c = choose|c: int| first_with_free_step(claimed, cands, c);
                if (c as int) < (k as int) {
                    assert(!first_step_free(claimed, cands[c]));
                } else if (k as int) < c {
                    assert(!first_step_free(claimed, cands[k as int]));
                }
            },
            None => {},
        }
    }
}

/// The first claim on `step` by `owner`, with its priority.
pub open spec fn first_claim(claims: Seq<(Side, Position, u8)>, owner: Side, step: Position, k: int) -> bool {
    &&& 0 <= k < claims.len()
    &&& claims[k].0 == owner
    &&& claims[k].1 == step
    &&& forall|j: int| 0 <= j < k ==> !((#[trigger] claims[j]).0 == owner && claims[j].1 == step)
}

/// The priority with which a unit of `owner` first claimed `step`, if any.
pub open spec fn claim_priority(claims: Seq<(Side, Position, u8)>, owner: Side, step: Position) -> Option<u8> {
    if follow_up_claimed(claims, owner, step) {
        Some(claims[choose|k: int| first_claim(claims, owner, step, k)].2)
    } else {
        None
    }
}

fn claim_priority_of(claims: &Vec<(Side, Position, u8)>, owner: Side, step: Position) -> (r: Option<u8>)
    ensures
        r == claim_priority(claims@, owner, step),
{
    let mut i: usize = 0;
    while i < claims.len()
        invariant
            0 <= i <= claims@.len(),
            forall|j: int| 0 <= j < i ==> !((#[trigger] claims@[j]).0 == owner && claims@[j].1 == step),
        decreases claims@.len() - i,
    {
        let (s, p, prio) = claims[i];
        if s == owner && p == step {
            proof {
                assert(first_claim(claims@, owner, step, ix(i)));
                let c = choose|c: int| first_claim(claims@, owner, step, c);
                if c < ix(i) {
                    assert(!(claims@[c].0 == owner && claims@[c].1 == step));
                } else if ix(i) < c {
                    assert(!(claims@[ix(i)].0 == owner && claims@[ix(i)].1 == step));
                }
            }
            return Some(prio);
        }
        i = i + 1;
    }
    None
}

/// The continuation planned after taking candidate `c`: its follow-up step,
/// with the unit's priority and the priority of an earlier claim on it.
pub open spec fn continuation_spec(
    context: MovementIntentContext,
    claims: Seq<(Side, Position, u8)>,
    c: MovementAdvanceCandidate,
) -> Option<PlannedContinuation> {
    match follow_up_spec(c) {
        Some(f) => Some(
            PlannedContinuation {
                step: f,
                owner_priority: priority_spec(context.state_kind),
                claim_priority: claim_priority(claims, context.owner, f),
                retry_budget: 1,
            },
        ),
        None => None,
    }
}

/// The claims after one unit's decision: a taken candidate claims its first
/// step, and its follow-up step unless an ally claimed it already.
pub open spec fn step_claims(
    context: MovementIntentContext,
    input: IntentInputs,
    units: Seq<TargetCandidate>,
    claimed: Seq<Position>,
    claims: Seq<(Side, Position, u8)>,
) -> (Seq<Position>, Seq<(Side, Position, u8)>) {
    if input.engage_target is Some || input.direct_engage is Some {
        (claimed, claims)
    } else {
        match pick(context.owner, claimed, claims, input.candidates@) {
            Some(k) => {
                let c = input.candidates@[k];
                if hold_spec(context, units, input.candidates@, claimed, c) {
                    (claimed, claims)
                } else {
                    let claims2 = match follow_up_spec(c) {
                        Some(f) => if follow_up_claimed(claims, context.owner, f) {
                            claims
                        } else {
                            claims.push((context.owner, f, priority_spec(context.state_kind)))
                        },
                        None => claims,
                    };
                    (claimed.push(c.first_step), claims2)
                }
            },
            None => (claimed, claims),
        }
    }
}

/// The claims in force when the unit at index `i` is decided.
pub open spec fn claims_before(
    contexts: Seq<MovementIntentContext>,
    inputs: Seq<IntentInputs>,
    units: Seq<TargetCandidate>,
    i: int,
) -> (Seq<Position>, Seq<(Side, Position, u8)>)
    decreases i,
{
    if i <= 0 {
        (seq![], seq![])
    } else {
        let prev = claims_before(contexts, inputs, units, i - 1);
        step_claims(contexts[i - 1], inputs[i - 1], units, prev.0, prev.1)
    }
}

/// `d` is the decision for the unit in `context`, given the claims of the
/// units decided before it.
pub open spec fn decision_spec(
    context: MovementIntentContext,
    input: IntentInputs,
    units: Seq<TargetCandidate>,
    claimed: Seq<Position>,
    claims: Seq<(Side, Position, u8)>,
    now_ms: u64,
    d: MovementDecision,
) -> bool {
    let unit = context.unit_id;
    let counter = context.repath_counter;
    let prio = priority_spec(context.state_kind);
    if input.engage_target is Some {
        d == MovementDecision::Engage { unit_id: unit, target_id: input.engage_target->0 }
    } else if input.direct_engage is Some {
        let (target, pos) = input.direct_engage->0;
        &&& d matches MovementDecision::Advance { unit_id, enemy_id, destination, path, planned_continuation, orchestrator_priority, repath_counter }
            && unit_id == unit && enemy_id == target && destination == pos && path@ == seq![context.start_pos, pos]
            && planned_continuation is None && orchestrator_priority == prio && repath_counter == counter
    } else {
        match pick(context.owner, claimed, claims, input.candidates@) {
            Some(k) => {
                let c = input.candidates@[k];
                if hold_spec(context, units, input.candidates@, claimed, c) {
                    d == MovementDecision::Hold { unit_id: unit, retry_at_ms: sat_add_u64(now_ms, HOLD_RETRY_DELAY_MS), repath_counter: counter }
                } else {
                    &&& d matches MovementDecision::Advance { unit_id, enemy_id, destination, path, planned_continuation, orchestrator_priority, repath_counter }
                        && unit_id == unit && enemy_id == c.enemy_id && destination == c.destination && path@ == c.path@
                        && planned_continuation == continuation_spec(context, claims, c) && orchestrator_priority == prio
                        && repath_counter == counter
                }
            },
            None => if input.candidates@.len() > 0 {
                d == MovementDecision::Yield { unit_id: unit, retry_at_ms: sat_add_u64(now_ms, YIELD_RETRY_DELAY_MS), repath_counter: counter }
            } else if input.has_loose_attack_path {
                d == MovementDecision::Blocked { unit_id: unit, retry_at_ms: sat_add_u64(now_ms, BLOCKED_RETRY_DELAY_MS), repath_counter: counter }
            } else {
                d == MovementDecision::WaitRepath {
                    unit_id: unit,
                    until_ms: input.wait_repath_until_ms,
                    repath_counter: (if counter == u32::MAX { 0 } else { counter + 1 }) as u32,
                }
            },
        }
    }
}

/// Decides, in order, what each unit in `contexts` does this tick, given
/// what was worked out for it in `inputs`; each decision sees the steps
/// claimed by the units decided before it.
pub fn resolve_movement_intent_decisions(
    now_ms: u64,
    contexts: &Vec<MovementIntentContext>,
    inputs: &Vec<IntentInputs>,
    units: &Vec<TargetCandidate>,
) -> (decisions: Vec<MovementDecision>)
    requires
        contexts@.len() == inputs@.len(),
        distinct_unit_ids(units@),
    ensures
        decisions@.len() == contexts@.len(),
        forall|k: int|
            0 <= k < contexts@.len() ==> decision_spec(
                contexts@[k],
                inputs@[k],
                units@,
                claims_before(contexts@, inputs@, units@, k).0,
                claims_before(contexts@, inputs@, units@, k).1,
                now_ms,
                #[trigger] decisions@[k],
            ),
{
    let mut claimed_first_steps: Vec<Position> = Vec::new();
    let mut claimed_follow_up_steps: Vec<(Side, Position, u8)> = Vec::new();
    let mut decisions: Vec<MovementDecision> = Vec::new();
    let mut i: usize = 0;
    while i < contexts.len()
        invariant
            0 <= i <= contexts@.len(),
            contexts@.len() == inputs@.len(),
            distinct_unit_ids(units@),
            decisions@.len() == i,
            claimed_first_steps@ == claims_before(contexts@, inputs@, units@, i as int).0,
            claimed_follow_up_steps@ == claims_before(contexts@, inputs@, units@, i as int).1,
            forall|k: int|
                0 <= k < i ==> decision_spec(
                    contexts@[k],
                    inputs@[k],
                    units@,
                    claims_before(contexts@, inputs@, units@, k).0,
                    claims_before(contexts@, inputs@, units@, k).1,
                    now_ms,
                    #[trigger] decisions@[k],
                ),
        decreases contexts@.len() - i,
    {
        let context = contexts[i];
        let input = &inputs[i];
        let ghost claimed0 = claimed_first_steps@;
        let ghost claims0 = claimed_follow_up_steps@;
        let counter = context.repath_counter;
        let prio = context.state_kind.priority();
        let decision: MovementDecision;
        match input.engage_target {
            Some(target_id) => {
                decision = MovementDecision::Engage { unit_id: context.unit_id, target_id };
            },
            None => match input.direct_engage {
                Some((target_id, target_pos)) => {
                    decision = MovementDecision::Advance {
                        unit_id: context.unit_id,
                        enemy_id: target_id,
                        destination: target_pos,
                        path: vec![context.start_pos, target_pos],
                        planned_continuation: None,
                        orchestrator_priority: prio,
                        repath_counter: counter,
                    };
                },
                None => {
                    let chosen = choose_available_advance_candidate(
                        context.owner,
                        &input.candidates,
                        &claimed_first_steps,
                        &claimed_follow_up_steps,
                    );
                    proof {
                        lemma_pick(context.owner, claimed0, claims0, input.candidates@, chosen);
                    }
                    match chosen {
                        Some(k) => {
                            let candidate = &input.candidates[k];
                            if should_hold_position(context, units, &input.candidates, &claimed_first_steps, candidate) {
                                decision = MovementDecision::Hold {
                                    unit_id: context.unit_id,
                                    retry_at_ms: now_ms.saturating_add(HOLD_RETRY_DELAY_MS),
                                    repath_counter: counter,
                                };
                            } else {
                                claimed_first_steps.push(candidate.first_step);
                                let planned_continuation = match follow_up_step(candidate) {
                                    Some(step) => Some(PlannedContinuation {
                                        step,
                                        owner_priority: prio,
                                        claim_priority: claim_priority_of(&claimed_follow_up_steps, context.owner, step),
                                        retry_budget: 1,
                                    }),
                                    None => None,
                                };
                                match follow_up_step(candidate) {
                                    Some(step) => {
                                        if !crate::advance::contains_follow_up_claim(&claimed_follow_up_steps, context.owner, step) {
                                            claimed_follow_up_steps.push((context.owner, step, prio));
                                        }
                                    },
                                    None => {},
                                }
                                decision = MovementDecision::Advance {
                                    unit_id: context.unit_id,
                                    enemy_id: candidate.enemy_id,
                                    destination: candidate.destination,
                                    path: candidate.path.clone(),
                                    planned_continuation,
                                    orchestrator_priority: prio,
                                    repath_counter: counter,
                                };
                            }
                        },
                        None => {
                            if input.candidates.len() > 0 {
                                decision = MovementDecision::Yield {
                                    unit_id: context.unit_id,
                                    retry_at_ms: now_ms.saturating_add(YIELD_RETRY_DELAY_MS),
                                    repath_counter: counter,
                                };
                            } else if input.has_loose_attack_path {
                                decision = MovementDecision::Blocked {
                                    unit_id: context.unit_id,
                                    retry_at_ms: now_ms.saturating_add(BLOCKED_RETRY_DELAY_MS),
                                    repath_counter: counter,
                                };
                            } else {
                                decision = MovementDecision::WaitRepath {
                                    unit_id: context.unit_id,
                                    until_ms: input.wait_repath_until_ms,
                                    repath_counter: if counter == u32::MAX { 0 } else { counter + 1 },
                                };
                            }
                        },
                    }
                },
            },
        }
        proof {
            assert(decision_spec(context, inputs@[ix(i)], units@, claimed0, claims0, now_ms, decision));
        }
        decisions.push(decision);
        proof {
            assert(claims_before(contexts@, inputs@, units@, i + 1) == step_claims(context, inputs@[ix(i)], units@, claimed0, claims0));
            assert forall|k: int|
                0 <= k < i + 1 implies decision_spec(
                    contexts@[k],
                    inputs@[k],
                    units@,
                    claims_before(contexts@, inputs@, units@, k).0,
                    claims_before(contexts@, inputs@, units@, k).1,
                    now_ms,
                    #[trigger] decisions@[k],
                ) by {
                if k == i {
                    assert(decisions@[k] == decision);
                }
            }
        }
        i = i + 1;
    }
    decisions
}

proof fn lemma_first_fully_free_exists(
    owner: Side,
    claimed: Seq<Position>,
    claims: Seq<(Side, Position, u8)>,
    cands: Seq<MovementAdvanceCandidate>,
    i: int,
)
    requires
        0 <= i < cands.len(),
        fully_free(owner, claimed, claims, cands[i]),
    ensures
        exists|k: int| first_fully_free(owner, claimed, claims, cands, k),
    decreases i,
{
    if forall|j: int| 0 <= j < i ==> !fully_free(owner, claimed, claims, #[trigger] cands[j]) {
        assert(first_fully_free(owner, claimed, claims, cands, i));
    } else {
        let j = choose|j: int| 0 <= j < i && fully_free(owner, claimed, claims, #[trigger] cands[j]);
        lemma_first_fully_free_exists(owner, claimed, claims, cands, j);
    }
}

proof fn lemma_first_free_step_exists(claimed: Seq<Position>, cands: Seq<MovementAdvanceCandidate>, i: int)
    requires
        0 <= i < cands.len(),
        first_step_free(claimed, cands[i]),
    ensures
        exists|k: int| first_with_free_step(claimed, cands, k),
    decreases i,
{
    if forall|j: int| 0 <= j < i ==> !first_step_free(claimed, #[trigger] cands[j]) {
        assert(first_with_free_step(claimed, cands, i));
    } else {
        let j = choose|j: int| 0 <= j < i && first_step_free(claimed, #[trigger] cands[j]);
        lemma_first_free_step_exists(claimed, cands, j);
    }
}

/// A picked candidate is one of the candidates and its first step is free.
pub proof fn lemma_pick_takes_a_free_first_step(
    owner: Side,
    claimed: Seq<Position>,
    claims: Seq<(Side, Position, u8)>,
    cands: Seq<MovementAdvanceCandidate>,
)
    ensures
        pick(owner, claimed, claims, cands) matches Some(k) ==> 0 <= k < cands.len() && first_step_free(claimed, cands[k]),
{
    if exists|i: int| 0 <= i < cands.len() && fully_free(owner, claimed, claims, #[trigger] cands[i]) {
        let i = choose|i: int| 0 <= i < cands.len() && fully_free(owner, claimed, claims, #[trigger] cands[i]);
        lemma_first_fully_free_exists(owner, claimed, claims, cands, i);
    } else if exists|i: int| 0 <= i < cands.len() && first_step_free(claimed, #[trigger] cands[i]) {
        let i = choose|i: int| 0 <= i < cands.len() && first_step_free(claimed, #[trigger] cands[i]);
        lemma_first_free_step_exists(claimed, cands, i);
    }
}

/// In one orchestrator pass no two units take the same first step: the
/// first steps claimed so far never repeat, and a unit that advances along
/// a ranked candidate takes a first step nobody claimed before it.
pub proof fn lemma_first_steps_never_shared(
    contexts: Seq<MovementIntentContext>,
    inputs: Seq<IntentInputs>,
    units: Seq<TargetCandidate>,
    n: int,
)
    requires
        0 <= n <= contexts.len(),
        contexts.len() == inputs.len(),
    ensures
        claims_before(contexts, inputs, units, n).0.no_duplicates(),
    decreases n,
{
    if n > 0 {
        lemma_first_steps_never_shared(contexts, inputs, units, n - 1);
        let prev = claims_before(contexts, inputs, units, n - 1);
        let ctx = contexts[n - 1];
        let input = inputs[n - 1];
        lemma_pick_takes_a_free_first_step(ctx.owner, prev.0, prev.1, input.candidates@);
        let next = claims_before(contexts, inputs, units, n);
        if next.0 != prev.0 {
            let k = pick(ctx.owner, prev.0, prev.1, input.candidates@)->0;
            let step = input.candidates@[k].first_step;
            assert(next.0 == prev.0.push(step));
            assert forall|a: int, b: int| 0 <= a < b < next.0.len() implies next.0[a] != next.0[b] by {
                if b == prev.0.len() {
                    assert(!crate::advance::step_claimed(prev.0, step));
                    if next.0[a] == next.0[b] {
                        assert(prev.0[a] == step);
                    }
                } else {
                    assert(next.0[a] == prev.0[a] && next.0[b] == prev.0[b]);
                }
            }
        }
    }
}

/// `u1` is `u0` walking `path` (from `start_pos`, at `now_ms`) towards
/// `destination` next to `enemy_id`: the enemy is the target, a new
/// movement epoch started, and the first step runs from the centre of the
/// start tile to its border towards the next tile of the path; nothing
/// else of the unit changed but its movement state.
pub open spec fn advance_started(
    u0: RuntimeUnit,
    u1: RuntimeUnit,
    start_pos: Position,
    now_ms: u64,
    enemy_id: u128,
    destination: Position,
    path: Seq<Position>,
    planned_continuation: Option<PlannedContinuation>,
    orchestrator_priority: u8,
    repath_counter: u32,
) -> bool {
    &&& u1.current_target == Some(enemy_id)
    &&& u1.move_epoch == (if u0.move_epoch == u32::MAX { 0 } else { u0.move_epoch + 1 })
    &&& u1.action_state matches ActionState::Moving(m) && {
        &&& m.path@ == path
        &&& m.reserved_destination == Some(destination)
        &&& m.planned_continuation == planned_continuation
        &&& m.path_cursor == 0
        &&& m.repath_counter == repath_counter
        &&& m.orchestrator_priority == orchestrator_priority
        &&& m.last_update_ms == now_ms
        &&& m.step_from == start_pos
        &&& m.step_to == path[1]
        &&& m.step_start_x_units == tile_center_axis(start_pos.x as int)
        &&& m.step_start_y_units == tile_center_axis(start_pos.y as int)
        &&& m.target_x_units == tile_center_axis(start_pos.x as int) + signum_int(path[1].x - start_pos.x) * HALF_TILE_UNITS
        &&& m.target_y_units == tile_center_axis(start_pos.y as int) + signum_int(path[1].y - start_pos.y) * HALF_TILE_UNITS
        &&& m.step_started_at_ms == now_ms
        &&& m.step_ends_at_ms == now_ms
        &&& m.step_end_kind == MovementSegmentEndKind::Boundary
    }
    &&& u1 == RuntimeUnit { current_target: u1.current_target, move_epoch: u1.move_epoch, action_state: u1.action_state, ..u0 }
}

impl RuntimeUnit {
    /// Engages `target_id` from where the unit stands.
    pub fn engage(&mut self, target_id: u128)
        ensures
            *final(self) == (RuntimeUnit { current_target: Some(target_id), action_state: ActionState::Idle, ..*old(self) }),
    {
        self.current_target = Some(target_id);
        self.action_state = ActionState::Idle;
    }

    /// Starts walking `path` (from `start_pos`) towards `destination` next to
    /// `enemy_id`: the enemy becomes the target, a new movement epoch starts,
    /// and the first step runs from the centre of the start tile to its
    /// border towards the next tile of the path. A path without a next tile
    /// starts nothing and returns `false`.
    pub fn begin_advance(
        &mut self,
        start_pos: Position,
        now_ms: u64,
        enemy_id: u128,
        destination: Position,
        path: Vec<Position>,
        planned_continuation: Option<PlannedContinuation>,
        orchestrator_priority: u8,
        repath_counter: u32,
    ) -> (started: bool)
        requires
            path@.len() >= 2 ==> i32::MIN <= path@[1].x - start_pos.x <= i32::MAX,
            path@.len() >= 2 ==> i32::MIN <= path@[1].y - start_pos.y <= i32::MAX,
        ensures
            started == (path@.len() >= 2),
            !started ==> *final(self) == *old(self),
            started ==> advance_started(
                *old(self),
                *final(self),
                start_pos,
                now_ms,
                enemy_id,
                destination,
                path@,
                planned_continuation,
                orchestrator_priority,
                repath_counter,
            ),
    {
        if path.len() < 2 {
            return false;
        }
        let first_step = path[1];
        let mut movement = MovementState::new_at(start_pos, now_ms);
        movement.path = path;
        movement.reserved_destination = Some(destination);
        movement.planned_continuation = planned_continuation;
        movement.repath_counter = repath_counter;
        movement.orchestrator_priority = orchestrator_priority;
        movement.step_from = start_pos;
        movement.step_to = first_step;
        let (target_x, target_y) = boundary_target_units(start_pos, first_step);
        movement.target_x_units = target_x;
        movement.target_y_units = target_y;
        movement.step_started_at_ms = now_ms;
        self.current_target = Some(enemy_id);
        self.move_epoch = if self.move_epoch == u32::MAX { 0 } else { self.move_epoch + 1 };
        self.action_state = ActionState::Moving(movement);
        true
    }
}

/// The orchestrator's view of `u`, placed on `tile`, at `now_ms`: only for
/// a unit waiting in a state that has run out (or idle), allowed to move,
/// with some speed, and on the battlefield.
pub open spec fn context_spec(u: RuntimeUnit, tile: Option<Position>, now_ms: u64) -> Option<MovementIntentContext> {
    match intent_state_spec(u.action_state, now_ms) {
        Some((kind, counter)) => if now_ms >= u.action_locks.movement_until_ms && u.stats.move_speed_units_per_ms != 0 {
            match tile {
                Some(p) => Some(
                    MovementIntentContext {
                        unit_id: u.instance_id,
                        state_kind: kind,
                        repath_counter: counter,
                        start_pos: p,
                        owner: u.owner,
                        base_uuid: u.base_uuid,
                        current_target: u.current_target,
                    },
                ),
                None => None,
            }
        } else {
            None
        },
        None => None,
    }
}

/// The orchestrator's view of a unit now, if it is considered at all.
pub fn movement_intent_context_of(u: &RuntimeUnit, tile: Option<Position>, now_ms: u64) -> (r: Option<MovementIntentContext>)
    ensures
        r == context_spec(*u, tile, now_ms),
{
    match intent_state_of(&u.action_state, now_ms) {
        Some((kind, counter)) => {
            if !u.action_locks.can_move(now_ms) || u.stats.move_speed_units_per_ms == 0 {
                return None;
            }
            match tile {
                Some(p) => Some(MovementIntentContext {
                    unit_id: u.instance_id,
                    state_kind: kind,
                    repath_counter: counter,
                    start_pos: p,
                    owner: u.owner,
                    base_uuid: u.base_uuid,
                    current_target: u.current_target,
                }),
                None => None,
            }
        },
        None => None,
    }
}

/// The order in which units are considered: by state priority, then
/// identifier.
pub open spec fn context_key(c: MovementIntentContext) -> Seq<i128> {
    seq![priority_spec(c.state_kind) as i128] + id_key(c.unit_id)
}

fn context_key_of(c: &MovementIntentContext) -> (r: Vec<i128>)
    ensures
        r@ == context_key(*c),
{
    let ik = id_key_of(c.unit_id);
    let r = vec![c.state_kind.priority() as i128, ik[0], ik[1]];
    assert(r@ =~= context_key(*c));
    r
}

/// The units have pairwise different identifiers.
pub open spec fn distinct_instances(units: Seq<RuntimeUnit>) -> bool {
    forall|a: int, b: int| 0 <= a < b < units.len() ==> (#[trigger] units[a]).instance_id != (#[trigger] units[b]).instance_id
}

/// The contexts of the units the orchestrator considers at `now_ms`
/// (`tiles[i]` is where unit `i` stands), ordered by state priority, then
/// identifier.
pub fn collect_movement_intent_contexts(
    units: &Vec<RuntimeUnit>,
    tiles: &Vec<Option<Position>>,
    now_ms: u64,
) -> (out: Vec<MovementIntentContext>)
    requires
        units@.len() == tiles@.len(),
        distinct_instances(units@),
    ensures
        forall|a: int, b: int| 0 <= a < b < out@.len() ==> key_lt(context_key(#[trigger] out@[a]), context_key(#[trigger] out@[b])),
        forall|c: MovementIntentContext|
            out@.contains(c) <==> exists|i: int| 0 <= i < units@.len() && #[trigger] context_spec(units@[i], tiles@[i], now_ms) == Some(c),
{
    let mut out: Vec<MovementIntentContext> = Vec::new();
    let mut keys: Vec<Vec<i128>> = Vec::new();
    let mut i: usize = 0;
    while i < units.len()
        invariant
            0 <= i <= units@.len(),
            units@.len() == tiles@.len(),
            distinct_instances(units@),
            out@.len() == keys@.len(),
            keys_sorted(keys@),
            forall|k: int| 0 <= k < keys@.len() ==> (#[trigger] keys@[k])@ == context_key(out@[k]),
            forall|k: int| #![trigger out@[k]] 0 <= k < out@.len() ==> exists|j: int| 0 <= j < i && #[trigger] context_spec(units@[j], tiles@[j], now_ms) == Some(out@[k]),
            forall|j: int| 0 <= j < i && (#[trigger] context_spec(units@[j], tiles@[j], now_ms)) is Some ==> out@.contains(context_spec(units@[j], tiles@[j], now_ms)->0),
        decreases units@.len() - i,
    {
        match movement_intent_context_of(&units[i], tiles[i], now_ms) {
            Some(c) => {
                let key = context_key_of(&c);
                proof {
                    assert forall|k: int| 0 <= k < keys@.len() implies (#[trigger] keys@[k])@.len() == key@.len() && keys@[k]@ != key@ by {
                        let j = choose|j: int| 0 <= j < i && #[trigger] context_spec(units@[j], tiles@[j], now_ms) == Some(out@[k]);
                        assert(out@[k].unit_id == units@[j].instance_id);
                        assert(c.unit_id == units@[ix(i)].instance_id);
                        assert(units@[j].instance_id != units@[ix(i)].instance_id);
                        lemma_id_key_injective(out@[k].unit_id, c.unit_id);
                        if keys@[k]@ == key@ {
                            assert(keys@[k]@.subrange(1, 3) =~= id_key(out@[k].unit_id));
                            assert(key@.subrange(1, 3) =~= id_key(c.unit_id));
                        }
                    }
                }
                let ghost out0 = out@;
                let ghost keys0 = keys@;
                let k = insert_keyed(&mut out, &mut keys, c, key);
                proof {
                    assert forall|m: int| 0 <= m < keys@.len() implies (#[trigger] keys@[m])@ == context_key(out@[m]) by {
                        if m < k {
                            assert(keys@[m] == keys0[m] && out@[m] == out0[m]);
                        } else if m > k {
                            assert(keys@[m] == keys0[m - 1] && out@[m] == out0[m - 1]);
                        }
                    }
                    assert forall|m: int| #![trigger out@[m]] 0 <= m < out@.len() implies exists|j: int| 0 <= j < i + 1 && #[trigger] context_spec(units@[j], tiles@[j], now_ms) == Some(out@[m]) by {
                        if m < k {
                            assert(out@[m] == out0[m]);
                        } else if m > k {
                            assert(out@[m] == out0[m - 1]);
                        } else {
                            assert(context_spec(units@[ix(i)], tiles@[ix(i)], now_ms) == Some(out@[m]));
                        }
                    }
                    assert forall|j: int| 0 <= j < i + 1 && (#[trigger] context_spec(units@[j], tiles@[j], now_ms)) is Some implies out@.contains(context_spec(units@[j], tiles@[j], now_ms)->0) by {
                        if j < i {
                            let x = context_spec(units@[j], tiles@[j], now_ms)->0;
                            assert(out0.contains(x));
                            let m = choose|m: int| 0 <= m < out0.len() && out0[m] == x;
                            if m < k {
                                assert(out@[m] == x);
                            } else {
                                assert(out@[m + 1] == x);
                            }
                        } else {
                            assert(out@[ix(k)] == c);
                        }
                    }
                }
            },
            None => {},
        }
        i = i + 1;
    }
    proof {
        assert forall|a: int, b: int| 0 <= a < b < out@.len() implies key_lt(context_key(#[trigger] out@[a]), context_key(#[trigger] out@[b])) by {
            assert(keys@[a]@ == context_key(out@[a]));
            assert(keys@[b]@ == context_key(out@[b]));
        }
        assert forall|c: MovementIntentContext| out@.contains(c) <==> exists|i: int| 0 <= i < units@.len() && #[trigger] context_spec(units@[i], tiles@[i], now_ms) == Some(c) by {
            if out@.contains(c) {
                let m = choose|m: int| 0 <= m < out@.len() && out@[m] == c;
                let j = choose|j: int| 0 <= j < units@.len() && #[trigger] context_spec(units@[j], tiles@[j], now_ms) == Some(out@[m]);
            }
        }
    }
    out
}

/// What committing a movement decision asks of the battle loop.
#[derive(Debug, Clone, Copy, PartialEq, Eq, Structural)]
pub enum CommitOutcome {
    /// Nothing more.
    Done,
    /// The unit is not on the battlefield: its reservation is cancelled.
    NotPlaced,
    /// The unit started walking: its first step is scheduled.
    Started,
    /// The unit waits; movement is planned again at `at_ms`.
    RetryAt { at_ms: u64 },
}

/// `c + 1`, wrapping.
pub open spec fn next_counter(c: u32) -> u32 {
    if c == u32::MAX { 0 } else { (c + 1) as u32 }
}

/// `a - b`, or zero when `b` is larger.
pub open spec fn sat_sub_u64(a: u64, b: u64) -> u64 {
    if a >= b { (a - b) as u64 } else { 0 }
}

/// The unit waiting until `until_ms` to repath, with its target dropped.
pub open spec fn waiting_to_repath(u: RuntimeUnit, until_ms: u64, counter: u32) -> RuntimeUnit {
    RuntimeUnit { current_target: None, ..with_wait_state(u, ActionState::WaitRepath { until_ms, repath_counter: counter }) }
}

/// The unit and the outcome of committing `decision` at `now_ms` when no
/// walk starts. For an advance, `start_pos` is where the unit stands (none
/// off the battlefield), `direct_approach` tells that its first step walks
/// straight into the enemy, `reserved` whether reserving that step
/// succeeded (asked only otherwise), `friendly_blocked` whether a living
/// unit of its side holds it, and `jitter_ms` the unit's repath jitter.
pub open spec fn commit_spec(
    u: RuntimeUnit,
    now_ms: u64,
    decision: MovementDecision,
    start_pos: Option<Position>,
    direct_approach: bool,
    reserved: bool,
    friendly_blocked: bool,
    jitter_ms: u64,
) -> (RuntimeUnit, CommitOutcome) {
    match decision {
        MovementDecision::Engage { target_id, .. } => (
            RuntimeUnit { current_target: Some(target_id), action_state: ActionState::Idle, ..u },
            CommitOutcome::Done,
        ),
        MovementDecision::WaitRepath { until_ms, repath_counter, .. } => (
            waiting_to_repath(u, until_ms, repath_counter),
            CommitOutcome::RetryAt { at_ms: until_ms },
        ),
        MovementDecision::Yield { retry_at_ms, repath_counter, .. } => {
            let until = sat_add_u64(now_ms, sat_sub_u64(retry_at_ms, now_ms));
            (
                with_wait_state(advanced_unit(u, now_ms), ActionState::Yielding { until_ms: until, repath_counter }),
                CommitOutcome::RetryAt { at_ms: until },
            )
        },
        MovementDecision::Blocked { retry_at_ms, repath_counter, .. } => {
            let until = sat_add_u64(now_ms, sat_sub_u64(retry_at_ms, now_ms));
            (with_wait_state(u, ActionState::Blocked { until_ms: until, repath_counter }), CommitOutcome::RetryAt { at_ms: until })
        },
        MovementDecision::Hold { retry_at_ms, repath_counter, .. } => {
            let until = sat_add_u64(now_ms, sat_sub_u64(retry_at_ms, now_ms));
            (with_wait_state(u, ActionState::Holding { until_ms: until, repath_counter }), CommitOutcome::RetryAt { at_ms: until })
        },
        MovementDecision::Advance { path, repath_counter, .. } => {
            let repath_at = sat_add_u64(sat_add_u64(now_ms, REPATH_BASE_DELAY_MS), jitter_ms);
            if path@.len() < 2 {
                (waiting_to_repath(u, repath_at, next_counter(repath_counter)), CommitOutcome::RetryAt { at_ms: repath_at })
            } else if start_pos is None {
                (u, CommitOutcome::NotPlaced)
            } else if !direct_approach && !reserved {
                if friendly_blocked {
                    let until = sat_add_u64(now_ms, BLOCKED_RETRY_DELAY_MS);
                    (with_wait_state(u, ActionState::Blocked { until_ms: until, repath_counter }), CommitOutcome::RetryAt { at_ms: until })
                } else {
                    (waiting_to_repath(u, repath_at, next_counter(repath_counter)), CommitOutcome::RetryAt { at_ms: repath_at })
                }
            } else {
                (u, CommitOutcome::Started)
            }
        },
    }
}

fn next_counter_exec(c: u32) -> (r: u32)
    ensures
        r == next_counter(c),
{
    if c == u32::MAX { 0 } else { c + 1 }
}

impl RuntimeUnit {
    /// Commits the orchestrator's `decision` for this unit at `now_ms` (see
    /// `commit_spec` for the other arguments). An advance whose path has a
    /// next tile, from a tile on the battlefield, whose first step is a
    /// direct approach or was reserved, starts the walk (see
    /// `advance_started`); otherwise the unit waits as `commit_spec` says.
    pub fn commit_movement_decision(
        &mut self,
        now_ms: u64,
        decision: MovementDecision,
        start_pos: Option<Position>,
        direct_approach: bool,
        reserved: bool,
        friendly_blocked: bool,
        jitter_ms: u64,
    ) -> (r: CommitOutcome)
        requires
            old(self).action_state matches ActionState::Moving(state) ==> motion_fits(
                old(self).pos_x_units as int,
                old(self).pos_y_units as int,
                state,
                now_ms as int,
            ),
            decision matches MovementDecision::Advance { path, .. } ==> (start_pos matches Some(sp) ==> (path@.len() >= 2
                ==> i32::MIN <= path@[1].x - sp.x <= i32::MAX && i32::MIN <= path@[1].y - sp.y <= i32::MAX)),
        ensures
            r is Started ==> (decision matches MovementDecision::Advance {
                enemy_id,
                destination,
                path,
                planned_continuation,
                orchestrator_priority,
                repath_counter,
                ..
            } && start_pos matches Some(sp) && advance_started(
                *old(self),
                *final(self),
                sp,
                now_ms,
                enemy_id,
                destination,
                path@,
                planned_continuation,
                orchestrator_priority,
                repath_counter,
            )),
            r == commit_spec(*old(self), now_ms, decision, start_pos, direct_approach, reserved, friendly_blocked, jitter_ms).1,
            !(r is Started) ==> *final(self) == commit_spec(
                *old(self),
                now_ms,
                decision,
                start_pos,
                direct_approach,
                reserved,
                friendly_blocked,
                jitter_ms,
            ).0,
    {
        match decision {
            MovementDecision::Engage { target_id, .. } => {
                self.engage(target_id);
                CommitOutcome::Done
            },
            MovementDecision::WaitRepath { until_ms, repath_counter, .. } => {
                let at_ms = self.enter_wait_repath(until_ms, repath_counter);
                CommitOutcome::RetryAt { at_ms }
            },
            MovementDecision::Yield { retry_at_ms, repath_counter, .. } => {
                let delay = if retry_at_ms >= now_ms { retry_at_ms - now_ms } else { 0 };
                let at_ms = self.enter_yield(now_ms, delay, repath_counter);
                CommitOutcome::RetryAt { at_ms }
            },
            MovementDecision::Blocked { retry_at_ms, repath_counter, .. } => {
                let delay = if retry_at_ms >= now_ms { retry_at_ms - now_ms } else { 0 };
                let at_ms = self.enter_blocked(now_ms, delay, repath_counter);
                CommitOutcome::RetryAt { at_ms }
            },
            MovementDecision::Hold { retry_at_ms, repath_counter, .. } => {
                let delay = if retry_at_ms >= now_ms { retry_at_ms - now_ms } else { 0 };
                let at_ms = self.enter_hold(now_ms, delay, repath_counter);
                CommitOutcome::RetryAt { at_ms }
            },
            MovementDecision::Advance {
                enemy_id,
                destination,
                path,
                planned_continuation,
                orchestrator_priority,
                repath_counter,
                ..
            } => {
                if path.len() < 2 {
                    let until_ms = next_wait_repath_until_ms(now_ms, jitter_ms);
                    let at_ms = self.enter_wait_repath(until_ms, next_counter_exec(repath_counter));
                    return CommitOutcome::RetryAt { at_ms };
                }
                let sp = match start_pos {
                    Some(sp) => sp,
                    None => return CommitOutcome::NotPlaced,
                };
                if !direct_approach && !reserved {
                    if friendly_blocked {
                        let at_ms = self.enter_blocked(now_ms, BLOCKED_RETRY_DELAY_MS, repath_counter);
                        return CommitOutcome::RetryAt { at_ms };
                    }
                    let until_ms = next_wait_repath_until_ms(now_ms, jitter_ms);
                    let at_ms = self.enter_wait_repath(until_ms, next_counter_exec(repath_counter));
                    return CommitOutcome::RetryAt { at_ms };
                }
                self.begin_advance(
                    sp,
                    now_ms,
                    enemy_id,
                    destination,
                    path,
                    planned_continuation,
                    orchestrator_priority,
                    repath_counter,
                );
                CommitOutcome::Started
            },
        }
    }
}

/// What a walking unit does once a step brought it onto a tile.
#[derive(Debug, Clone, Copy, PartialEq, Eq, Structural)]
pub enum StepAdvance {
    /// The unit does not walk.
    NotMoving,
    /// It reached its destination, or the end of its path.
    Arrived,
    /// It goes on to `next_step`, keeping its planned continuation when
    /// that plans exactly this step.
    Next { next_step: Position, continuation: Option<PlannedContinuation> },
}

/// The movement state after a step brought the unit onto `current_pos` at
/// `now_ms`: the path cursor moves on (saturating), and the next step
/// starts there and then.
pub open spec fn stepped_state(s: MovementState, current_pos: Position, now_ms: u64) -> MovementState {
    MovementState {
        path_cursor: if s.path_cursor == u32::MAX { u32::MAX } else { (s.path_cursor + 1) as u32 },
        step_from: current_pos,
        step_started_at_ms: now_ms,
        ..s
    }
}

/// What follows a step onto `current_pos` (see `StepAdvance`).
pub open spec fn step_advance_spec(s: MovementState, current_pos: Position, now_ms: u64) -> StepAdvance {
    let t = stepped_state(s, current_pos, now_ms);
    let c = t.path_cursor as int;
    if t.reserved_destination == Some(current_pos) || c + 1 >= t.path@.len() {
        StepAdvance::Arrived
    } else {
        let next = t.path@[c + 1];
        StepAdvance::Next {
            next_step: next,
            continuation: match t.planned_continuation {
                Some(p) => if p.step == next { Some(p) } else { None },
                None => None,
            },
        }
    }
}

impl RuntimeUnit {
    /// A walking unit whose step brought it onto `current_pos` at `now_ms`
    /// moves its path cursor on and starts its next step there; the result
    /// tells whether it arrived or which tile comes next. A unit that does
    /// not walk is left as it is.
    pub fn advance_after_step(&mut self, current_pos: Position, now_ms: u64) -> (r: StepAdvance)
        ensures
            match old(self).action_state {
                ActionState::Moving(s) => {
                    &&& *final(self) == (RuntimeUnit { action_state: ActionState::Moving(stepped_state(s, current_pos, now_ms)), ..*old(self) })
                    &&& r == step_advance_spec(s, current_pos, now_ms)
                },
                _ => *final(self) == *old(self) && r is NotMoving,
            },
    {
        match &mut self.action_state {
            ActionState::Moving(state) => {
                state.path_cursor = state.path_cursor.saturating_add(1);
                state.step_from = current_pos;
                state.step_started_at_ms = now_ms;
                let cursor: u64 = state.path_cursor as u64;
                let len: u64 = state.path.len() as u64;
                if state.reserved_destination == Some(current_pos) || cursor + 1 >= len {
                    return StepAdvance::Arrived;
                }
                let next = state.path[cursor as usize + 1];
                let continuation = match state.planned_continuation {
                    Some(p) => if p.step == next { Some(p) } else { None },
                    None => None,
                };
                StepAdvance::Next { next_step: next, continuation }
            },
            _ => StepAdvance::NotMoving,
        }
    }
}

} // verus!
