//! The movement orchestrator's view of a unit that may move this tick, the
//! candidate steps towards an enemy, and how candidates are ranked and
//! picked against the steps that other units already claimed.
use vstd::prelude::*;
use crate::arith::{abs_int, ix};
use crate::keys::{id_key, id_key_of, plan_key, plan_key_of};
use crate::movement::ActionState;
use crate::position::{chebyshev_spec, Position, Side};
use crate::targets::{alive_enemy_spec, persisted_target_if_alive, TargetCandidate, distinct_unit_ids};

verus! {

/// The state a unit waits in before the orchestrator considers it again.
#[derive(Debug, Clone, Copy, PartialEq, Eq, Structural)]
pub enum MovementIntentStateKind {
    Holding,
    Yielding,
    Blocked,
    Idle,
    WaitRepath,
}

pub open spec fn priority_spec(kind: MovementIntentStateKind) -> u8 {
    match kind {
        MovementIntentStateKind::Holding => 0,
        MovementIntentStateKind::Yielding => 1,
        MovementIntentStateKind::Blocked => 2,
        MovementIntentStateKind::Idle => 3,
        MovementIntentStateKind::WaitRepath => 4,
    }
}

impl MovementIntentStateKind {
    /// The order in which units are considered, smaller first: holding,
    /// yielding, blocked, idle, then waiting to repath.
    pub fn priority(self) -> (r: u8)
        ensures
            r == priority_spec(self),
    {
        match self {
            MovementIntentStateKind::Holding => 0,
            MovementIntentStateKind::Yielding => 1,
            MovementIntentStateKind::Blocked => 2,
            MovementIntentStateKind::Idle => 3,
            MovementIntentStateKind::WaitRepath => 4,
        }
    }
}

/// The waiting state of a unit that the orchestrator considers at
/// `now_ms`, with its repath counter: an idle unit, or one whose hold,
/// yield, block or repath wait has run out. `None` for any other state.
pub open spec fn intent_state_spec(state: ActionState, now_ms: u64) -> Option<(MovementIntentStateKind, u32)> {
    match state {
        ActionState::Idle => Some((MovementIntentStateKind::Idle, 0)),
        ActionState::Holding { until_ms, repath_counter } => if until_ms > now_ms { None } else { Some((MovementIntentStateKind::Holding, repath_counter)) },
        ActionState::Yielding { until_ms, repath_counter } => if until_ms > now_ms { None } else { Some((MovementIntentStateKind::Yielding, repath_counter)) },
        ActionState::Blocked { until_ms, repath_counter } => if until_ms > now_ms { None } else { Some((MovementIntentStateKind::Blocked, repath_counter)) },
        ActionState::WaitRepath { until_ms, repath_counter } => if until_ms > now_ms { None } else { Some((MovementIntentStateKind::WaitRepath, repath_counter)) },
        _ => None,
    }
}

/// The waiting state in which the orchestrator considers a unit now, if any.
pub fn intent_state_of(state: &ActionState, now_ms: u64) -> (r: Option<(MovementIntentStateKind, u32)>)
    ensures
        r == intent_state_spec(*state, now_ms),
{
    match state {
        ActionState::Idle => Some((MovementIntentStateKind::Idle, 0)),
        ActionState::Holding { until_ms, repath_counter } => if *until_ms > now_ms { None } else { Some((MovementIntentStateKind::Holding, *repath_counter)) },
        ActionState::Yielding { until_ms, repath_counter } => if *until_ms > now_ms { None } else { Some((MovementIntentStateKind::Yielding, *repath_counter)) },
        ActionState::Blocked { until_ms, repath_counter } => if *until_ms > now_ms { None } else { Some((MovementIntentStateKind::Blocked, *repath_counter)) },
        ActionState::WaitRepath { until_ms, repath_counter } => if *until_ms > now_ms { None } else { Some((MovementIntentStateKind::WaitRepath, *repath_counter)) },
        _ => None,
    }
}

/// What the orchestrator knows of a unit that may move this tick.
#[derive(Debug, Clone, Copy, PartialEq, Eq, Structural)]
pub struct MovementIntentContext {
    pub unit_id: u128,
    pub state_kind: MovementIntentStateKind,
    pub repath_counter: u32,
    pub start_pos: Position,
    pub owner: Side,
    pub base_uuid: u128,
    pub current_target: Option<u128>,
}

/// One way to advance: a destination next to an enemy and the path there.
#[derive(Debug, Clone, PartialEq, Eq)]
pub struct MovementAdvanceCandidate {
    pub enemy_id: u128,
    pub enemy_pos: Position,
    pub destination: Position,
    pub path: Vec<Position>,
    pub first_step: Position,
    pub first_step_reserved_by_other: bool,
    pub second_step_blocked_by_friendly: bool,
}

/// Rows gained towards the enemy side by stepping from `start` to `step`.
pub open spec fn forward_progress_spec(owner: Side, start: Position, step: Position) -> int {
    match owner {
        Side::Player => start.y - step.y,
        Side::Opponent => step.y - start.y,
    }
}

/// Rows gained towards the enemy side by the step.
pub fn forward_progress(owner: Side, start: Position, step: Position) -> (r: i64)
    ensures
        r == forward_progress_spec(owner, start, step),
{
    match owner {
        Side::Player => start.y as i64 - step.y as i64,
        Side::Opponent => step.y as i64 - start.y as i64,
    }
}

/// How far the enemy is from the mover's tile.
pub fn enemy_distance_from_start(start: Position, enemy_pos: Position) -> (r: i64)
    ensures
        r == chebyshev_spec(start, enemy_pos),
{
    start.chebyshev(&enemy_pos)
}

/// How far the first step moves sideways.
pub fn lateral_shift(start: Position, step: Position) -> (r: i64)
    ensures
        r == abs_int(step.x - start.x),
{
    let d: i64 = step.x as i64 - start.x as i64;
    if d >= 0 { d } else { -d }
}

/// How far the enemy is after the first step.
pub fn distance_after_first_step(step: Position, enemy_pos: Position) -> (r: i64)
    ensures
        r == chebyshev_spec(step, enemy_pos),
{
    step.chebyshev(&enemy_pos)
}

/// How far the first step is from the enemy's column.
pub fn enemy_axis_alignment(step: Position, enemy_pos: Position) -> (r: i64)
    ensures
        r == abs_int(step.x - enemy_pos.x),
{
    let d: i64 = step.x as i64 - enemy_pos.x as i64;
    if d >= 0 { d } else { -d }
}

/// The candidate reaches attack range in at most one step.
pub open spec fn near_engage_spec(c: MovementAdvanceCandidate) -> bool {
    c.path@.len() <= 2
}

/// Whether the candidate reaches attack range in at most one step.
pub fn is_near_engage_candidate(candidate: &MovementAdvanceCandidate) -> (r: bool)
    ensures
        r == near_engage_spec(*candidate),
{
    candidate.path.len() <= 2
}

/// The candidate heads for the locked target straight down the mover's
/// column.
pub open spec fn sticky_approach_spec(context: MovementIntentContext, c: MovementAdvanceCandidate) -> bool {
    context.current_target == Some(c.enemy_id) && c.first_step.x == context.start_pos.x && c.destination.x
        == context.start_pos.x
}

/// Whether the candidate heads straight down the column for the locked target.
pub fn preserves_locked_target_approach(context: MovementIntentContext, candidate: &MovementAdvanceCandidate) -> (r: bool)
    ensures
        r == sticky_approach_spec(context, *candidate),
{
    context.current_target == Some(candidate.enemy_id) && candidate.first_step.x == context.start_pos.x
        && candidate.destination.x == context.start_pos.x
}

/// The step after the first one, if the path has one.
pub open spec fn follow_up_spec(c: MovementAdvanceCandidate) -> Option<Position> {
    if c.path@.len() > 2 { Some(c.path@[2]) } else { None }
}

/// The step after the first one, if the path has one.
pub fn follow_up_step(candidate: &MovementAdvanceCandidate) -> (r: Option<Position>)
    ensures
        r == follow_up_spec(*candidate),
{
    if candidate.path.len() > 2 { Some(candidate.path[2]) } else { None }
}

pub open spec fn flag(b: bool) -> int {
    if b { 1 } else { 0 }
}

/// Key ranking advance candidates for the mover in `context` (smaller is
/// preferred), given the attack range of the candidate's enemy: a near
/// engage on the locked target, a straight approach to it, the locked
/// target at all; then the enemy's distance and attack range, the path
/// length, an unreserved first step, an open second step, the distance
/// after the first step, sideways shift, forward progress (more first),
/// alignment with the enemy's column, the plan order, the enemy's
/// identifier, and the destination's row and column.
pub open spec fn advance_key(context: MovementIntentContext, c: MovementAdvanceCandidate, enemy_range_tiles: u8) -> Seq<i128> {
    seq![
        (-flag(context.current_target == Some(c.enemy_id) && near_engage_spec(c))) as i128,
        (-flag(sticky_approach_spec(context, c))) as i128,
        (-flag(context.current_target == Some(c.enemy_id))) as i128,
        chebyshev_spec(context.start_pos, c.enemy_pos) as i128,
        enemy_range_tiles as i128,
        c.path@.len() as i128,
        flag(c.first_step_reserved_by_other) as i128,
        flag(c.second_step_blocked_by_friendly) as i128,
        chebyshev_spec(c.first_step, c.enemy_pos) as i128,
        abs_int(c.first_step.x - context.start_pos.x) as i128,
        (-forward_progress_spec(context.owner, context.start_pos, c.first_step)) as i128,
        abs_int(c.first_step.x - c.enemy_pos.x) as i128,
    ] + plan_key(context.owner, context.start_pos, c.enemy_pos, c.destination) + id_key(c.enemy_id) + seq![
        c.destination.y as i128,
        c.destination.x as i128,
    ]
}

fn flag_of(b: bool) -> (r: i128)
    ensures
        r == flag(b),
{
    if b { 1 } else { 0 }
}

/// The ranking key of an advance candidate.
pub fn advance_key_of(context: MovementIntentContext, c: &MovementAdvanceCandidate, enemy_range_tiles: u8) -> (r: Vec<i128>)
    ensures
        r@ == advance_key(context, *c, enemy_range_tiles),
{
    let locked = context.current_target == Some(c.enemy_id);
    let near = is_near_engage_candidate(c);
    let sticky = preserves_locked_target_approach(context, c);
    let plan = plan_key_of(context.owner, context.start_pos, c.enemy_pos, c.destination);
    let ik = id_key_of(c.enemy_id);
    let near_locked: i128 = -flag_of(locked && near);
    let sticky_locked: i128 = -flag_of(sticky);
    let target_locked: i128 = -flag_of(locked);
    let backward: i128 = -(forward_progress(context.owner, context.start_pos, c.first_step) as i128);
    let r = vec![
        near_locked,
        sticky_locked,
        target_locked,
        enemy_distance_from_start(context.start_pos, c.enemy_pos) as i128,
        enemy_range_tiles as i128,
        c.path.len() as i128,
        flag_of(c.first_step_reserved_by_other),
        flag_of(c.second_step_blocked_by_friendly),
        distance_after_first_step(c.first_step, c.enemy_pos) as i128,
        lateral_shift(context.start_pos, c.first_step) as i128,
        backward,
        enemy_axis_alignment(c.first_step, c.enemy_pos) as i128,
        plan[0],
        plan[1],
        plan[2],
        plan[3],
        plan[4],
        plan[5],
        plan[6],
        plan[7],
        ik[0],
        ik[1],
        c.destination.y as i128,
        c.destination.x as i128,
    ];
    assert(r@ =~= advance_key(context, *c, enemy_range_tiles));
    r
}

/// `step` is in the list of claimed first steps.
pub open spec fn step_claimed(claimed: Seq<Position>, step: Position) -> bool {
    exists|i: int| 0 <= i < claimed.len() && claimed[i] == step
}

/// A follow-up step claimed by a unit of `owner` (claims of the other side
/// do not count).
pub open spec fn follow_up_claimed(claims: Seq<(Side, Position, u8)>, owner: Side, step: Position) -> bool {
    exists|i: int| 0 <= i < claims.len() && claims[i].0 == owner && claims[i].1 == step
}

/// The first step of the candidate is still free.
pub open spec fn first_step_free(claimed: Seq<Position>, c: MovementAdvanceCandidate) -> bool {
    !step_claimed(claimed, c.first_step)
}

/// The first step is free and no unit of `owner` claimed the follow-up step.
pub open spec fn fully_free(
    owner: Side,
    claimed: Seq<Position>,
    claims: Seq<(Side, Position, u8)>,
    c: MovementAdvanceCandidate,
) -> bool {
    &&& first_step_free(claimed, c)
    &&& match follow_up_spec(c) {
        Some(f) => !follow_up_claimed(claims, owner, f),
        None => true,
    }
}

/// `k` is the first candidate that is fully free.
pub open spec fn first_fully_free(
    owner: Side,
    claimed: Seq<Position>,
    claims: Seq<(Side, Position, u8)>,
    cands: Seq<MovementAdvanceCandidate>,
    k: int,
) -> bool {
    &&& 0 <= k < cands.len()
    &&& fully_free(owner, claimed, claims, cands[k])
    &&& forall|j: int| 0 <= j < k ==> !fully_free(owner, claimed, claims, #[trigger] cands[j])
}

/// `k` is the first candidate whose first step is free.
pub open spec fn first_with_free_step(claimed: Seq<Position>, cands: Seq<MovementAdvanceCandidate>, k: int) -> bool {
    &&& 0 <= k < cands.len()
    &&& first_step_free(claimed, cands[k])
    &&& forall|j: int| 0 <= j < k ==> !first_step_free(claimed, #[trigger] cands[j])
}

/// The pick among ranked candidates: the first fully free one; failing
/// that, the first with a free first step; `None` when every first step is
/// claimed.
pub open spec fn choice_spec(
    owner: Side,
    claimed: Seq<Position>,
    claims: Seq<(Side, Position, u8)>,
    cands: Seq<MovementAdvanceCandidate>,
    r: Option<usize>,
) -> bool {
    if exists|i: int| 0 <= i < cands.len() && fully_free(owner, claimed, claims, #[trigger] cands[i]) {
        r matches Some(k) && first_fully_free(owner, claimed, claims, cands, k as int)
    } else {
        match r {
            Some(k) => first_with_free_step(claimed, cands, k as int),
            None => forall|j: int| 0 <= j < cands.len() ==> !first_step_free(claimed, #[trigger] cands[j]),
        }
    }
}

/// Whether `step` was claimed as a first step.
pub fn contains_step(claimed: &Vec<Position>, step: Position) -> (r: bool)
    ensures
        r == step_claimed(claimed@, step),
{
    let mut i: usize = 0;
    while i < claimed.len()
        invariant
            0 <= i <= claimed@.len(),
            forall|j: int| 0 <= j < i ==> claimed@[j] != step,
        decreases claimed@.len() - i,
    {
        if claimed[i] == step {
            return true;
        }
        i = i + 1;
    }
    false
}

/// Whether a unit of `owner` claimed `step` as a follow-up step.
pub fn contains_follow_up_claim(claims: &Vec<(Side, Position, u8)>, owner: Side, step: Position) -> (r: bool)
    ensures
        r == follow_up_claimed(claims@, owner, step),
{
    let mut i: usize = 0;
    while i < claims.len()
        invariant
            0 <= i <= claims@.len(),
            forall|j: int| 0 <= j < i ==> !(claims@[j].0 == owner && claims@[j].1 == step),
        decreases claims@.len() - i,
    {
        let (s, p, _) = claims[i];
        if s == owner && p == step {
            return true;
        }
        i = i + 1;
    }
    false
}

/// The candidate the mover takes from the ranked list: the first whose
/// first step is free and whose follow-up step no ally claimed; failing
/// that, the first whose first step is free; `None` when every first step
/// is claimed.
pub fn choose_available_advance_candidate(
    owner: Side,
    candidates: &Vec<MovementAdvanceCandidate>,
    claimed_first_steps: &Vec<Position>,
    claimed_follow_up_steps: &Vec<(Side, Position, u8)>,
) -> (r: Option<usize>)
    ensures
        choice_spec(owner, claimed_first_steps@, claimed_follow_up_steps@, candidates@, r),
{
    let mut fallback: Option<usize> = None;
    let mut i: usize = 0;
    while i < candidates.len()
        invariant
            0 <= i <= candidates@.len(),
            forall|j: int| 0 <= j < i ==> !fully_free(owner, claimed_first_steps@, claimed_follow_up_steps@, #[trigger] candidates@[j]),
            match fallback {
                Some(k) => k < i && first_step_free(claimed_first_steps@, candidates@[ix(k)]) && forall|j: int|
                    0 <= j < k ==> !first_step_free(claimed_first_steps@, #[trigger] candidates@[j]),
                None => forall|j: int| 0 <= j < i ==> !first_step_free(claimed_first_steps@, #[trigger] candidates@[j]),
            },
        decreases candidates@.len() - i,
    {
        let candidate = &candidates[i];
        if !contains_step(claimed_first_steps, candidate.first_step) {
            if fallback.is_none() {
                fallback = Some(i);
            }
            let claimed = match follow_up_step(candidate) {
                Some(f) => contains_follow_up_claim(claimed_follow_up_steps, owner, f),
                None => false,
            };
            if !claimed {
                return Some(i);
            }
        }
        i = i + 1;
    }
    fallback
}

/// The mover should hold its position rather than take `chosen`: it has a
/// living locked target, `chosen` heads for another enemy, and some
/// candidate reaches the locked target in at most one step through a free
/// first step.
pub open spec fn hold_spec(
    context: MovementIntentContext,
    units: Seq<TargetCandidate>,
    candidates: Seq<MovementAdvanceCandidate>,
    claimed: Seq<Position>,
    chosen: MovementAdvanceCandidate,
) -> bool {
    match context.current_target {
        Some(locked) => {
            &&& alive_enemy_spec(units, locked, context.owner)
            &&& locked != chosen.enemy_id
            &&& exists|i: int|
                0 <= i < candidates.len() && (#[trigger] candidates[i]).enemy_id == locked && near_engage_spec(candidates[i])
                    && first_step_free(claimed, candidates[i])
        },
        None => false,
    }
}

/// Whether the mover should hold rather than take `candidate` (see `hold_spec`).
pub fn should_hold_position(
    context: MovementIntentContext,
    units: &Vec<TargetCandidate>,
    candidates: &Vec<MovementAdvanceCandidate>,
    claimed_first_steps: &Vec<Position>,
    candidate: &MovementAdvanceCandidate,
) -> (r: bool)
    requires
        distinct_unit_ids(units@),
    ensures
        r == hold_spec(context, units@, candidates@, claimed_first_steps@, *candidate),
{
    let locked_target = match persisted_target_if_alive(units, context.owner, context.current_target) {
        Some(t) => t,
        None => {
            return false;
        },
    };
    if locked_target == candidate.enemy_id {
        return false;
    }
    let mut i: usize = 0;
    while i < candidates.len()
        invariant
            0 <= i <= candidates@.len(),
            context.current_target == Some(locked_target),
            alive_enemy_spec(units@, locked_target, context.owner),
            locked_target != candidate.enemy_id,
            forall|j: int|
                0 <= j < i ==> !((#[trigger] candidates@[j]).enemy_id == locked_target && near_engage_spec(candidates@[j])
                    && first_step_free(claimed_first_steps@, candidates@[j])),
        decreases candidates@.len() - i,
    {
        let option = &candidates[i];
        if option.enemy_id == locked_target && is_near_engage_candidate(option) && !contains_step(
            claimed_first_steps,
            option.first_step,
        ) {
            assert(candidates@[ix(i)].enemy_id == locked_target);
            return true;
        }
        i = i + 1;
    }
    false
}

} // verus!
