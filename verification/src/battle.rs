//! The battle loop: the state of a battle, its time-ordered event queue,
//! what each event and each command does to the state, and the loop that
//! runs events until the battle is decided.
use vstd::prelude::*;
use crate::arith::ix;
use crate::attacks::{candidate_view, resolve_basic_attack, resolve_rel, try_start_pending_basic_attacks, BasicAttackDelivery, BasicAttackResolution, PendingAttackDecision};
use crate::damage::{base_damage_spec, final_damage_spec, BattleCommand, Effect};
use crate::arith::max_int;
use crate::movement::ActionState;
use crate::projectiles::{apply_projectile_hit, projectile_impact_ms, ProjectileHitOutcome};
use crate::targets::{basic_attack_range_policy, compute_winner, unit_distance_sq, winner_spec, AttackDelivery, BattleWinner};
use crate::types::UnitStats;
use crate::vitals::{add_resonance_spec, hp_change_spec, resonance_from_hp_loss, HpChangeReason};
use crate::attack_start::{attack_start_spec, AttackStartOutcome};
use crate::autocast::{autocast_end_spec, autocast_start_spec, autocast_step, distinct_ids, is_silenced, schedule_pending_autocasts, AutoCastStartOutcome, CastTiming};
use crate::buffs::{apply_spec, hard_cc_spec, kept_entries, BuffBook, BuffDef, BuffInstanceKey, BuffKind, BuffRemoval};
use crate::position::{Position, Side};
use crate::targets::{TargetCandidate, distinct_unit_ids};
use crate::types::{RuntimeUnit, UnitSnapshot};

verus! {

/// The longest a battle runs; events after it end the battle in a draw.
pub const MAX_BATTLE_TIME_MS: u64 = 60_000;

/// The largest continuous coordinate a unit may hold (positions and step
/// targets stay within it on both axes, in both directions).
pub const COORD_LIMIT: i64 = 0x1000_0000_0000_0000;

/// What a unit's definition says of its attacks and casts.
#[derive(Debug, Clone, Copy, PartialEq, Eq, Structural)]
pub struct UnitRules {
    pub range_tiles: u8,
    pub delivery: BasicAttackDelivery,
    /// Time from the start of a basic attack to its hit.
    pub windup_ms: u64,
    /// How the unit's skill cast occupies it; none without a castable skill.
    pub cast: Option<CastTiming>,
}

/// Something that happens at a given time.
#[derive(Debug, Clone, Copy, PartialEq, Eq, Structural)]
pub enum BattleEvent {
    AttackStart { time_ms: u64, attacker: u128, target: Option<u128>, schedule_next: bool },
    AttackResolve { time_ms: u64, attacker: u128, target: u128 },
    ProjectileHit { time_ms: u64, projectile_id: u128, attacker: u128, target: u128 },
    AutoCastStart { time_ms: u64, caster: u128, cause: u64 },
    AutoCastEnd { time_ms: u64, caster: u128 },
    ApplyBuff { time_ms: u64, caster: u128, target: u128, buff_id: u64, duration_ms: u64 },
    BuffTick { time_ms: u64, key: BuffInstanceKey },
    BuffExpire { time_ms: u64, key: BuffInstanceKey },
    MovementIntent { time_ms: u64 },
    MoveStep { time_ms: u64, unit: u128, expected_move_epoch: u32 },
}

/// The time of an event.
pub open spec fn event_time(e: BattleEvent) -> u64 {
    match e {
        BattleEvent::AttackStart { time_ms, .. } => time_ms,
        BattleEvent::AttackResolve { time_ms, .. } => time_ms,
        BattleEvent::ProjectileHit { time_ms, .. } => time_ms,
        BattleEvent::AutoCastStart { time_ms, .. } => time_ms,
        BattleEvent::AutoCastEnd { time_ms, .. } => time_ms,
        BattleEvent::ApplyBuff { time_ms, .. } => time_ms,
        BattleEvent::BuffTick { time_ms, .. } => time_ms,
        BattleEvent::BuffExpire { time_ms, .. } => time_ms,
        BattleEvent::MovementIntent { time_ms } => time_ms,
        BattleEvent::MoveStep { time_ms, .. } => time_ms,
    }
}

/// The time of `e`.
pub fn time_of(e: &BattleEvent) -> (t: u64)
    ensures
        t == event_time(*e),
{
    match e {
        BattleEvent::AttackStart { time_ms, .. } => *time_ms,
        BattleEvent::AttackResolve { time_ms, .. } => *time_ms,
        BattleEvent::ProjectileHit { time_ms, .. } => *time_ms,
        BattleEvent::AutoCastStart { time_ms, .. } => *time_ms,
        BattleEvent::AutoCastEnd { time_ms, .. } => *time_ms,
        BattleEvent::ApplyBuff { time_ms, .. } => *time_ms,
        BattleEvent::BuffTick { time_ms, .. } => *time_ms,
        BattleEvent::BuffExpire { time_ms, .. } => *time_ms,
        BattleEvent::MovementIntent { time_ms } => *time_ms,
        BattleEvent::MoveStep { time_ms, .. } => *time_ms,
    }
}

/// Why a unit stopped moving.
#[derive(Debug, Clone, Copy, PartialEq, Eq, Structural)]
pub enum MovementStopReason {
    AttackStarted,
    CastStarted,
    HardCC,
    Died,
}

/// What the battle records.
#[derive(Debug, Clone, Copy, PartialEq, Eq, Structural)]
pub enum TimelineEvent {
    BattleStart,
    UnitSpawned { unit: u128, owner: Side, tile: Option<Position>, stats: UnitStats },
    AttackStart { attacker: u128, target: u128 },
    AttackMiss { attacker: u128, target: u128 },
    ProjectileLaunched { projectile_id: u128, attacker: u128, target: u128 },
    HpChanged { unit: u128, hp_before: u32, hp_after: u32 },
    ResonanceChanged { unit: u128, before: u32, after: u32, max: u32 },
    UnitDied { unit: u128, owner: Side, killer: Option<u128> },
    MovementStopped { unit: u128, reason: MovementStopReason, pos_x_units: i64, pos_y_units: i64 },
    AutoCastStart { caster: u128 },
    AutoCastEnd { caster: u128 },
    BuffApplied { key: BuffInstanceKey, duration_ms: u64 },
    BuffTick { key: BuffInstanceKey },
    BuffExpired { key: BuffInstanceKey },
    BattleEnd { winner: BattleWinner },
}

/// The state of a battle. The living units: unit `i` stands on `tiles[i]`
/// (none when not placed) and follows `rules[i]`; the dead are kept in the
/// graveyard.
#[derive(Debug, Clone)]
pub struct BattleState {
    pub units: Vec<RuntimeUnit>,
    pub tiles: Vec<Option<Position>>,
    pub rules: Vec<UnitRules>,
    pub buffs: BuffBook,
    /// The definitions of the buffs that can be applied, by identifier.
    pub buff_defs: Vec<(u64, BuffDef)>,
    /// Pending events in time order; among equal times, in the order pushed.
    pub queue: Vec<BattleEvent>,
    pub timeline: Vec<(u64, TimelineEvent)>,
    /// What is kept of the units that died.
    pub graveyard: Vec<UnitSnapshot>,
    /// Projectiles in flight.
    pub in_flight: Vec<u128>,
    pub next_projectile_id: u128,
}

/// The events are in time order.
pub open spec fn queue_sorted(q: Seq<BattleEvent>) -> bool {
    forall|a: int, b: int| 0 <= a < b < q.len() ==> event_time(#[trigger] q[a]) <= event_time(#[trigger] q[b])
}

/// `v` lies within the coordinate limit.
pub open spec fn coord_ok(v: i64) -> bool {
    -COORD_LIMIT <= v <= COORD_LIMIT
}

/// A unit's position, and the target of its step when it walks, lie within
/// the coordinate limit.
pub open spec fn unit_coords_ok(u: RuntimeUnit) -> bool {
    &&& coord_ok(u.pos_x_units)
    &&& coord_ok(u.pos_y_units)
    &&& u.action_state matches crate::movement::ActionState::Moving(m) ==> coord_ok(m.target_x_units) && coord_ok(
        m.target_y_units,
    )
}

/// No two units stand on one tile.
pub open spec fn occupancy_ok(tiles: Seq<Option<Position>>) -> bool {
    forall|a: int, b: int|
        0 <= a < b < tiles.len() && (#[trigger] tiles[a]) is Some && (#[trigger] tiles[b]) is Some ==> tiles[a] != tiles[b]
}

/// No buff identifier is defined twice.
pub open spec fn defs_distinct(defs: Seq<(u64, BuffDef)>) -> bool {
    forall|a: int, b: int| 0 <= a < b < defs.len() ==> (#[trigger] defs[a]).0 != (#[trigger] defs[b]).0
}

/// The per-unit tables line up, identifiers are unique, coordinates stay
/// within the limit, every unit (but unit `k`, if any) is alive (the dead
/// leave the tables for the graveyard), and no two units share a tile.
pub open spec fn units_ok_except(units: Seq<RuntimeUnit>, tiles: Seq<Option<Position>>, rules: Seq<UnitRules>, k: int) -> bool {
    &&& tiles.len() == units.len()
    &&& rules.len() == units.len()
    &&& distinct_ids(units)
    &&& forall|i: int| 0 <= i < units.len() ==> unit_coords_ok(#[trigger] units[i])
    &&& forall|i: int| 0 <= i < units.len() && i != k ==> (#[trigger] units[i]).stats.current_health != 0
    &&& occupancy_ok(tiles)
}

/// `b` frames the same units as `a` (same identifiers, health, position
/// and state), whatever else of them changed.
pub open spec fn same_frame(a: RuntimeUnit, b: RuntimeUnit) -> bool {
    &&& b.instance_id == a.instance_id
    &&& b.stats.current_health == a.stats.current_health
    &&& b.pos_x_units == a.pos_x_units
    &&& b.pos_y_units == a.pos_y_units
    &&& b.action_state == a.action_state
}

/// Units that keep the frame of consistent units are consistent.
pub proof fn lemma_same_frame_ok(u0: Seq<RuntimeUnit>, v: Seq<RuntimeUnit>, tiles: Seq<Option<Position>>, rules: Seq<UnitRules>)
    requires
        units_ok(u0, tiles, rules),
        v.len() == u0.len(),
        forall|k: int| 0 <= k < v.len() ==> same_frame(u0[k], #[trigger] v[k]),
    ensures
        units_ok(v, tiles, rules),
{
    assert forall|a: int, b: int| 0 <= a < b < v.len() implies (#[trigger] v[a]).instance_id != (#[trigger] v[b]).instance_id by {
        assert(same_frame(u0[a], v[a]));
        assert(same_frame(u0[b], v[b]));
        assert(u0[a].instance_id != u0[b].instance_id);
    }
    assert forall|k: int| 0 <= k < v.len() implies unit_coords_ok(#[trigger] v[k]) by {
        assert(same_frame(u0[k], v[k]));
        assert(unit_coords_ok(u0[k]));
    }
    assert forall|k: int| 0 <= k < v.len() implies (#[trigger] v[k]).stats.current_health != 0 by {
        assert(same_frame(u0[k], v[k]));
        assert(u0[k].stats.current_health != 0);
    }
}

/// Taking unit `i` out of the tables (the one unit that may be dead)
/// leaves them consistent.
pub proof fn lemma_remove_unit(units: Seq<RuntimeUnit>, tiles: Seq<Option<Position>>, rules: Seq<UnitRules>, i: int)
    requires
        units_ok_except(units, tiles, rules, i),
        0 <= i < units.len(),
    ensures
        units_ok(units.remove(i), tiles.remove(i), rules.remove(i)),
{
    let v = units.remove(i);
    let tl = tiles.remove(i);
    assert forall|a: int, b: int| 0 <= a < b < v.len() implies (#[trigger] v[a]).instance_id != (#[trigger] v[b]).instance_id by {
        let a0 = if a < i { a } else { a + 1 };
        let b0 = if b < i { b } else { b + 1 };
        assert(v[a] == units[a0]);
        assert(v[b] == units[b0]);
        assert(units[a0].instance_id != units[b0].instance_id);
    }
    assert forall|k: int| 0 <= k < v.len() implies unit_coords_ok(#[trigger] v[k]) && v[k].stats.current_health != 0 by {
        let k0 = if k < i { k } else { k + 1 };
        assert(v[k] == units[k0]);
        assert(unit_coords_ok(units[k0]));
        assert(units[k0].stats.current_health != 0);
    }
    assert forall|a: int, b: int| 0 <= a < b < tl.len() && (#[trigger] tl[a]) is Some && (#[trigger] tl[b]) is Some
        implies tl[a] != tl[b] by {
        let a0 = if a < i { a } else { a + 1 };
        let b0 = if b < i { b } else { b + 1 };
        assert(tl[a] == tiles[a0]);
        assert(tl[b] == tiles[b0]);
    }
}

/// The per-unit tables are consistent (see `units_ok_except`).
pub open spec fn units_ok(units: Seq<RuntimeUnit>, tiles: Seq<Option<Position>>, rules: Seq<UnitRules>) -> bool {
    units_ok_except(units, tiles, rules, -1)
}

impl BattleState {
    /// The state's invariant: the per-unit tables are consistent (see
    /// `units_ok_except`), the queue is in time order, the buff book, the
    /// buff definitions and the projectiles in flight are well formed.
    pub open spec fn wf(&self) -> bool {
        &&& units_ok(self.units@, self.tiles@, self.rules@)
        &&& self.rest_ok()
    }

    /// The parts of the invariant that do not concern the units.
    pub open spec fn rest_ok(&self) -> bool {
        &&& queue_sorted(self.queue@)
        &&& self.buffs.wf()
        &&& defs_distinct(self.buff_defs@)
        &&& self.in_flight@.no_duplicates()
    }
}

/// Replacing unit `i` by `u` keeps the tables consistent when `u` keeps its
/// identifier and its coordinates within the limit, and is alive.
pub proof fn lemma_replace_unit(units: Seq<RuntimeUnit>, tiles: Seq<Option<Position>>, rules: Seq<UnitRules>, i: int, u: RuntimeUnit)
    requires
        units_ok(units, tiles, rules),
        0 <= i < units.len(),
        u.instance_id == units[i].instance_id,
        unit_coords_ok(u),
    ensures
        units_ok_except(units.update(i, u), tiles, rules, i),
        u.stats.current_health != 0 ==> units_ok(units.update(i, u), tiles, rules),
{
    let v = units.update(i, u);
    assert forall|a: int, b: int| 0 <= a < b < v.len() implies (#[trigger] v[a]).instance_id != (#[trigger] v[b]).instance_id by {
        assert(units[a].instance_id != units[b].instance_id);
    }
}

/// A unit brought up to `t` keeps its coordinates within the limit, and so
/// does it when it then stops.
pub proof fn lemma_advance_coords(u: RuntimeUnit, t: u64, s: crate::movement::ActionState)
    requires
        unit_coords_ok(u),
        !(s is Moving),
    ensures
        unit_coords_ok(crate::motion::advanced_unit(u, t)),
        unit_coords_ok(crate::waits::with_wait_state(crate::motion::advanced_unit(u, t), s)),
{
    if u.action_state is Moving {
        crate::motion::lemma_advance_never_overshoots(u, t);
    }
}

/// The index of the unit with identifier `id`, if any.
pub open spec fn index_of(units: Seq<RuntimeUnit>, id: u128) -> Option<int> {
    if exists|i: int| 0 <= i < units.len() && (#[trigger] units[i]).instance_id == id {
        Some(choose|i: int| 0 <= i < units.len() && (#[trigger] units[i]).instance_id == id)
    } else {
        None
    }
}

/// Finds the unit with identifier `id`.
pub fn find_unit_index(units: &Vec<RuntimeUnit>, id: u128) -> (r: Option<usize>)
    requires
        distinct_ids(units@),
    ensures
        r matches Some(i) ==> index_of(units@, id) == Some(i as int) && i < units@.len() && units@[i as int].instance_id == id,
        r is None ==> index_of(units@, id) is None,
{
    let mut i: usize = 0;
    while i < units.len()
        invariant
            0 <= i <= units@.len(),
            distinct_ids(units@),
            forall|j: int| 0 <= j < i ==> (#[trigger] units@[j]).instance_id != id,
        decreases units@.len() - i,
    {
        if units[i].instance_id == id {
            proof {
                let k = choose|k: int| 0 <= k < units@.len() && (#[trigger] units@[k]).instance_id == id;
                if k != ix(i) {
                    if k < ix(i) {
                        assert(units@[k].instance_id != units@[ix(i)].instance_id);
                    } else {
                        assert(units@[ix(i)].instance_id != units@[k].instance_id);
                    }
                }
            }
            return Some(i);
        }
        i = i + 1;
    }
    None
}

/// The position at which an event of time `t` enters the queue `q`: after
/// every event not later than it.
pub open spec fn insert_at(q: Seq<BattleEvent>, t: u64, k: int) -> bool {
    &&& 0 <= k <= q.len()
    &&& forall|j: int| 0 <= j < k ==> event_time(#[trigger] q[j]) <= t
    &&& k < q.len() ==> event_time(q[k]) > t
}

/// The queue `q` with `e` pushed: placed after every event not later than
/// it.
pub open spec fn pushed(q: Seq<BattleEvent>, e: BattleEvent) -> Seq<BattleEvent> {
    q.insert(choose|k: int| insert_at(q, event_time(e), k), e)
}

/// Pushes `e` onto the time-ordered queue `q`.
pub fn push_event(q: &mut Vec<BattleEvent>, e: BattleEvent)
    requires
        queue_sorted(old(q)@),
    ensures
        queue_sorted(final(q)@),
        final(q)@ == pushed(old(q)@, e),
{
    let t = time_of(&e);
    let mut k: usize = 0;
    while k < q.len()
        invariant
            0 <= k <= q@.len(),
            q@ == old(q)@,
            forall|j: int| 0 <= j < k ==> event_time(#[trigger] q@[j]) <= t,
        ensures
            0 <= k <= q@.len(),
            q@ == old(q)@,
            forall|j: int| 0 <= j < k ==> event_time(#[trigger] q@[j]) <= t,
            k < q@.len() ==> event_time(q@[k as int]) > t,
        decreases q@.len() - k,
    {
        if time_of(&q[k]) > t {
            break;
        }
        k = k + 1;
    }
    let ghost before = q@;
    proof {
        assert(insert_at(before, t, k as int));
        let c = choose|c: int| insert_at(before, t, c);
        if c < k {
            assert(event_time(before[c]) <= t);
        } else if c > k {
            assert(event_time(before[k as int]) <= t);
        }
    }
    q.insert(k, e);
    proof {
        let after = q@;
        assert(after =~= before.insert(k as int, e));
        assert forall|a: int, b: int| 0 <= a < b < after.len() implies event_time(#[trigger] after[a]) <= event_time(
            #[trigger] after[b],
        ) by {
            if b < k {
            } else if b == k {
                assert(after[a] == before[a]);
            } else if a < k {
                assert(after[b] == before[b - 1]);
                if a + 1 <= b - 1 {
                    assert(event_time(before[a]) <= event_time(before[b - 1]));
                }
            } else if a == k {
                assert(after[b] == before[b - 1]);
                assert(event_time(before[k as int]) <= event_time(before[b - 1]));
            } else {
                assert(after[a] == before[a - 1]);
                assert(after[b] == before[b - 1]);
            }
        }
    }
}

/// The targeting record of unit `i` of the state.
pub open spec fn candidate_at(units: Seq<RuntimeUnit>, tiles: Seq<Option<Position>>, rules: Seq<UnitRules>, i: int) -> TargetCandidate {
    TargetCandidate {
        id: units[i].instance_id,
        owner: units[i].owner,
        current_health: units[i].stats.current_health,
        tile: tiles[i],
        pos_x_units: units[i].pos_x_units,
        pos_y_units: units[i].pos_y_units,
        range_tiles: rules[i].range_tiles,
    }
}

/// The targeting records of all units of the state, in unit order.
pub open spec fn candidates_spec(units: Seq<RuntimeUnit>, tiles: Seq<Option<Position>>, rules: Seq<UnitRules>) -> Seq<TargetCandidate> {
    Seq::new(units.len(), |i: int| candidate_at(units, tiles, rules, i))
}

impl BattleState {
    /// The targeting records of all units.
    pub fn candidates(&self) -> (c: Vec<TargetCandidate>)
        requires
            self.wf(),
        ensures
            c@ == candidates_spec(self.units@, self.tiles@, self.rules@),
            distinct_unit_ids(c@),
    {
        let mut c: Vec<TargetCandidate> = Vec::new();
        let mut i: usize = 0;
        while i < self.units.len()
            invariant
                self.wf(),
                0 <= i <= self.units@.len(),
                c@.len() == i,
                forall|j: int| 0 <= j < i ==> #[trigger] c@[j] == candidate_at(self.units@, self.tiles@, self.rules@, j),
            decreases self.units@.len() - i,
        {
            let u = &self.units[i];
            c.push(
                TargetCandidate {
                    id: u.instance_id,
                    owner: u.owner,
                    current_health: u.stats.current_health,
                    tile: self.tiles[i],
                    pos_x_units: u.pos_x_units,
                    pos_y_units: u.pos_y_units,
                    range_tiles: self.rules[i].range_tiles,
                },
            );
            i = i + 1;
        }
        proof {
            assert(c@ =~= candidates_spec(self.units@, self.tiles@, self.rules@));
            assert forall|a: int, b: int| 0 <= a < b < c@.len() implies (#[trigger] c@[a]).id != (#[trigger] c@[b]).id by {
                assert(self.units@[a].instance_id != self.units@[b].instance_id);
            }
        }
        c
    }
}

/// The units with `id` dropped as everyone's target.
pub open spec fn cleared_targets(units: Seq<RuntimeUnit>, id: u128) -> Seq<RuntimeUnit> {
    Seq::new(
        units.len(),
        |k: int| if units[k].current_target == Some(id) { RuntimeUnit { current_target: None, ..units[k] } } else { units[k] },
    )
}

/// What the timeline records of a health change of unit `u` at `time_ms`
/// (killed by `killer`): the change, then for a death the stop of its
/// movement (if it moved) and the death.
pub open spec fn hp_records(time_ms: u64, u: RuntimeUnit, o: crate::vitals::HpOutcome, killer: Option<u128>) -> Seq<(u64, TimelineEvent)> {
    let change = seq![(time_ms, TimelineEvent::HpChanged { unit: u.instance_id, hp_before: o.change.hp_before, hp_after: o.change.hp_after })];
    if o.died {
        let stop = if o.stopped_moving {
            seq![(time_ms, TimelineEvent::MovementStopped {
                unit: u.instance_id,
                reason: MovementStopReason::Died,
                pos_x_units: u.pos_x_units,
                pos_y_units: u.pos_y_units,
            })]
        } else {
            seq![]
        };
        change + stop + seq![(time_ms, TimelineEvent::UnitDied { unit: u.instance_id, owner: u.owner, killer })]
    } else {
        change
    }
}

/// The snapshot kept of a unit that died on `tile`.
pub open spec fn snapshot_of(u: RuntimeUnit, tile: Position) -> UnitSnapshot {
    UnitSnapshot { id: u.instance_id, owner: u.owner, position: tile, stats: u.stats }
}

/// `b` is `a` with the units `units` and the timeline `timeline` (unit `i`
/// having had the health change `outcome` at `time_ms`, dealt by `killer`)
/// settled: the change is recorded, and a unit that died leaves the tables,
/// its snapshot (if it stood on a tile) goes to the graveyard, the buffs on
/// it are taken away and no unit targets it any more. The queue, the buff
/// definitions and the next projectile identifier stay.
pub open spec fn settled(
    a: BattleState,
    units: Seq<RuntimeUnit>,
    timeline: Seq<(u64, TimelineEvent)>,
    i: int,
    outcome: Option<crate::vitals::HpOutcome>,
    killer: Option<u128>,
    time_ms: u64,
    b: BattleState,
) -> bool {
    let u = units[i];
    let kept = b.units@ == units && b.tiles == a.tiles && b.rules == a.rules && b.buffs == a.buffs && b.graveyard
        == a.graveyard;
    &&& b.buff_defs == a.buff_defs
    &&& b.queue == a.queue
    &&& b.next_projectile_id == a.next_projectile_id
    &&& match outcome {
        None => kept && b.timeline@ == timeline,
        Some(o) => {
            &&& b.timeline@ == timeline + hp_records(time_ms, u, o, killer)
            &&& !o.died ==> kept
            &&& o.died ==> {
                &&& b.units@ == cleared_targets(units.remove(i), u.instance_id)
                &&& b.tiles@ == a.tiles@.remove(i)
                &&& b.rules@ == a.rules@.remove(i)
                &&& b.buffs.entries@ == kept_entries(a.buffs.entries@, BuffRemoval::AllOn { target: u.instance_id })
                &&& b.graveyard@ == a.graveyard@ + match a.tiles@[i] {
                    Some(t) => seq![snapshot_of(u, t)],
                    None => seq![],
                }
            }
        },
    }
}

/// Dropping a unit as everyone's target keeps the tables consistent.
pub proof fn lemma_cleared_targets_ok(units: Seq<RuntimeUnit>, tiles: Seq<Option<Position>>, rules: Seq<UnitRules>, id: u128)
    requires
        units_ok(units, tiles, rules),
    ensures
        units_ok(cleared_targets(units, id), tiles, rules),
{
    let v = cleared_targets(units, id);
    assert forall|k: int| 0 <= k < v.len() implies same_frame(units[k], #[trigger] v[k]) by {}
    lemma_same_frame_ok(units, v, tiles, rules);
}

impl BattleState {
    /// Settles the health change `outcome` of unit `i` at `time_ms` (see
    /// `settled`).
    pub fn settle_hp(&mut self, i: usize, outcome: Option<crate::vitals::HpOutcome>, killer: Option<u128>, time_ms: u64)
        requires
            old(self).rest_ok(),
            i < old(self).units@.len(),
            units_ok_except(old(self).units@, old(self).tiles@, old(self).rules@, i as int),
            (outcome matches Some(o) && o.died) || old(self).units@[i as int].stats.current_health != 0,
        ensures
            final(self).wf(),
            final(self).in_flight == old(self).in_flight,
            settled(*old(self), old(self).units@, old(self).timeline@, i as int, outcome, killer, time_ms, *final(self)),
    {
        let o = match outcome {
            Some(o) => o,
            None => return,
        };
        let ghost t0 = self.timeline@;
        let id = self.units[i].instance_id;
        self.timeline.push((time_ms, TimelineEvent::HpChanged { unit: id, hp_before: o.change.hp_before, hp_after: o.change.hp_after }));
        if !o.died {
            proof {
                assert(self.timeline@ =~= t0 + hp_records(time_ms, self.units@[i as int], o, killer));
            }
            return;
        }
        let owner = self.units[i].owner;
        if o.stopped_moving {
            let x = self.units[i].pos_x_units;
            let y = self.units[i].pos_y_units;
            self.timeline.push((time_ms, TimelineEvent::MovementStopped { unit: id, reason: MovementStopReason::Died, pos_x_units: x, pos_y_units: y }));
        }
        self.timeline.push((time_ms, TimelineEvent::UnitDied { unit: id, owner, killer }));
        proof {
            assert(self.timeline@ =~= t0 + hp_records(time_ms, self.units@[i as int], o, killer));
        }
        let ghost g0 = self.graveyard@;
        match self.tiles[i] {
            Some(t) => {
                let snap = UnitSnapshot { id, owner, position: t, stats: self.units[i].stats };
                self.graveyard.push(snap);
                proof {
                    assert(self.graveyard@ =~= g0 + seq![snapshot_of(self.units@[i as int], t)]);
                }
            },
            None => {
                proof {
                    assert(self.graveyard@ =~= g0 + Seq::<UnitSnapshot>::empty());
                }
            },
        }
        self.buffs.remove_where(BuffRemoval::AllOn { target: id });
        let ghost u0 = self.units@;
        let ghost tiles0 = self.tiles@;
        let ghost rules0 = self.rules@;
        self.units.remove(i);
        self.tiles.remove(i);
        self.rules.remove(i);
        proof {
            lemma_remove_unit(u0, tiles0, rules0, i as int);
        }
        let ghost u1 = self.units@;
        crate::triggers::clear_targets_of(&mut self.units, id);
        proof {
            assert(self.units@ =~= cleared_targets(u1, id));
            lemma_cleared_targets_ok(u1, self.tiles@, self.rules@, id);
        }
    }
}

/// The queue after an attack start of `attacker` with outcome `out`.
pub open spec fn queue_after_start(
    q: Seq<BattleEvent>,
    time_ms: u64,
    attacker: u128,
    target: Option<u128>,
    schedule_next: bool,
    out: AttackStartOutcome,
) -> Seq<BattleEvent> {
    match out {
        AttackStartOutcome::Ignored => q,
        AttackStartOutcome::Deferred { at_ms } => pushed(
            q,
            BattleEvent::AttackStart { time_ms: at_ms, attacker, target, schedule_next },
        ),
        AttackStartOutcome::NoTarget { movement_intent_at_ms } => pushed(q, BattleEvent::MovementIntent { time_ms: movement_intent_at_ms }),
        AttackStartOutcome::Started { target_id, stopped_movement, resolve_at_ms, next_attack_at_ms } => {
            let q1 = if stopped_movement { pushed(q, BattleEvent::MovementIntent { time_ms }) } else { q };
            let q2 = pushed(q1, BattleEvent::AttackResolve { time_ms: resolve_at_ms, attacker, target: target_id });
            match next_attack_at_ms {
                Some(n) => pushed(q2, BattleEvent::AttackStart { time_ms: n, attacker, target: None, schedule_next: true }),
                None => q2,
            }
        },
    }
}

/// What the timeline records of an attack start with outcome `out`, the
/// attacker being `u` afterwards.
pub open spec fn start_records(time_ms: u64, u: RuntimeUnit, out: AttackStartOutcome) -> Seq<(u64, TimelineEvent)> {
    match out {
        AttackStartOutcome::Started { target_id, stopped_movement, .. } => {
            let stop = if stopped_movement {
                seq![(time_ms, TimelineEvent::MovementStopped {
                    unit: u.instance_id,
                    reason: MovementStopReason::AttackStarted,
                    pos_x_units: u.pos_x_units,
                    pos_y_units: u.pos_y_units,
                })]
            } else {
                seq![]
            };
            stop + seq![(time_ms, TimelineEvent::AttackStart { attacker: u.instance_id, target: target_id })]
        },
        _ => seq![],
    }
}

/// `b` keeps the board of `a`: its tiles, rules, buffs, buff definitions,
/// graveyard and projectiles.
pub open spec fn keeps_board(a: BattleState, b: BattleState) -> bool {
    &&& b.tiles == a.tiles
    &&& b.rules == a.rules
    &&& b.buffs == a.buffs
    &&& b.buff_defs == a.buff_defs
    &&& b.graveyard == a.graveyard
    &&& b.in_flight == a.in_flight
    &&& b.next_projectile_id == a.next_projectile_id
}

/// `b` is `a` with the events `es` pushed onto its queue, in order.
pub open spec fn push_all(q: Seq<BattleEvent>, es: Seq<BattleEvent>) -> Seq<BattleEvent>
    decreases es.len(),
{
    if es.len() == 0 {
        q
    } else {
        pushed(push_all(q, es.drop_last()), es.last())
    }
}

/// What an attack start of `attacker` for `time_ms`, handled at `now_ms`,
/// makes of `a` (see `on_attack_start`).
pub open spec fn attack_started(
    a: BattleState,
    time_ms: u64,
    attacker: u128,
    target: Option<u128>,
    schedule_next: bool,
    now_ms: u64,
    b: BattleState,
) -> bool {
    &&& keeps_board(a, b)
    &&& match index_of(a.units@, attacker) {
        None => b == a,
        Some(i) => {
            let r = a.rules@[i];
            let (u2, out) = attack_start_spec(
                candidates_spec(a.units@, a.tiles@, a.rules@),
                a.units@[i],
                a.tiles@[i],
                r.range_tiles,
                target,
                schedule_next,
                time_ms,
                now_ms,
                r.windup_ms,
            );
            &&& b.units@ == a.units@.update(i, u2)
            &&& b.queue@ == queue_after_start(a.queue@, time_ms, attacker, target, schedule_next, out)
            &&& b.timeline@ == a.timeline@ + start_records(time_ms, u2, out)
        },
    }
}

/// `b` is `a` with a miss of `attacker` on `target` at `time_ms` recorded.
pub open spec fn missed(a: BattleState, time_ms: u64, attacker: u128, target: u128, b: BattleState) -> bool {
    &&& keeps_board(a, b)
    &&& b.units == a.units
    &&& b.queue == a.queue
    &&& b.timeline@ == a.timeline@.push((time_ms, TimelineEvent::AttackMiss { attacker, target }))
}

/// The range policy of a unit with rules `r`.
pub open spec fn attack_policy(r: UnitRules) -> crate::targets::BasicAttackRangePolicy {
    crate::targets::range_policy_spec(
        crate::targets::basic_attack_delivery_spec(Some(delivery_kind(r.delivery))),
        crate::targets::basic_attack_range_tiles_spec(Some(r.range_tiles)),
    )
}

/// What the resolution `res` of an attack of unit `ai` (`attacker`) on unit
/// `ti` (`target`) at `time_ms`, leaving them as `ua` and `ut`, makes of
/// `a`: a rejected attack is a miss; a hit is settled; a launched
/// projectile, under the next free identifier, is put in flight and its
/// hit queued (a miss when no identifier is free).
pub open spec fn resolution_settled(
    a: BattleState,
    ai: int,
    ti: int,
    time_ms: u64,
    attacker: u128,
    target: u128,
    res: BasicAttackResolution,
    ua: RuntimeUnit,
    ut: RuntimeUnit,
    b: BattleState,
) -> bool {
    let mid = a.units@.update(ai, ua).update(ti, ut);
    let miss = a.timeline@.push((time_ms, TimelineEvent::AttackMiss { attacker, target }));
    match res {
        BasicAttackResolution::Rejected => {
            &&& keeps_board(a, b)
            &&& b.units@ == mid
            &&& b.queue == a.queue
            &&& b.timeline@ == miss
        },
        BasicAttackResolution::Hit { target: outcome, .. } => {
            &&& b.in_flight == a.in_flight
            &&& settled(a, mid, a.timeline@, ti, outcome, Some(attacker), time_ms, b)
        },
        BasicAttackResolution::Launch { attacker_tile, target_tile, speed_units_per_ms, .. } => {
            let id = a.next_projectile_id;
            &&& b.units@ == mid
            &&& b.tiles == a.tiles
            &&& b.rules == a.rules
            &&& b.buffs == a.buffs
            &&& b.buff_defs == a.buff_defs
            &&& b.graveyard == a.graveyard
            &&& if id < u128::MAX && !a.in_flight@.contains(id) {
                &&& b.next_projectile_id == id + 1
                &&& b.in_flight@ == a.in_flight@.push(id)
                &&& b.queue@ == pushed(
                    a.queue@,
                    BattleEvent::ProjectileHit {
                        time_ms: crate::projectiles::impact_ms_spec(attacker_tile, target_tile, speed_units_per_ms, time_ms) as u64,
                        projectile_id: id,
                        attacker,
                        target,
                    },
                )
                &&& b.timeline@ == a.timeline@.push((time_ms, TimelineEvent::ProjectileLaunched { projectile_id: id, attacker, target }))
            } else {
                &&& b.next_projectile_id == id
                &&& b.in_flight == a.in_flight
                &&& b.queue == a.queue
                &&& b.timeline@ == miss
            }
        },
    }
}

/// What the hit of a basic attack of `attacker` on `target` at `time_ms`
/// makes of `a` (see `on_attack_resolve`).
pub open spec fn attack_resolved(a: BattleState, time_ms: u64, attacker: u128, target: u128, b: BattleState) -> bool {
    match index_of(a.units@, attacker) {
        None => b == a,
        Some(ai) => match index_of(a.units@, target) {
            None => missed(a, time_ms, attacker, target, b),
            Some(ti) => if ti == ai {
                missed(a, time_ms, attacker, target, b)
            } else {
                exists|res: BasicAttackResolution, ua: RuntimeUnit, ut: RuntimeUnit|
                    #[trigger] resolve_rel(
                        a.units@[ai],
                        a.tiles@[ai],
                        a.units@[ti],
                        a.tiles@[ti],
                        attack_policy(a.rules@[ai]),
                        a.rules@[ai].delivery,
                        Seq::empty(),
                        Seq::empty(),
                        time_ms,
                        res,
                        ua,
                        ut,
                    ) && resolution_settled(a, ai, ti, time_ms, attacker, target, res, ua, ut, b)
            },
        },
    }
}

/// What the landing `res` of a projectile of unit `ai` (`attacker`) on unit
/// `ti` (`target`) at `time_ms`, leaving the projectiles `fl` in flight and
/// the units as `ua` and `ut`, makes of `a`: a hit is settled, a miss
/// recorded.
pub open spec fn landing_settled(
    a: BattleState,
    ai: int,
    ti: int,
    time_ms: u64,
    attacker: u128,
    target: u128,
    fl: Seq<u128>,
    res: ProjectileHitOutcome,
    ua: RuntimeUnit,
    ut: RuntimeUnit,
    b: BattleState,
) -> bool {
    let mid = a.units@.update(ai, ua).update(ti, ut);
    let unchanged = b.tiles == a.tiles && b.rules == a.rules && b.buffs == a.buffs && b.buff_defs == a.buff_defs
        && b.graveyard == a.graveyard && b.next_projectile_id == a.next_projectile_id && b.queue == a.queue
        && b.units@ == mid;
    &&& b.in_flight@ == fl
    &&& match res {
        ProjectileHitOutcome::Hit { target: outcome, .. } => settled(a, mid, a.timeline@, ti, outcome, Some(attacker), time_ms, b),
        ProjectileHitOutcome::BaseHit { target: outcome } => settled(a, mid, a.timeline@, ti, outcome, Some(attacker), time_ms, b),
        ProjectileHitOutcome::Miss => unchanged && b.timeline@ == a.timeline@.push(
            (time_ms, TimelineEvent::AttackMiss { attacker, target }),
        ),
        ProjectileHitOutcome::AlreadyApplied => unchanged && b.timeline == a.timeline,
    }
}

/// The attack of the last snapshot of unit `id` in the graveyard `g`, or
/// zero when it has none.
pub open spec fn fallen_attack(g: Seq<UnitSnapshot>, id: u128) -> u32
    decreases g.len(),
{
    if g.len() == 0 {
        0
    } else if g.last().id == id {
        g.last().stats.attack
    } else {
        fallen_attack(g.drop_last(), id)
    }
}

/// What the landing of projectile `projectile_id` of `attacker` on
/// `target` at `time_ms` makes of `a` (see `on_projectile_hit`): a
/// projectile not in flight changes nothing; one whose target is gone is
/// taken out of flight and recorded as a miss; one whose attacker is gone
/// (dead) deals the base damage of the attack its snapshot kept (none
/// without one) and is settled; otherwise it lands as `apply_projectile_hit`
/// says, between two distinct units.
pub open spec fn projectile_landed(a: BattleState, time_ms: u64, projectile_id: u128, attacker: u128, target: u128, b: BattleState) -> bool {
    if !a.in_flight@.contains(projectile_id) {
        b == a
    } else {
        match index_of(a.units@, target) {
            None => {
                &&& crate::projectiles::landed(a.in_flight@, b.in_flight@, projectile_id)
                &&& b.units == a.units
                &&& b.tiles == a.tiles
                &&& b.rules == a.rules
                &&& b.buffs == a.buffs
                &&& b.buff_defs == a.buff_defs
                &&& b.graveyard == a.graveyard
                &&& b.next_projectile_id == a.next_projectile_id
                &&& b.queue == a.queue
                &&& b.timeline@ == a.timeline@.push((time_ms, TimelineEvent::AttackMiss { attacker, target }))
            },
            Some(ti) => match index_of(a.units@, attacker) {
                None => {
                    let t0 = a.units@[ti];
                    let base = base_damage_spec(fallen_attack(a.graveyard@, attacker) as int, t0.stats.defense as int);
                    let (t1, o) = hp_change_spec(t0, max_int(t0.stats.current_health - base, 0), HpChangeReason::BasicAttack, time_ms);
                    &&& crate::projectiles::landed(a.in_flight@, b.in_flight@, projectile_id)
                    &&& settled(a, a.units@.update(ti, t1), a.timeline@, ti, o, Some(attacker), time_ms, b)
                },
                Some(ai) => if ti == ai {
                    b == a
                } else {
                    exists|fl: Seq<u128>, res: ProjectileHitOutcome, ua: RuntimeUnit, ut: RuntimeUnit|
                        #[trigger] crate::projectiles::projectile_rel(
                            a.in_flight@,
                            projectile_id,
                            a.units@[ai],
                            true,
                            a.units@[ti],
                            Seq::empty(),
                            Seq::empty(),
                            time_ms,
                            fl,
                            res,
                            ua,
                            ut,
                        ) && landing_settled(a, ai, ti, time_ms, attacker, target, fl, res, ua, ut, b)
                },
            },
        }
    }
}

/// The attack kept for unit `id` in the graveyard (see `fallen_attack`).
pub fn find_fallen_attack(g: &Vec<UnitSnapshot>, id: u128) -> (r: u32)
    ensures
        r == fallen_attack(g@, id),
{
    let mut r: u32 = 0;
    let mut i: usize = 0;
    proof {
        assert(g@.take(0) =~= Seq::<UnitSnapshot>::empty());
    }
    while i < g.len()
        invariant
            0 <= i <= g@.len(),
            r == fallen_attack(g@.take(i as int), id),
        decreases g@.len() - i,
    {
        proof {
            assert(g@.take(i as int + 1).drop_last() =~= g@.take(i as int));
            assert(g@.take(i as int + 1).last() == g@[i as int]);
        }
        if g[i].id == id {
            r = g[i].stats.attack;
        }
        i = i + 1;
    }
    proof {
        assert(g@.take(g@.len() as int) =~= g@);
    }
    r
}

impl BattleState {
    /// An attack start of `attacker` for `time_ms`, handled at `now_ms`:
    /// the attacker takes its step (see `attack_start_spec`, with its range
    /// and wind-up from its rules and the targeting records of all units),
    /// and the events and records that follow are queued and kept.
    pub fn on_attack_start(&mut self, time_ms: u64, attacker: u128, target: Option<u128>, schedule_next: bool, now_ms: u64)
        requires
            old(self).wf(),
            time_ms <= MAX_BATTLE_TIME_MS,
        ensures
            final(self).wf(),
            attack_started(*old(self), time_ms, attacker, target, schedule_next, now_ms, *final(self)),
    {
        let i = match find_unit_index(&self.units, attacker) {
            Some(i) => i,
            None => return,
        };
        let c = self.candidates();
        let tile = self.tiles[i];
        let r = self.rules[i];
        let ghost units0 = self.units@;
        let mut u = self.units.remove(i);
        proof {
            assert(u == units0[i as int]);
            assert(unit_coords_ok(u));
        }
        let out = u.start_basic_attack(tile, r.range_tiles, &c, target, schedule_next, time_ms, now_ms, r.windup_ms);
        proof {
            lemma_advance_coords(units0[i as int], time_ms, crate::movement::ActionState::Idle);
            lemma_replace_unit(units0, self.tiles@, self.rules@, i as int, u);
        }
        let id = u.instance_id;
        let x = u.pos_x_units;
        let y = u.pos_y_units;
        self.units.insert(i, u);
        proof {
            assert(self.units@ =~= units0.update(i as int, u));
        }
        let ghost t0 = self.timeline@;
        match out {
            AttackStartOutcome::Ignored => {},
            AttackStartOutcome::Deferred { at_ms } => {
                push_event(&mut self.queue, BattleEvent::AttackStart { time_ms: at_ms, attacker, target, schedule_next });
            },
            AttackStartOutcome::NoTarget { movement_intent_at_ms } => {
                push_event(&mut self.queue, BattleEvent::MovementIntent { time_ms: movement_intent_at_ms });
            },
            AttackStartOutcome::Started { target_id, stopped_movement, resolve_at_ms, next_attack_at_ms } => {
                if stopped_movement {
                    self.timeline.push((time_ms, TimelineEvent::MovementStopped { unit: id, reason: MovementStopReason::AttackStarted, pos_x_units: x, pos_y_units: y }));
                    push_event(&mut self.queue, BattleEvent::MovementIntent { time_ms });
                }
                self.timeline.push((time_ms, TimelineEvent::AttackStart { attacker: id, target: target_id }));
                push_event(&mut self.queue, BattleEvent::AttackResolve { time_ms: resolve_at_ms, attacker, target: target_id });
                match next_attack_at_ms {
                    Some(n) => {
                        push_event(&mut self.queue, BattleEvent::AttackStart { time_ms: n, attacker, target: None, schedule_next: true });
                    },
                    None => {},
                }
            },
        }
        proof {
            assert(self.timeline@ =~= t0 + start_records(time_ms, u, out));
        }
    }
}

/// A health change keeps a unit's identifier and keeps its coordinates
/// within the limit.
pub proof fn lemma_hp_change_coords(u: RuntimeUnit, hp_after: int, reason: HpChangeReason, now_ms: u64)
    requires
        unit_coords_ok(u),
    ensures
        unit_coords_ok(hp_change_spec(u, hp_after, reason, now_ms).0),
        hp_change_spec(u, hp_after, reason, now_ms).0.instance_id == u.instance_id,
{
    let hp_before = u.stats.current_health;
    let changed = RuntimeUnit { stats: UnitStats { current_health: hp_after as u32, ..u.stats }, ..u };
    let gain = resonance_from_hp_loss(hp_before, hp_after as u32);
    let (after_gain, resonance) = if hp_after < hp_before && reason == HpChangeReason::BasicAttack && gain > 0 {
        add_resonance_spec(changed, gain as u32, now_ms, hp_after > 0)
    } else {
        (changed, None)
    };
    assert(unit_coords_ok(after_gain));
    lemma_advance_coords(after_gain, now_ms, ActionState::Dead);
}

/// Squared distances between units within the coordinate limit fit in
/// `i128`.
pub proof fn lemma_distance_fits(a: TargetCandidate, b: TargetCandidate)
    requires
        coord_ok(a.pos_x_units),
        coord_ok(a.pos_y_units),
        coord_ok(b.pos_x_units),
        coord_ok(b.pos_y_units),
    ensures
        unit_distance_sq(a, b) <= i128::MAX,
{
    let dx = a.pos_x_units - b.pos_x_units;
    let dy = a.pos_y_units - b.pos_y_units;
    assert(dx * dx <= 0x2000_0000_0000_0000 * 0x2000_0000_0000_0000) by (nonlinear_arith)
        requires
            -0x2000_0000_0000_0000 <= dx <= 0x2000_0000_0000_0000,
    ;
    assert(dy * dy <= 0x2000_0000_0000_0000 * 0x2000_0000_0000_0000) by (nonlinear_arith)
        requires
            -0x2000_0000_0000_0000 <= dy <= 0x2000_0000_0000_0000,
    ;
}

/// The attack delivery kind of a basic attack delivered as `d`.
pub open spec fn delivery_kind(d: BasicAttackDelivery) -> AttackDelivery {
    match d {
        BasicAttackDelivery::Projectile { .. } => AttackDelivery::Projectile,
        _ => AttackDelivery::Instant,
    }
}

fn delivery_kind_of(d: BasicAttackDelivery) -> (k: AttackDelivery)
    ensures
        k == delivery_kind(d),
{
    match d {
        BasicAttackDelivery::Projectile { .. } => AttackDelivery::Projectile,
        _ => AttackDelivery::Instant,
    }
}

/// Takes units `a` and `b` (distinct indices) out of `units`.
fn take_two(units: &mut Vec<RuntimeUnit>, a: usize, b: usize) -> (r: (RuntimeUnit, RuntimeUnit))
    requires
        a < old(units)@.len(),
        b < old(units)@.len(),
        a != b,
    ensures
        r.0 == old(units)@[a as int],
        r.1 == old(units)@[b as int],
        final(units)@ == (if a < b {
            old(units)@.remove(b as int).remove(a as int)
        } else {
            old(units)@.remove(a as int).remove(b as int)
        }),
{
    if a < b {
        let ub = units.remove(b);
        let ua = units.remove(a);
        (ua, ub)
    } else {
        let ua = units.remove(a);
        let ub = units.remove(b);
        (ua, ub)
    }
}

/// Puts units `a` and `b` back at their indices, undoing `take_two`.
fn put_two(units: &mut Vec<RuntimeUnit>, a: usize, ua: RuntimeUnit, b: usize, ub: RuntimeUnit, Ghost(orig): Ghost<Seq<RuntimeUnit>>)
    requires
        a < orig.len(),
        b < orig.len(),
        a != b,
        old(units)@ == (if a < b { orig.remove(b as int).remove(a as int) } else { orig.remove(a as int).remove(b as int) }),
    ensures
        final(units)@ == orig.update(a as int, ua).update(b as int, ub),
{
    if a < b {
        units.insert(a, ua);
        units.insert(b, ub);
    } else {
        units.insert(b, ub);
        units.insert(a, ua);
    }
    assert(units@ =~= orig.update(a as int, ua).update(b as int, ub));
}

impl BattleState {
    /// The hit of a basic attack of `attacker` on `target` at `time_ms`
    /// (see `resolve_basic_attack`, with the attacker's delivery and range
    /// from its rules and no trigger effects; see `attack_resolved`). An
    /// unknown (dead) attacker does nothing; an unknown target, or a
    /// rejected attack, is recorded as a miss; a launched projectile is put
    /// in flight and its hit queued; a hit settles the target's health
    /// change (see `settle_hp`).
    #[verifier::rlimit(50)]
    pub fn on_attack_resolve(&mut self, time_ms: u64, attacker: u128, target: u128)
        requires
            old(self).wf(),
            time_ms <= MAX_BATTLE_TIME_MS,
        ensures
            final(self).wf(),
            attack_resolved(*old(self), time_ms, attacker, target, *final(self)),
    {
        let ai = match find_unit_index(&self.units, attacker) {
            Some(i) => i,
            None => return,
        };
        if self.units[ai].is_dead() {
            return;
        }
        let ti = match find_unit_index(&self.units, target) {
            Some(i) => i,
            None => {
                self.timeline.push((time_ms, TimelineEvent::AttackMiss { attacker, target }));
                return;
            },
        };
        if ai == ti {
            self.timeline.push((time_ms, TimelineEvent::AttackMiss { attacker, target }));
            return;
        }
        let r = self.rules[ai];
        let policy = basic_attack_range_policy(Some(delivery_kind_of(r.delivery)), Some(r.range_tiles));
        let at = self.tiles[ai];
        let tt = self.tiles[ti];
        let ghost u0 = self.units@;
        let none: Vec<Effect> = Vec::new();
        let (mut a, mut t) = take_two(&mut self.units, ai, ti);
        proof {
            assert(unit_coords_ok(u0[ai as int]));
            assert(unit_coords_ok(u0[ti as int]));
            lemma_distance_fits(candidate_view(a, at), candidate_view(t, tt));
            assert(none@ + none@ =~= Seq::<Effect>::empty());
            lemma_hp_change_coords(t, 0, HpChangeReason::BasicAttack, time_ms);
        }
        let ghost a0 = a;
        let ghost t0 = t;
        let nos = none.as_slice();
        let res = resolve_basic_attack(&mut a, at, &mut t, tt, policy, r.delivery, nos, nos, time_ms);
        proof {
            assert(nos@ =~= Seq::<Effect>::empty());
            assert(policy == attack_policy(r));
            assert(resolve_rel(u0[ai as int], at, u0[ti as int], tt, attack_policy(r), r.delivery, Seq::empty(), Seq::empty(), time_ms, res, a, t));
        }
        let ghost ua = a;
        let ghost ut = t;
        let ghost s0 = *old(self);
        proof {
            let fd = final_damage_spec(u0[ai as int].stats.attack as int, u0[ti as int].stats.defense as int, none@, none@);
            let remaining = max_int(u0[ti as int].stats.current_health - fd, 0);
            lemma_hp_change_coords(u0[ti as int], remaining, HpChangeReason::BasicAttack, time_ms);
        }
        put_two(&mut self.units, ai, a, ti, t, Ghost(u0));
        proof {
            lemma_replace_unit(u0, self.tiles@, self.rules@, ai as int, a);
            lemma_replace_unit(u0.update(ai as int, a), self.tiles@, self.rules@, ti as int, t);
        }
        match res {
            BasicAttackResolution::Rejected => {
                self.timeline.push((time_ms, TimelineEvent::AttackMiss { attacker, target }));
            },
            BasicAttackResolution::Hit { target: outcome, .. } => {
                self.settle_hp(ti, outcome, Some(attacker), time_ms);
            },
            BasicAttackResolution::Launch { attacker_tile, target_tile, speed_units_per_ms, .. } => {
                if self.next_projectile_id < u128::MAX && !vec_contains(&self.in_flight, self.next_projectile_id) {
                    let id = self.next_projectile_id;
                    self.next_projectile_id = id + 1;
                    self.in_flight.push(id);
                    let impact = projectile_impact_ms(attacker_tile, target_tile, speed_units_per_ms, time_ms);
                    push_event(&mut self.queue, BattleEvent::ProjectileHit { time_ms: impact, projectile_id: id, attacker, target });
                    self.timeline.push((time_ms, TimelineEvent::ProjectileLaunched { projectile_id: id, attacker, target }));
                } else {
                    self.timeline.push((time_ms, TimelineEvent::AttackMiss { attacker, target }));
                }
            },
        }
        proof {
            assert(resolution_settled(s0, ai as int, ti as int, time_ms, attacker, target, res, ua, ut, *self));
        }
    }

    /// The landing of projectile `projectile_id` of `attacker`, which is
    /// gone, on unit `ti` at `time_ms`: the projectile leaves the air and
    /// the target takes the base damage of the attack the attacker's
    /// snapshot kept (see `projectile_landed`).
    fn fallen_projectile_hit(&mut self, time_ms: u64, projectile_id: u128, attacker: u128, ti: usize)
        requires
            old(self).wf(),
            time_ms <= MAX_BATTLE_TIME_MS,
            ti < old(self).units@.len(),
            old(self).in_flight@.contains(projectile_id),
        ensures
            final(self).wf(),
            ({
                let a = *old(self);
                let t0 = a.units@[ti as int];
                let base = base_damage_spec(fallen_attack(a.graveyard@, attacker) as int, t0.stats.defense as int);
                let (t1, o) = hp_change_spec(t0, max_int(t0.stats.current_health - base, 0), HpChangeReason::BasicAttack, time_ms);
                &&& crate::projectiles::landed(a.in_flight@, final(self).in_flight@, projectile_id)
                &&& settled(a, a.units@.update(ti as int, t1), a.timeline@, ti as int, o, Some(attacker), time_ms, *final(self))
            }),
    {
        crate::projectiles::take_projectile(&mut self.in_flight, projectile_id);
        let atk = find_fallen_attack(&self.graveyard, attacker);
        let ghost u0 = self.units@;
        let mut t = self.units.remove(ti);
        proof {
            assert(t == u0[ti as int]);
            assert(unit_coords_ok(t));
            let base = base_damage_spec(atk as int, t.stats.defense as int);
            lemma_hp_change_coords(t, max_int(t.stats.current_health - base, 0), HpChangeReason::BasicAttack, time_ms);
        }
        let diff = atk.saturating_sub(t.stats.defense);
        let base: u32 = if diff >= 1 { diff } else { 1 };
        let outcome = t.apply_damage_and_record(base, HpChangeReason::BasicAttack, time_ms);
        proof {
            lemma_replace_unit(u0, self.tiles@, self.rules@, ti as int, t);
        }
        self.units.insert(ti, t);
        proof {
            assert(self.units@ =~= u0.update(ti as int, t));
        }
        self.settle_hp(ti, outcome, Some(attacker), time_ms);
    }

    /// The landing of projectile `projectile_id` of `attacker` on `target`
    /// at `time_ms` (see `projectile_landed`): with no target left it
    /// misses; with no attacker left it deals the base damage its snapshot
    /// kept; otherwise it lands as `apply_projectile_hit` says, with no
    /// trigger effects. A hit settles the target's health change (see
    /// `settle_hp`). An attacker that is its own target changes nothing.
    #[verifier::rlimit(50)]
    pub fn on_projectile_hit(&mut self, time_ms: u64, projectile_id: u128, attacker: u128, target: u128)
        requires
            old(self).wf(),
            time_ms <= MAX_BATTLE_TIME_MS,
        ensures
            final(self).wf(),
            projectile_landed(*old(self), time_ms, projectile_id, attacker, target, *final(self)),
    {
        if !vec_contains(&self.in_flight, projectile_id) {
            return;
        }
        let ti = match find_unit_index(&self.units, target) {
            Some(i) => i,
            None => {
                crate::projectiles::take_projectile(&mut self.in_flight, projectile_id);
                self.timeline.push((time_ms, TimelineEvent::AttackMiss { attacker, target }));
                return;
            },
        };
        let ai = match find_unit_index(&self.units, attacker) {
            Some(i) => i,
            None => {
                self.fallen_projectile_hit(time_ms, projectile_id, attacker, ti);
                return;
            },
        };
        if ai == ti {
            return;
        }
        let ghost u0 = self.units@;
        let none: Vec<Effect> = Vec::new();
        let (mut a, mut t) = take_two(&mut self.units, ai, ti);
        proof {
            assert(unit_coords_ok(u0[ti as int]));
            assert(none@ + none@ =~= Seq::<Effect>::empty());
            let base = base_damage_spec(u0[ai as int].stats.attack as int, u0[ti as int].stats.defense as int);
            lemma_hp_change_coords(u0[ti as int], max_int(u0[ti as int].stats.current_health - base, 0), HpChangeReason::BasicAttack, time_ms);
            let fd = final_damage_spec(u0[ai as int].stats.attack as int, u0[ti as int].stats.defense as int, none@, none@);
            let remaining = max_int(u0[ti as int].stats.current_health - fd, 0);
            lemma_hp_change_coords(u0[ti as int], remaining, HpChangeReason::BasicAttack, time_ms);
        }
        let nos = none.as_slice();
        let ghost fl0 = self.in_flight@;
        let res = apply_projectile_hit(&mut self.in_flight, projectile_id, &mut a, true, &mut t, nos, nos, time_ms);
        proof {
            assert(nos@ =~= Seq::<Effect>::empty());
        }
        let ghost ua = a;
        let ghost ut = t;
        let ghost fl = self.in_flight@;
        let ghost s0 = *old(self);
        put_two(&mut self.units, ai, a, ti, t, Ghost(u0));
        proof {
            lemma_replace_unit(u0, self.tiles@, self.rules@, ai as int, a);
            lemma_replace_unit(u0.update(ai as int, a), self.tiles@, self.rules@, ti as int, t);
        }
        match res {
            ProjectileHitOutcome::Hit { target: outcome, .. } => {
                self.settle_hp(ti, outcome, Some(attacker), time_ms);
            },
            ProjectileHitOutcome::BaseHit { target: outcome } => {
                self.settle_hp(ti, outcome, Some(attacker), time_ms);
            },
            ProjectileHitOutcome::Miss => {
                self.timeline.push((time_ms, TimelineEvent::AttackMiss { attacker, target }));
            },
            ProjectileHitOutcome::AlreadyApplied => {},
        }
        proof {
            assert(crate::projectiles::projectile_rel(
                s0.in_flight@, projectile_id, u0[ai as int], true, u0[ti as int], Seq::empty(), Seq::empty(), time_ms, fl, res, ua, ut,
            ));
            assert(landing_settled(s0, ai as int, ti as int, time_ms, attacker, target, fl, res, ua, ut, *self));
        }
    }
}

/// Whether `id` occurs in `ids`.
pub fn vec_contains(ids: &Vec<u128>, id: u128) -> (r: bool)
    ensures
        r == ids@.contains(id),
{
    crate::autocast::contains_id(ids, id)
}

/// The definition of buff `buff_id`, if it is defined.
pub open spec fn def_of(defs: Seq<(u64, BuffDef)>, buff_id: u64) -> Option<BuffDef> {
    if exists|k: int| 0 <= k < defs.len() && (#[trigger] defs[k]).0 == buff_id {
        Some(defs[choose|k: int| 0 <= k < defs.len() && (#[trigger] defs[k]).0 == buff_id].1)
    } else {
        None
    }
}

/// Finds the definition of buff `buff_id`.
pub fn find_def(defs: &Vec<(u64, BuffDef)>, buff_id: u64) -> (r: Option<BuffDef>)
    requires
        defs_distinct(defs@),
    ensures
        r == def_of(defs@, buff_id),
{
    let mut k: usize = 0;
    while k < defs.len()
        invariant
            0 <= k <= defs@.len(),
            defs_distinct(defs@),
            forall|j: int| 0 <= j < k ==> (#[trigger] defs@[j]).0 != buff_id,
        decreases defs@.len() - k,
    {
        if defs[k].0 == buff_id {
            proof {
                let c = choose|c: int| 0 <= c < defs@.len() && (#[trigger] defs@[c]).0 == buff_id;
                if c != ix(k) {
                    if c < ix(k) {
                        assert(defs@[c].0 != defs@[ix(k)].0);
                    } else {
                        assert(defs@[ix(k)].0 != defs@[c].0);
                    }
                }
            }
            return Some(defs[k].1);
        }
        k = k + 1;
    }
    None
}

/// What an autocast start of `caster` at `time_ms` makes of `a` (see
/// `on_autocast_start`).
pub open spec fn autocast_begun(a: BattleState, time_ms: u64, caster: u128, cause: u64, b: BattleState) -> bool {
    match index_of(a.units@, caster) {
        None => b == a,
        Some(i) => {
            let (u2, out) = autocast_start_spec(
                a.units@[i],
                time_ms,
                silenced_by(a.buffs.entries@, caster),
                cause,
                a.rules@[i].cast,
                a.tiles@[i] is Some,
            );
            &&& keeps_board(a, b)
            &&& b.units@ == a.units@.update(i, u2)
            &&& match out {
                AutoCastStartOutcome::Deferred { at_ms } => b.queue@ == pushed(
                    a.queue@,
                    BattleEvent::AutoCastStart { time_ms: at_ms, caster, cause },
                ) && b.timeline == a.timeline,
                AutoCastStartOutcome::Started { cast_end_ms, movement_intent_at_ms } => {
                    let q1 = match movement_intent_at_ms {
                        Some(at) => pushed(a.queue@, BattleEvent::MovementIntent { time_ms: at }),
                        None => a.queue@,
                    };
                    let t1 = match movement_intent_at_ms {
                        Some(at) => a.timeline@.push(
                            (
                                time_ms,
                                TimelineEvent::MovementStopped {
                                    unit: caster,
                                    reason: MovementStopReason::CastStarted,
                                    pos_x_units: u2.pos_x_units,
                                    pos_y_units: u2.pos_y_units,
                                },
                            ),
                        ),
                        None => a.timeline@,
                    };
                    &&& b.queue@ == pushed(q1, BattleEvent::AutoCastEnd { time_ms: cast_end_ms, caster })
                    &&& b.timeline@ == t1.push((time_ms, TimelineEvent::AutoCastStart { caster }))
                },
                _ => b.queue == a.queue && b.timeline == a.timeline,
            }
        },
    }
}

/// What an autocast end of `caster` at `time_ms` makes of `a` (see
/// `on_autocast_end`).
pub open spec fn autocast_finished(a: BattleState, time_ms: u64, caster: u128, b: BattleState) -> bool {
    match index_of(a.units@, caster) {
        None => b == a,
        Some(i) => {
            let (u2, retry) = autocast_end_spec(a.units@[i], time_ms);
            match retry {
                Some(at) => {
                    &&& keeps_board(a, b)
                    &&& b.units@ == a.units@.update(i, u2)
                    &&& b.queue@ == pushed(a.queue@, BattleEvent::AutoCastEnd { time_ms: at, caster })
                    &&& b.timeline == a.timeline
                },
                None => exists|m: BattleState| #[trigger] cast_ended(a, i, u2, time_ms, caster, m) && autocasts_started(m, time_ms, 0, b),
            }
        },
    }
}

/// `m` is `a` with unit `i` (`caster`) done casting as `u2` at `time_ms`,
/// and the end recorded.
pub open spec fn cast_ended(a: BattleState, i: int, u2: RuntimeUnit, time_ms: u64, caster: u128, m: BattleState) -> bool {
    &&& keeps_board(a, m)
    &&& m.units@ == a.units@.update(i, u2)
    &&& m.queue == a.queue
    &&& m.timeline@ == a.timeline@.push((time_ms, TimelineEvent::AutoCastEnd { caster }))
}

/// A projectile lands once: after projectile `projectile_id` landed
/// between two known, distinct units, any later landing of it changes
/// nothing.
pub proof fn lemma_projectile_lands_once_in_battle(
    a: BattleState,
    b: BattleState,
    c: BattleState,
    t1: u64,
    t2: u64,
    projectile_id: u128,
    attacker: u128,
    target: u128,
    attacker2: u128,
    target2: u128,
)
    requires
        a.in_flight@.contains(projectile_id),
        index_of(a.units@, attacker) is Some,
        index_of(a.units@, target) is Some,
        index_of(a.units@, attacker) != index_of(a.units@, target),
        projectile_landed(a, t1, projectile_id, attacker, target, b),
        projectile_landed(b, t2, projectile_id, attacker2, target2, c),
    ensures
        c == b,
        !b.in_flight@.contains(projectile_id),
{
    let ai = index_of(a.units@, attacker)->0;
    let ti = index_of(a.units@, target)->0;
    let (fl, res, ua, ut) = choose|fl: Seq<u128>, res: ProjectileHitOutcome, ua: RuntimeUnit, ut: RuntimeUnit|
        #[trigger] crate::projectiles::projectile_rel(
            a.in_flight@,
            projectile_id,
            a.units@[ai],
            true,
            a.units@[ti],
            Seq::empty(),
            Seq::empty(),
            t1,
            fl,
            res,
            ua,
            ut,
        ) && landing_settled(a, ai, ti, t1, attacker, target, fl, res, ua, ut, b);
    assert(crate::projectiles::landed(a.in_flight@, fl, projectile_id));
    assert(!fl.contains(projectile_id));
}

/// Whether a silence is on unit `id`.
pub open spec fn silenced_by(entries: Seq<crate::buffs::BuffEntry>, id: u128) -> bool {
    exists|k: int| 0 <= k < entries.len() && (#[trigger] entries[k]).key.target_instance_id == id && entries[k].kind == BuffKind::Silence
}

/// The cast starts at `time_ms` of the casters in `started`, in order.
pub open spec fn cast_starts(started: Seq<(u128, u64)>, time_ms: u64) -> Seq<BattleEvent> {
    started.map_values(|p: (u128, u64)| BattleEvent::AutoCastStart { time_ms, caster: p.0, cause: p.1 })
}

/// `started` lists, in increasing identifier order, the units of `a` whose
/// pending autocast may start at `time_ms` (see `autocast_step`), each with
/// the cause it records.
pub open spec fn casts_due(a: BattleState, time_ms: u64, cause: u64, started: Seq<(u128, u64)>) -> bool {
    &&& crate::autocast::pairs_increasing(started)
    &&& forall|p: (u128, u64)|
        started.contains(p) <==> exists|i: int|
            0 <= i < a.units@.len() && (#[trigger] a.units@[i]).instance_id == p.0 && autocast_step(
                a.units@[i],
                silenced_by(a.buffs.entries@, a.units@[i].instance_id),
                time_ms,
                cause,
            ).1 == Some(p.1)
}

/// What starting the pending autocasts at `time_ms` makes of `a` (see
/// `start_pending_autocasts`): each unit takes its autocast step, and the
/// cast starts are queued in increasing caster identifier order.
pub open spec fn autocasts_started(a: BattleState, time_ms: u64, cause: u64, b: BattleState) -> bool {
    &&& keeps_board(a, b)
    &&& b.timeline == a.timeline
    &&& b.units@.len() == a.units@.len()
    &&& forall|k: int|
        0 <= k < a.units@.len() ==> #[trigger] b.units@[k] == autocast_step(
            a.units@[k],
            silenced_by(a.buffs.entries@, a.units@[k].instance_id),
            time_ms,
            cause,
        ).0
    &&& exists|started: Seq<(u128, u64)>|
        #[trigger] casts_due(a, time_ms, cause, started) && b.queue@ == push_all(a.queue@, cast_starts(started, time_ms))
}

impl BattleState {
    /// The identifiers of the silenced units.
    fn silenced_ids(&self) -> (r: Vec<u128>)
        ensures
            forall|k: int|
                0 <= k < self.units@.len() ==> r@.contains(#[trigger] self.units@[k].instance_id) == silenced_by(
                    self.buffs.entries@,
                    self.units@[k].instance_id,
                ),
    {
        let mut r: Vec<u128> = Vec::new();
        let mut i: usize = 0;
        while i < self.units.len()
            invariant
                0 <= i <= self.units@.len(),
                forall|x: u128|
                    r@.contains(x) <==> exists|j: int|
                        0 <= j < i && (#[trigger] self.units@[j]).instance_id == x && silenced_by(self.buffs.entries@, x),
            decreases self.units@.len() - i,
        {
            let id = self.units[i].instance_id;
            let ghost r0 = r@;
            let is_silenced_unit = self.buffs.has_buff_kind(id, BuffKind::Silence);
            if is_silenced_unit {
                r.push(id);
            }
            proof {
                if is_silenced_unit {
                    assert(r@ == r0.push(id));
                } else {
                    assert(r@ == r0);
                }
                assert forall|x: u128|
                    r@.contains(x) <==> exists|j: int|
                        0 <= j < i + 1 && (#[trigger] self.units@[j]).instance_id == x && silenced_by(self.buffs.entries@, x) by {
                    if r@.contains(x) && !r0.contains(x) {
                        assert(r@ == r0.push(id));
                        assert(r@[r0.len() as int] == id);
                        assert(x == id);
                        assert(self.units@[i as int].instance_id == x);
                    }
                    if r0.contains(x) {
                        let idx = choose|idx: int| 0 <= idx < r0.len() && r0[idx] == x;
                        assert(r@[idx] == x);
                    }
                    if exists|j: int| 0 <= j < i + 1 && (#[trigger] self.units@[j]).instance_id == x && silenced_by(self.buffs.entries@, x) {
                        let j = choose|j: int| 0 <= j < i + 1 && (#[trigger] self.units@[j]).instance_id == x && silenced_by(self.buffs.entries@, x);
                        if j == i {
                            assert(r@.last() == id);
                        } else {
                            assert(r0.contains(x));
                        }
                    }
                }
            }
            i = i + 1;
        }
        proof {
            assert forall|k: int| 0 <= k < self.units@.len() implies r@.contains(#[trigger] self.units@[k].instance_id) == silenced_by(
                self.buffs.entries@,
                self.units@[k].instance_id,
            ) by {
                if silenced_by(self.buffs.entries@, self.units@[k].instance_id) {
                    assert(self.units@[k].instance_id == self.units@[k].instance_id);
                }
            }
        }
        r
    }

    /// Starts the pending autocasts that may start at `time_ms` (see
    /// `schedule_pending_autocasts`): each queues its cast start.
    pub fn start_pending_autocasts(&mut self, time_ms: u64, cause: u64)
        requires
            old(self).wf(),
        ensures
            final(self).wf(),
            autocasts_started(*old(self), time_ms, cause, *final(self)),
    {
        let silenced = self.silenced_ids();
        let ghost u0 = self.units@;
        let started = schedule_pending_autocasts(&mut self.units, &silenced, time_ms, cause);
        proof {
            let v = self.units@;
            assert forall|k: int| 0 <= k < v.len() implies same_frame(u0[k], #[trigger] v[k]) by {
                assert(v[k] == autocast_step(u0[k], is_silenced(silenced@, u0[k].instance_id), time_ms, cause).0);
            }
            lemma_same_frame_ok(u0, v, self.tiles@, self.rules@);
            assert forall|k: int| 0 <= k < u0.len() implies is_silenced(silenced@, #[trigger] u0[k].instance_id) == silenced_by(
                old(self).buffs.entries@,
                u0[k].instance_id,
            ) by {}
            assert(casts_due(*old(self), time_ms, cause, started@));
        }
        let ghost es = cast_starts(started@, time_ms);
        let ghost q0 = self.queue@;
        let ghost u1 = self.units@;
        let mut j: usize = 0;
        while j < started.len()
            invariant
                0 <= j <= started@.len(),
                es.len() == started@.len(),
                es == cast_starts(started@, time_ms),
                queue_sorted(self.queue@),
                self.queue@ == push_all(q0, es.take(j as int)),
                units_ok(self.units@, self.tiles@, self.rules@),
                self.rest_ok(),
                keeps_board(*old(self), *self),
                self.timeline == old(self).timeline,
                self.units@ == u1,
            decreases started@.len() - j,
        {
            let (caster, c) = started[j];
            push_event(&mut self.queue, BattleEvent::AutoCastStart { time_ms, caster, cause: c });
            proof {
                assert(es.take(j as int + 1).drop_last() =~= es.take(j as int));
                assert(es.take(j as int + 1).last() == es[j as int]);
            }
            j = j + 1;
        }
        proof {
            assert(es.take(es.len() as int) =~= es);
        }
    }

    /// An autocast start of `caster` at `time_ms` (see
    /// `autocast_start_spec`, with the silence from the buff book, the cast
    /// timing from its rules and whether it stands on a tile); the events
    /// and records that follow are queued and kept.
    pub fn on_autocast_start(&mut self, time_ms: u64, caster: u128, cause: u64)
        requires
            old(self).wf(),
            time_ms <= MAX_BATTLE_TIME_MS,
        ensures
            final(self).wf(),
            autocast_begun(*old(self), time_ms, caster, cause, *final(self)),
    {
        let i = match find_unit_index(&self.units, caster) {
            Some(i) => i,
            None => return,
        };
        let silenced = self.buffs.has_buff_kind(caster, BuffKind::Silence);
        let skill = self.rules[i].cast;
        let placed = self.tiles[i].is_some();
        let ghost u0 = self.units@;
        let mut u = self.units.remove(i);
        proof {
            assert(u == u0[i as int]);
            assert(unit_coords_ok(u));
        }
        let out = u.begin_autocast(time_ms, silenced, caster_cause(cause), skill, placed);
        proof {
            match skill {
                Some(timing) => {
                    let end = crate::autocast::cast_end_spec(time_ms, timing);
                    lemma_advance_coords(crate::autocast::casting_unit(u0[i as int], end, timing), time_ms, ActionState::Idle);
                },
                None => {},
            }
            lemma_replace_unit(u0, self.tiles@, self.rules@, i as int, u);
        }
        let x = u.pos_x_units;
        let y = u.pos_y_units;
        self.units.insert(i, u);
        proof {
            assert(self.units@ =~= u0.update(i as int, u));
        }
        match out {
            AutoCastStartOutcome::Deferred { at_ms } => {
                push_event(&mut self.queue, BattleEvent::AutoCastStart { time_ms: at_ms, caster, cause });
            },
            AutoCastStartOutcome::Started { cast_end_ms, movement_intent_at_ms } => {
                match movement_intent_at_ms {
                    Some(at) => {
                        self.timeline.push((time_ms, TimelineEvent::MovementStopped { unit: caster, reason: MovementStopReason::CastStarted, pos_x_units: x, pos_y_units: y }));
                        push_event(&mut self.queue, BattleEvent::MovementIntent { time_ms: at });
                    },
                    None => {},
                }
                self.timeline.push((time_ms, TimelineEvent::AutoCastStart { caster }));
                push_event(&mut self.queue, BattleEvent::AutoCastEnd { time_ms: cast_end_ms, caster });
            },
            _ => {},
        }
    }

    /// An autocast end of `caster` at `time_ms` (see `autocast_end_spec`):
    /// a busy caster tries again later; otherwise the end is recorded and
    /// the pending autocasts that may start do.
    pub fn on_autocast_end(&mut self, time_ms: u64, caster: u128)
        requires
            old(self).wf(),
        ensures
            final(self).wf(),
            autocast_finished(*old(self), time_ms, caster, *final(self)),
    {
        let i = match find_unit_index(&self.units, caster) {
            Some(i) => i,
            None => return,
        };
        let ghost u0 = self.units@;
        let mut u = self.units.remove(i);
        proof {
            assert(u == u0[i as int]);
        }
        let retry = u.finish_autocast(time_ms);
        proof {
            lemma_replace_unit(u0, self.tiles@, self.rules@, i as int, u);
        }
        self.units.insert(i, u);
        proof {
            assert(self.units@ =~= u0.update(i as int, u));
        }
        match retry {
            Some(at) => {
                push_event(&mut self.queue, BattleEvent::AutoCastEnd { time_ms: at, caster });
            },
            None => {
                self.timeline.push((time_ms, TimelineEvent::AutoCastEnd { caster }));
                let ghost m = *self;
                proof {
                    assert(cast_ended(*old(self), i as int, u, time_ms, caster, m));
                }
                self.start_pending_autocasts(time_ms, 0);
            },
        }
    }
}

/// The cause a cast records.
fn caster_cause(cause: u64) -> (r: u64)
    ensures
        r == cause,
{
    cause
}

/// The unit `u` and the outcome after a heal of `flat` plus `percent`
/// percent at `now_ms` (see `apply_heal`).
pub open spec fn healed(u: RuntimeUnit, flat: i32, percent: i32, now_ms: u64) -> (RuntimeUnit, Option<crate::vitals::HpOutcome>) {
    let delta = crate::vitals::heal_delta_spec(u.stats.max_health, flat, percent);
    if u.stats.current_health == 0 || delta == 0 {
        (u, None)
    } else {
        hp_change_spec(
            u,
            crate::vitals::hp_after_delta(u.stats.current_health, u.stats.max_health, delta),
            HpChangeReason::Command,
            now_ms,
        )
    }
}

/// `m` is `a`, with the timeline `tl`, after a tick of the buff under `key`
/// dealt `damage` (if any) to its target at `time_ms`, settled with the
/// caster as the killer.
pub open spec fn tick_hurt(
    a: BattleState,
    tl: Seq<(u64, TimelineEvent)>,
    time_ms: u64,
    key: BuffInstanceKey,
    damage: Option<i32>,
    m: BattleState,
) -> bool {
    let unhurt = keeps_board(a, m) && m.units == a.units && m.queue == a.queue && m.timeline@ == tl;
    match damage {
        None => unhurt,
        Some(d) => match index_of(a.units@, key.target_instance_id) {
            None => unhurt,
            Some(i) => {
                let (u2, o) = healed(a.units@[i], (-d) as i32, 0, time_ms);
                &&& m.in_flight == a.in_flight
                &&& settled(a, a.units@.update(i, u2), tl, i, o, Some(key.caster_instance_id), time_ms, m)
            },
        },
    }
}

/// `b` is `m` with the next tick of the buff under `key` after `time_ms`
/// planned (see `BuffBook::advance_tick`) and queued.
pub open spec fn tick_planned(m: BattleState, time_ms: u64, key: BuffInstanceKey, def: BuffDef, b: BattleState) -> bool {
    let s = m.buffs.entries@;
    let next = match crate::buffs::buff_at(s, key) {
        Some(bf) => crate::buffs::next_tick_spec(time_ms, def, bf.expires_at_ms),
        None => None,
    };
    &&& b.units == m.units
    &&& b.tiles == m.tiles
    &&& b.rules == m.rules
    &&& b.buff_defs == m.buff_defs
    &&& b.graveyard == m.graveyard
    &&& b.in_flight == m.in_flight
    &&& b.next_projectile_id == m.next_projectile_id
    &&& b.timeline == m.timeline
    &&& b.buffs.entries@ == match crate::buffs::buff_at(s, key) {
        Some(bf) => crate::buffs::with_next_tick(s, key, next),
        None => s,
    }
    &&& b.queue@ == match next {
        Some(t) => pushed(m.queue@, BattleEvent::BuffTick { time_ms: t, key }),
        None => m.queue@,
    }
}

/// What the tick of the buff under `key` at `time_ms` makes of `a` (see
/// `on_buff_tick`).
pub open spec fn buff_ticked(a: BattleState, time_ms: u64, key: BuffInstanceKey, b: BattleState) -> bool {
    match def_of(a.buff_defs@, key.buff_id) {
        None => b == a,
        Some(def) => match crate::buffs::buff_at(a.buffs.entries@, key) {
            None => b == a,
            Some(bf) => if bf.next_tick_ms != Some(time_ms) {
                b == a
            } else {
                exists|m: BattleState|
                    #[trigger] tick_hurt(
                        a,
                        a.timeline@.push((time_ms, TimelineEvent::BuffTick { key })),
                        time_ms,
                        key,
                        crate::buffs::tick_damage_spec(def.kind, bf.stacks),
                        m,
                    ) && tick_planned(m, time_ms, key, def, b)
            },
        },
    }
}

/// `m` is `a` with the buff under `key` expired at `time_ms` and recorded.
pub open spec fn expiry_recorded(a: BattleState, time_ms: u64, key: BuffInstanceKey, m: BattleState) -> bool {
    &&& m.units == a.units
    &&& m.tiles == a.tiles
    &&& m.rules == a.rules
    &&& m.buff_defs == a.buff_defs
    &&& m.graveyard == a.graveyard
    &&& m.in_flight == a.in_flight
    &&& m.next_projectile_id == a.next_projectile_id
    &&& m.queue == a.queue
    &&& m.buffs.entries@ == crate::buffs::without_key(a.buffs.entries@, key)
    &&& m.timeline@ == a.timeline@.push((time_ms, TimelineEvent::BuffExpired { key }))
}

/// One millisecond after `t`, saturating.
pub open spec fn next_ms(t: u64) -> u64 {
    if t < u64::MAX { (t + 1) as u64 } else { t }
}

/// What the expiry of the buff under `key` at `time_ms` makes of `a` (see
/// `on_buff_expire`): nothing but for a defined buff that is due; that one
/// expires, and when it held its target from acting, the pending autocasts
/// that may start a millisecond later do.
pub open spec fn buff_expired(a: BattleState, time_ms: u64, key: BuffInstanceKey, b: BattleState) -> bool {
    let s = a.buffs.entries@;
    let unchanged = b.units == a.units && b.tiles == a.tiles && b.rules == a.rules && b.buff_defs == a.buff_defs
        && b.graveyard == a.graveyard && b.in_flight == a.in_flight && b.next_projectile_id == a.next_projectile_id
        && b.queue == a.queue && b.timeline == a.timeline && b.buffs.entries@ == s;
    match def_of(a.buff_defs@, key.buff_id) {
        None => b == a,
        Some(_) => match crate::buffs::buff_at(s, key) {
            None => unchanged,
            Some(bf) => if time_ms < bf.expires_at_ms {
                unchanged
            } else {
                let released = crate::buffs::releases_actions(s[choose|i: int| 0 <= i < s.len() && (#[trigger] s[i]).key == key].kind);
                exists|m: BattleState|
                    #[trigger] expiry_recorded(a, time_ms, key, m) && if released {
                        autocasts_started(m, next_ms(time_ms), 0, b)
                    } else {
                        b == m
                    }
            },
        },
    }
}

/// What buff `buff_id` of `caster` applied to `target` at `time_ms` for
/// `duration_ms` makes of `a` (see `on_apply_buff`).
pub open spec fn buff_applied(a: BattleState, time_ms: u64, caster: u128, target: u128, buff_id: u64, duration_ms: u64, b: BattleState) -> bool {
    match def_of(a.buff_defs@, buff_id) {
        None => b == a,
        Some(def) => {
            let key = BuffInstanceKey { caster_instance_id: caster, target_instance_id: target, buff_id };
            let alive = match index_of(a.units@, target) {
                Some(i) => a.units@[i].stats.current_health != 0,
                None => false,
            };
            let (entries, applied) = apply_spec(a.buffs.entries@, key, def, time_ms, duration_ms, alive);
            &&& b.buffs.entries@ == entries
            &&& b.tiles == a.tiles
            &&& b.rules == a.rules
            &&& b.buff_defs == a.buff_defs
            &&& b.graveyard == a.graveyard
            &&& b.in_flight == a.in_flight
            &&& b.next_projectile_id == a.next_projectile_id
            &&& match applied {
                None => b.units == a.units && b.queue == a.queue && b.timeline == a.timeline,
                Some(ap) => {
                    let tl = a.timeline@.push((time_ms, TimelineEvent::BuffApplied { key, duration_ms }));
                    let q1 = match ap.tick_at_ms {
                        Some(t) => pushed(a.queue@, BattleEvent::BuffTick { time_ms: t, key }),
                        None => a.queue@,
                    };
                    let q2 = pushed(q1, BattleEvent::BuffExpire { time_ms: ap.expires_at_ms, key });
                    match (ap.hard_cc_lock_until_ms, index_of(a.units@, target)) {
                        (Some(l), Some(i)) => {
                            let u2 = hard_cc_spec(a.units@[i], l, time_ms);
                            let stopped = crate::interrupts::is_interruptible(a.units@[i].action_state);
                            &&& b.units@ == a.units@.update(i, u2)
                            &&& b.queue@ == if stopped { pushed(q2, BattleEvent::MovementIntent { time_ms: l }) } else { q2 }
                            &&& b.timeline@ == if stopped {
                                tl.push(
                                    (
                                        time_ms,
                                        TimelineEvent::MovementStopped {
                                            unit: target,
                                            reason: MovementStopReason::HardCC,
                                            pos_x_units: u2.pos_x_units,
                                            pos_y_units: u2.pos_y_units,
                                        },
                                    ),
                                )
                            } else {
                                tl
                            }
                        },
                        _ => b.units == a.units && b.queue@ == q2 && b.timeline@ == tl,
                    }
                },
            }
        },
    }
}

impl BattleState {
    /// Buff `buff_id` of `caster` applied to `target` at `time_ms` for
    /// `duration_ms` (see `BuffBook::apply`): undefined buffs change
    /// nothing; an applied buff is recorded, its first tick and its expiry
    /// are queued, and a hard crowd control holds its target (see
    /// `hard_cc_spec`), which stops moving until the hold ends.
    pub fn on_apply_buff(&mut self, time_ms: u64, caster: u128, target: u128, buff_id: u64, duration_ms: u64)
        requires
            old(self).wf(),
            time_ms <= MAX_BATTLE_TIME_MS,
        ensures
            final(self).wf(),
            buff_applied(*old(self), time_ms, caster, target, buff_id, duration_ms, *final(self)),
    {
        let def = match find_def(&self.buff_defs, buff_id) {
            Some(d) => d,
            None => return,
        };
        let key = BuffInstanceKey { caster_instance_id: caster, target_instance_id: target, buff_id };
        let ti = find_unit_index(&self.units, target);
        let alive = match ti {
            Some(i) => !self.units[i].is_dead(),
            None => false,
        };
        let applied = match self.buffs.apply(key, def, time_ms, duration_ms, alive) {
            Some(a) => a,
            None => return,
        };
        self.timeline.push((time_ms, TimelineEvent::BuffApplied { key, duration_ms }));
        match applied.tick_at_ms {
            Some(t) => push_event(&mut self.queue, BattleEvent::BuffTick { time_ms: t, key }),
            None => {},
        }
        push_event(&mut self.queue, BattleEvent::BuffExpire { time_ms: applied.expires_at_ms, key });
        match applied.hard_cc_lock_until_ms {
            Some(lock) => {
                let i = match ti {
                    Some(i) => i,
                    None => return,
                };
                let ghost u0 = self.units@;
                let mut u = self.units.remove(i);
                proof {
                    assert(u == u0[i as int]);
                    assert(unit_coords_ok(u));
                    let v = u0[i as int];
                    let held = RuntimeUnit {
                        next_action_time: if v.next_action_time >= lock { v.next_action_time } else { lock },
                        action_locks: crate::types::ActionLocks {
                            movement_until_ms: crate::types::extend_lock(v.action_locks.movement_until_ms, lock),
                            basic_attack_until_ms: crate::types::extend_lock(v.action_locks.basic_attack_until_ms, lock),
                            resonance_gain_until_ms: crate::types::extend_lock(v.action_locks.resonance_gain_until_ms, lock),
                        },
                        current_target: None,
                        ..v
                    };
                    lemma_advance_coords(held, time_ms, ActionState::Idle);
                }
                let was_moving = u.apply_hard_cc_lock(lock, time_ms);
                proof {
                    lemma_replace_unit(u0, self.tiles@, self.rules@, i as int, u);
                }
                let x = u.pos_x_units;
                let y = u.pos_y_units;
                self.units.insert(i, u);
                proof {
                    assert(self.units@ =~= u0.update(i as int, u));
                }
                if was_moving {
                    self.timeline.push((time_ms, TimelineEvent::MovementStopped { unit: target, reason: MovementStopReason::HardCC, pos_x_units: x, pos_y_units: y }));
                    push_event(&mut self.queue, BattleEvent::MovementIntent { time_ms: lock });
                }
            },
            None => {},
        }
    }

    /// The tick of the buff under `key` at `time_ms`: a tick not due does
    /// nothing; a due one is recorded, its damage (if any) hurts the target
    /// (see `apply_heal`, with the caster as the killer), and its next tick
    /// is planned and queued (see `BuffBook::advance_tick`).
    pub fn on_buff_tick(&mut self, time_ms: u64, key: BuffInstanceKey)
        requires
            old(self).wf(),
            time_ms <= MAX_BATTLE_TIME_MS,
        ensures
            final(self).wf(),
            buff_ticked(*old(self), time_ms, key, *final(self)),
    {
        let def = match find_def(&self.buff_defs, key.buff_id) {
            Some(d) => d,
            None => return,
        };
        let damage = match self.buffs.tick_damage(key, def, time_ms) {
            Some(d) => d,
            None => return,
        };
        self.timeline.push((time_ms, TimelineEvent::BuffTick { key }));
        let ghost tl = self.timeline@;
        match damage {
            Some(d) => {
                match find_unit_index(&self.units, key.target_instance_id) {
                    Some(i) => {
                        let ghost u0 = self.units@;
                        let mut u = self.units.remove(i);
                        proof {
                            assert(u == u0[i as int]);
                            assert(unit_coords_ok(u));
                            let delta = crate::vitals::heal_delta_spec(u.stats.max_health, (-d) as i32, 0);
                            lemma_hp_change_coords(
                                u,
                                crate::vitals::hp_after_delta(u.stats.current_health, u.stats.max_health, delta),
                                HpChangeReason::Command,
                                time_ms,
                            );
                        }
                        let outcome = u.apply_heal(-d, 0, time_ms);
                        proof {
                            assert((u, outcome) == healed(u0[i as int], (-d) as i32, 0, time_ms));
                            lemma_replace_unit(u0, self.tiles@, self.rules@, i as int, u);
                        }
                        self.units.insert(i, u);
                        proof {
                            assert(self.units@ =~= u0.update(i as int, u));
                        }
                        self.settle_hp(i, outcome, Some(key.caster_instance_id), time_ms);
                    },
                    None => {},
                }
            },
            None => {},
        }
        let ghost m = *self;
        proof {
            assert(tick_hurt(*old(self), tl, time_ms, key, damage, m));
        }
        match self.buffs.advance_tick(key, def, time_ms) {
            Some(next) => push_event(&mut self.queue, BattleEvent::BuffTick { time_ms: next, key }),
            None => {},
        }
        proof {
            assert(tick_planned(m, time_ms, key, def, *self));
        }
    }

    /// The expiry of the buff under `key` at `time_ms` (see
    /// `BuffBook::expire`): a due expiry is recorded, and when the buff
    /// held its target from acting, the pending autocasts that may start a
    /// millisecond later do.
    pub fn on_buff_expire(&mut self, time_ms: u64, key: BuffInstanceKey)
        requires
            old(self).wf(),
        ensures
            final(self).wf(),
            buff_expired(*old(self), time_ms, key, *final(self)),
    {
        match find_def(&self.buff_defs, key.buff_id) {
            Some(_) => {},
            None => return,
        }
        let released = match self.buffs.expire(key, time_ms) {
            Some(r) => r,
            None => return,
        };
        self.timeline.push((time_ms, TimelineEvent::BuffExpired { key }));
        let ghost m = *self;
        proof {
            assert(expiry_recorded(*old(self), time_ms, key, m));
        }
        if released {
            self.start_pending_autocasts(time_ms.saturating_add(1), 0);
        }
    }
}

/// How a battle ended.
#[derive(Debug, Clone, Copy, PartialEq, Eq, Structural)]
pub struct BattleResult {
    pub winner: BattleWinner,
    pub end_time_ms: u64,
}

/// Why a battle could not be run to its end.
#[derive(Debug, Clone, Copy, PartialEq, Eq, Structural)]
pub enum GameError {
    /// More events came than the caller allowed.
    EventBudgetExhausted,
}

/// The winner among the units as they stand, or a draw while undecided.
pub open spec fn winner_or_draw(units: Seq<RuntimeUnit>, tiles: Seq<Option<Position>>, rules: Seq<UnitRules>) -> BattleWinner {
    match winner_spec(candidates_spec(units, tiles, rules)) {
        Some(w) => w,
        None => BattleWinner::Draw,
    }
}

/// The unit `u` and the change after its resonance changed by `amount`
/// at `now_ms` (see `modify_resonance`).
pub open spec fn resonance_spec(u: RuntimeUnit, amount: i32, now_ms: u64, allow_autocast_when_full: bool) -> (RuntimeUnit, Option<crate::vitals::ResonanceChange>) {
    if amount > 0 {
        add_resonance_spec(u, amount as u32, now_ms, allow_autocast_when_full)
    } else {
        crate::vitals::lose_resonance_spec(u, -amount)
    }
}

/// What running command `cmd` at `now_ms` makes of `a` (see
/// `process_commands`).
#[verifier::opaque]
pub open spec fn command_run(a: BattleState, cmd: BattleCommand, now_ms: u64, b: BattleState) -> bool {
    let untouched = keeps_board(a, b) && b.units == a.units && b.timeline == a.timeline;
    match cmd {
        BattleCommand::ApplyHeal { target_id, flat, percent, source_id } => match index_of(a.units@, target_id) {
            None => b == a,
            Some(i) => {
                let (u2, o) = healed(a.units@[i], flat, percent, now_ms);
                &&& b.in_flight == a.in_flight
                &&& settled(a, a.units@.update(i, u2), a.timeline@, i, o, source_id, now_ms, b)
            },
        },
        BattleCommand::ScheduleAttack { attacker_id, target_id, time_ms } => untouched && b.queue@ == pushed(
            a.queue@,
            BattleEvent::AttackStart {
                time_ms: if now_ms + time_ms <= u64::MAX { (now_ms + time_ms) as u64 } else { u64::MAX },
                attacker: attacker_id,
                target: target_id,
                schedule_next: false,
            },
        ),
        BattleCommand::ApplyBuff { caster_id, target_id, buff_id, duration_ms } => untouched && b.queue@ == pushed(
            a.queue@,
            BattleEvent::ApplyBuff { time_ms: now_ms, caster: caster_id, target: target_id, buff_id, duration_ms },
        ),
        BattleCommand::ModifyResonance { target_id, amount, allow_autocast_when_full } => match index_of(a.units@, target_id) {
            None => b == a,
            Some(i) => {
                let (u2, change) = resonance_spec(a.units@[i], amount, now_ms, allow_autocast_when_full);
                &&& keeps_board(a, b)
                &&& b.queue == a.queue
                &&& b.units@ == a.units@.update(i, u2)
                &&& b.timeline@ == match change {
                    Some(c) => a.timeline@.push(
                        (now_ms, TimelineEvent::ResonanceChanged { unit: target_id, before: c.before, after: c.after, max: c.max }),
                    ),
                    None => a.timeline@,
                }
            },
        },
        _ => b == a,
    }
}

/// Whether command `cmd` takes health from its target in `a`.
#[verifier::opaque]
pub open spec fn command_hurts(a: BattleState, cmd: BattleCommand, now_ms: u64) -> bool {
    match cmd {
        BattleCommand::ApplyHeal { target_id, flat, percent, .. } => match index_of(a.units@, target_id) {
            None => false,
            Some(i) => healed(a.units@[i], flat, percent, now_ms).1 matches Some(o) && o.change.hp_after < o.change.hp_before,
        },
        _ => false,
    }
}

/// `states` and `counts` trace a run of `cmds` at `now_ms` from `a`: each
/// command takes the state before it to the one after it, and the count
/// goes up by one for each command that took health from its target.
pub open spec fn commands_trace(
    a: BattleState,
    cmds: Seq<BattleCommand>,
    now_ms: u64,
    states: Seq<BattleState>,
    counts: Seq<int>,
) -> bool {
    &&& states.len() == cmds.len() + 1
    &&& counts.len() == cmds.len() + 1
    &&& states[0] == a
    &&& counts[0] == 0
    &&& forall|i: int|
        0 <= i < cmds.len() ==> command_run(#[trigger] states[i], cmds[i], now_ms, states[i + 1]) && counts[i + 1] == counts[i]
            + if command_hurts(states[i], cmds[i], now_ms) {
            1int
        } else {
            0int
        }
}

/// What running `cmds` in order at `now_ms` makes of `a`, `n` of them
/// taking health from their target.
pub open spec fn commands_run(a: BattleState, cmds: Seq<BattleCommand>, now_ms: u64, b: BattleState, n: int) -> bool {
    exists|states: Seq<BattleState>, counts: Seq<int>|
        #[trigger] commands_trace(a, cmds, now_ms, states, counts) && states.last() == b && counts.last() == n
}

/// A trace of commands extends by one more command.
pub proof fn lemma_trace_push(
    a: BattleState,
    cmds: Seq<BattleCommand>,
    now_ms: u64,
    states: Seq<BattleState>,
    counts: Seq<int>,
    cmd: BattleCommand,
    b: BattleState,
)
    requires
        commands_trace(a, cmds, now_ms, states, counts),
        command_run(states.last(), cmd, now_ms, b),
    ensures
        commands_trace(
            a,
            cmds.push(cmd),
            now_ms,
            states.push(b),
            counts.push(counts.last() + if command_hurts(states.last(), cmd, now_ms) { 1int } else { 0int }),
        ),
{
    let c2 = cmds.push(cmd);
    let s2 = states.push(b);
    let n2 = counts.push(counts.last() + if command_hurts(states.last(), cmd, now_ms) { 1int } else { 0int });
    assert forall|i: int| 0 <= i < c2.len() implies command_run(#[trigger] s2[i], c2[i], now_ms, s2[i + 1]) && n2[i + 1] == n2[i]
        + if command_hurts(s2[i], c2[i], now_ms) {
        1int
    } else {
        0int
    } by {
        if i < cmds.len() {
            assert(s2[i] == states[i]);
            assert(s2[i + 1] == states[i + 1]);
            assert(c2[i] == cmds[i]);
            assert(command_run(states[i], cmds[i], now_ms, states[i + 1]));
        } else {
            assert(s2[i] == states.last());
        }
    }
}

/// What handling `e` at `now_ms` makes of `a`: each kind of event goes to
/// its handler (see `attack_started`, `attack_resolved`,
/// `projectile_landed`, `autocast_begun`, `autocast_finished`,
/// `buff_applied`, `buff_ticked` and `buff_expired`); movement events
/// change nothing.
pub open spec fn event_handled(a: BattleState, e: BattleEvent, now_ms: u64, b: BattleState) -> bool {
    match e {
        BattleEvent::AttackStart { time_ms, attacker, target, schedule_next } => attack_started(
            a,
            time_ms,
            attacker,
            target,
            schedule_next,
            now_ms,
            b,
        ),
        BattleEvent::AttackResolve { time_ms, attacker, target } => attack_resolved(a, time_ms, attacker, target, b),
        BattleEvent::ProjectileHit { time_ms, projectile_id, attacker, target } => projectile_landed(
            a,
            time_ms,
            projectile_id,
            attacker,
            target,
            b,
        ),
        BattleEvent::AutoCastStart { time_ms, caster, cause } => autocast_begun(a, time_ms, caster, cause, b),
        BattleEvent::AutoCastEnd { time_ms, caster } => autocast_finished(a, time_ms, caster, b),
        BattleEvent::ApplyBuff { time_ms, caster, target, buff_id, duration_ms } => buff_applied(
            a,
            time_ms,
            caster,
            target,
            buff_id,
            duration_ms,
            b,
        ),
        BattleEvent::BuffTick { time_ms, key } => buff_ticked(a, time_ms, key, b),
        BattleEvent::BuffExpire { time_ms, key } => buff_expired(a, time_ms, key, b),
        BattleEvent::MovementIntent { .. } => b == a,
        BattleEvent::MoveStep { .. } => b == a,
    }
}

impl BattleState {
    /// Runs command `cmd` at `now_ms` (see `command_run`); tells whether it
    /// took health from its target.
    pub fn run_command(&mut self, cmd: BattleCommand, now_ms: u64) -> (hurt: bool)
        requires
            old(self).wf(),
            now_ms <= MAX_BATTLE_TIME_MS,
        ensures
            final(self).wf(),
            command_run(*old(self), cmd, now_ms, *final(self)),
            hurt == command_hurts(*old(self), cmd, now_ms),
    {
        proof {
            reveal(command_run);
            reveal(command_hurts);
        }
        match cmd {
            BattleCommand::ApplyHeal { target_id, flat, percent, source_id } => {
                match find_unit_index(&self.units, target_id) {
                    Some(i) => {
                        let ghost u0 = self.units@;
                        let mut u = self.units.remove(i);
                        proof {
                            assert(u == u0[i as int]);
                            assert(unit_coords_ok(u));
                            let delta = crate::vitals::heal_delta_spec(u.stats.max_health, flat, percent);
                            lemma_hp_change_coords(
                                u,
                                crate::vitals::hp_after_delta(u.stats.current_health, u.stats.max_health, delta),
                                HpChangeReason::Command,
                                now_ms,
                            );
                        }
                        let outcome = u.apply_heal(flat, percent, now_ms);
                        proof {
                            assert((u, outcome) == healed(u0[i as int], flat, percent, now_ms));
                            lemma_replace_unit(u0, self.tiles@, self.rules@, i as int, u);
                        }
                        self.units.insert(i, u);
                        proof {
                            assert(self.units@ =~= u0.update(i as int, u));
                        }
                        let hurt = match outcome {
                            Some(o) => o.change.hp_after < o.change.hp_before,
                            None => false,
                        };
                        self.settle_hp(i, outcome, source_id, now_ms);
                        hurt
                    },
                    None => false,
                }
            },
            BattleCommand::ScheduleAttack { attacker_id, target_id, time_ms } => {
                push_event(
                    &mut self.queue,
                    BattleEvent::AttackStart { time_ms: now_ms.saturating_add(time_ms), attacker: attacker_id, target: target_id, schedule_next: false },
                );
                false
            },
            BattleCommand::ApplyBuff { caster_id, target_id, buff_id, duration_ms } => {
                push_event(
                    &mut self.queue,
                    BattleEvent::ApplyBuff { time_ms: now_ms, caster: caster_id, target: target_id, buff_id, duration_ms },
                );
                false
            },
            BattleCommand::ModifyResonance { target_id, amount, allow_autocast_when_full } => {
                match find_unit_index(&self.units, target_id) {
                    Some(i) => {
                        let ghost u0 = self.units@;
                        let mut u = self.units.remove(i);
                        proof {
                            assert(u == u0[i as int]);
                        }
                        let change = u.modify_resonance(amount, now_ms, allow_autocast_when_full);
                        proof {
                            assert((u, change) == resonance_spec(u0[i as int], amount, now_ms, allow_autocast_when_full));
                            assert(same_frame(u0[i as int], u));
                            assert(unit_coords_ok(u0[i as int]));
                            lemma_replace_unit(u0, self.tiles@, self.rules@, i as int, u);
                        }
                        self.units.insert(i, u);
                        proof {
                            assert(self.units@ =~= u0.update(i as int, u));
                        }
                        match change {
                            Some(c) => {
                                self.timeline.push(
                                    (now_ms, TimelineEvent::ResonanceChanged { unit: target_id, before: c.before, after: c.after, max: c.max }),
                                );
                            },
                            None => {},
                        }
                        false
                    },
                    None => false,
                }
            },
            _ => false,
        }
    }

    /// Runs `cmds` at `now_ms`, in order (see `command_run`): a heal (or
    /// hurt) changes its target's health (see `apply_heal`) and is settled
    /// (see `settle_hp`); a scheduled attack queues a triggered attack start
    /// `time_ms` later; a buff queues its application now; a resonance
    /// change is applied and recorded. Death notices need nothing (a death
    /// is settled where health reaches zero); abilities and stat modifiers
    /// are left to the skill and stat data. Returns how many commands took
    /// health from their target (saturating).
    #[verifier::rlimit(60)]
    #[verifier::spinoff_prover]
    pub fn process_commands(&mut self, cmds: &Vec<BattleCommand>, now_ms: u64) -> (damaged: u32)
        requires
            old(self).wf(),
            now_ms <= MAX_BATTLE_TIME_MS,
        ensures
            final(self).wf(),
            exists|n: int| #[trigger] commands_run(*old(self), cmds@, now_ms, *final(self), n) && damaged == if n <= u32::MAX {
                n
            } else {
                u32::MAX as int
            },
    {
        let mut damaged: u32 = 0;
        let ghost mut n: int = 0;
        let ghost mut states: Seq<BattleState> = seq![*old(self)];
        let ghost mut counts: Seq<int> = seq![0int];
        let mut k: usize = 0;
        while k < cmds.len()
            invariant
                self.wf(),
                0 <= k <= cmds@.len(),
                now_ms <= MAX_BATTLE_TIME_MS,
                commands_trace(*old(self), cmds@.take(k as int), now_ms, states, counts),
                states.last() == *self,
                counts.last() == n,
                damaged == if n <= u32::MAX { n } else { u32::MAX as int },
            decreases cmds@.len() - k,
        {
            let ghost m = *self;
            let hurt = self.run_command(cmds[k], now_ms);
            let ghost hurts = hurt;
            if hurt && damaged < u32::MAX {
                damaged = damaged + 1;
            }
            proof {
                assert(command_run(m, cmds@[k as int], now_ms, *self));
                lemma_trace_push(*old(self), cmds@.take(k as int), now_ms, states, counts, cmds@[k as int], *self);
                assert(cmds@.take(k as int).push(cmds@[k as int]) =~= cmds@.take(k as int + 1));
                n = n + if hurts { 1int } else { 0int };
                states = states.push(*self);
                counts = counts.push(n);
            }
            k = k + 1;
        }
        proof {
            assert(cmds@.take(cmds@.len() as int) =~= cmds@);
            assert(commands_trace(*old(self), cmds@, now_ms, states, counts));
            assert(commands_run(*old(self), cmds@, now_ms, *self, n));
        }
        damaged
    }

    /// Handles `e`, due at `now_ms`, by its kind (see `event_handled`).
    /// Movement intents and move steps are the business of the movement
    /// pass and change nothing here.
    pub fn process_event(&mut self, e: BattleEvent, now_ms: u64)
        requires
            old(self).wf(),
            event_time(e) <= MAX_BATTLE_TIME_MS,
            now_ms <= MAX_BATTLE_TIME_MS,
        ensures
            final(self).wf(),
            event_handled(*old(self), e, now_ms, *final(self)),
    {
        match e {
            BattleEvent::AttackStart { time_ms, attacker, target, schedule_next } => {
                self.on_attack_start(time_ms, attacker, target, schedule_next, now_ms);
            },
            BattleEvent::AttackResolve { time_ms, attacker, target } => {
                self.on_attack_resolve(time_ms, attacker, target);
            },
            BattleEvent::ProjectileHit { time_ms, projectile_id, attacker, target } => {
                self.on_projectile_hit(time_ms, projectile_id, attacker, target);
            },
            BattleEvent::AutoCastStart { time_ms, caster, cause } => {
                self.on_autocast_start(time_ms, caster, cause);
            },
            BattleEvent::AutoCastEnd { time_ms, caster } => {
                self.on_autocast_end(time_ms, caster);
            },
            BattleEvent::ApplyBuff { time_ms, caster, target, buff_id, duration_ms } => {
                self.on_apply_buff(time_ms, caster, target, buff_id, duration_ms);
            },
            BattleEvent::BuffTick { time_ms, key } => {
                self.on_buff_tick(time_ms, key);
            },
            BattleEvent::BuffExpire { time_ms, key } => {
                self.on_buff_expire(time_ms, key);
            },
            BattleEvent::MovementIntent { .. } => {},
            BattleEvent::MoveStep { .. } => {},
        }
    }
}

/// What the timeline records at the start of a battle: the start, then
/// the spawn of each unit, in unit order.
pub open spec fn spawn_records(units: Seq<RuntimeUnit>, tiles: Seq<Option<Position>>) -> Seq<(u64, TimelineEvent)> {
    seq![(0u64, TimelineEvent::BattleStart)] + Seq::new(
        units.len(),
        |k: int|
            (0u64, TimelineEvent::UnitSpawned { unit: units[k].instance_id, owner: units[k].owner, tile: tiles[k], stats: units[k].stats }),
    )
}

/// Appends to `timeline` the start of the battle and the spawn of each of
/// `units` (on `tiles`), in order.
fn log_spawns(units: &Vec<RuntimeUnit>, tiles: &Vec<Option<Position>>, timeline: &mut Vec<(u64, TimelineEvent)>)
    requires
        tiles@.len() == units@.len(),
    ensures
        final(timeline)@ == old(timeline)@ + spawn_records(units@, tiles@),
{
    let ghost t0 = timeline@;
    let ghost sr = spawn_records(units@, tiles@);
    timeline.push((0, TimelineEvent::BattleStart));
    proof {
        assert(timeline@ =~= t0 + sr.take(1));
    }
    let mut k: usize = 0;
    while k < units.len()
        invariant
            0 <= k <= units@.len(),
            tiles@.len() == units@.len(),
            sr == spawn_records(units@, tiles@),
            sr.len() == units@.len() + 1,
            timeline@ == t0 + sr.take(k as int + 1),
        decreases units@.len() - k,
    {
        let u = &units[k];
        timeline.push((0, TimelineEvent::UnitSpawned { unit: u.instance_id, owner: u.owner, tile: tiles[k], stats: u.stats }));
        proof {
            assert(sr.take(k as int + 2) =~= sr.take(k as int + 1).push(sr[k as int + 1]));
        }
        k = k + 1;
    }
    proof {
        assert(sr.take(sr.len() as int) =~= sr);
    }
}

/// The attack ranges of units under `rules`, in unit order.
pub open spec fn ranges_of(rules: Seq<UnitRules>) -> Seq<u8> {
    Seq::new(rules.len(), |k: int| rules[k].range_tiles)
}

/// The event that follows the pending-attack decision `d` of unit `id` at
/// `now_ms`: an attack start when the lock ends or now, or a movement
/// intent.
pub open spec fn decision_event(id: u128, d: PendingAttackDecision, now_ms: u64) -> BattleEvent {
    match d {
        PendingAttackDecision::WaitForLock { at_ms } => BattleEvent::AttackStart { time_ms: at_ms, attacker: id, target: None, schedule_next: true },
        PendingAttackDecision::Reposition { intent_at_ms } => BattleEvent::MovementIntent { time_ms: intent_at_ms },
        PendingAttackDecision::Start { target_id } => BattleEvent::AttackStart {
            time_ms: now_ms,
            attacker: id,
            target: Some(target_id),
            schedule_next: true,
        },
        PendingAttackDecision::Skip => BattleEvent::MovementIntent { time_ms: now_ms },
    }
}

/// The pending-attack decision of unit `i` of `a` at `now_ms`.
pub open spec fn decision_of(a: BattleState, now_ms: u64, i: int) -> PendingAttackDecision {
    crate::attacks::batch_decision(
        a.units@,
        a.tiles@,
        ranges_of(a.rules@),
        candidates_spec(a.units@, a.tiles@, a.rules@),
        now_ms,
        i,
    )
}

/// `ds` lists, in increasing identifier order, the units of `a` with a
/// pending-attack decision at `now_ms` other than to skip, with it.
pub open spec fn attacks_due(a: BattleState, now_ms: u64, ds: Seq<(u128, PendingAttackDecision)>) -> bool {
    &&& crate::autocast::pairs_increasing(ds)
    &&& forall|p: (u128, PendingAttackDecision)|
        ds.contains(p) <==> exists|i: int|
            0 <= i < a.units@.len() && (#[trigger] a.units@[i]).instance_id == p.0 && p.1 == decision_of(a, now_ms, i)
                && !(p.1 is Skip)
}

/// What taking the pending basic attacks at `now_ms` makes of `a` (see
/// `start_pending_basic_attacks`): each unit takes its decision, and what
/// follows the decisions is queued in increasing identifier order.
pub open spec fn pending_attacks_started(a: BattleState, now_ms: u64, b: BattleState) -> bool {
    &&& keeps_board(a, b)
    &&& b.timeline == a.timeline
    &&& b.units@.len() == a.units@.len()
    &&& forall|k: int|
        0 <= k < a.units@.len() ==> #[trigger] b.units@[k] == crate::attacks::after_pending_decision(a.units@[k], decision_of(a, now_ms, k))
    &&& exists|ds: Seq<(u128, PendingAttackDecision)>|
        #[trigger] attacks_due(a, now_ms, ds) && b.queue@ == push_all(
            a.queue@,
            ds.map_values(|p: (u128, PendingAttackDecision)| decision_event(p.0, p.1, now_ms)),
        )
}

/// The first periodic attack of each of `units`, in unit order: one attack
/// interval (at least a millisecond) into the battle.
pub open spec fn first_attacks(units: Seq<RuntimeUnit>) -> Seq<BattleEvent> {
    Seq::new(
        units.len(),
        |k: int|
            BattleEvent::AttackStart {
                time_ms: if units[k].stats.attack_interval_ms >= 1 { units[k].stats.attack_interval_ms } else { 1 },
                attacker: units[k].instance_id,
                target: None,
                schedule_next: true,
            },
    )
}

/// `b` is `a` with its first event taken off the queue.
pub open spec fn dequeued(a: BattleState, b: BattleState) -> bool {
    &&& a.queue@.len() > 0
    &&& b.queue@ == a.queue@.drop_first()
    &&& keeps_board(a, b)
    &&& b.units == a.units
    &&& b.timeline == a.timeline
}

/// One step of a run of the battle from `a` to `b`: its first event taken
/// off the queue and handled at its time (see `event_handled`), or the
/// pending basic attacks taken at some time (see
/// `pending_attacks_started`).
pub open spec fn run_step(a: BattleState, b: BattleState) -> bool {
    ||| exists|m: BattleState| #[trigger] dequeued(a, m) && event_handled(m, a.queue@[0], event_time(a.queue@[0]), b)
    ||| exists|t: u64| #[trigger] pending_attacks_started(a, t, b)
}

/// Each state of `states` follows from the one before by a step.
pub open spec fn run_steps(states: Seq<BattleState>) -> bool {
    forall|i: int| 0 <= i < states.len() - 1 ==> run_step(#[trigger] states[i], states[i + 1])
}

/// The opening of a battle from `a`: the start and the spawns recorded,
/// each unit's first periodic attack queued (see `first_attacks`), then a
/// movement intent at time zero.
pub open spec fn opened(a: BattleState, b: BattleState) -> bool {
    &&& keeps_board(a, b)
    &&& b.units@.len() == a.units@.len()
    &&& forall|k: int|
        0 <= k < a.units@.len() ==> #[trigger] b.units@[k] == (RuntimeUnit {
            next_basic_attack_ms: if a.units@[k].stats.attack_interval_ms >= 1 { a.units@[k].stats.attack_interval_ms } else { 1 },
            pending_basic_attack: false,
            ..a.units@[k]
        })
    &&& b.timeline@ == a.timeline@ + spawn_records(a.units@, a.tiles@)
    &&& b.queue@ == pushed(push_all(a.queue@, first_attacks(a.units@)), BattleEvent::MovementIntent { time_ms: 0 })
}

/// `states` runs the battle from `a` (opened into its first state, then
/// step by step), ending in `b` with the result `r`. A battle ends with its
/// winner once one side (or both) has no living unit; in a draw at
/// `MAX_BATTLE_TIME_MS` when the next event falls after it; once the queue
/// runs dry, with the winner if decided, else a draw. The end is recorded.
/// An error comes only after at least `max_events` steps, with an event
/// still due in time.
pub open spec fn battle_run(a: BattleState, states: Seq<BattleState>, max_events: u64, b: BattleState, r: Result<BattleResult, GameError>) -> bool {
    let last = states.last();
    let winner = winner_spec(candidates_spec(last.units@, last.tiles@, last.rules@));
    &&& states.len() >= 1
    &&& opened(a, states[0])
    &&& run_steps(states)
    &&& match r {
        Ok(res) => {
            &&& res.end_time_ms <= MAX_BATTLE_TIME_MS
            &&& keeps_board(last, b)
            &&& b.units == last.units
            &&& b.queue == last.queue
            &&& b.timeline@ == last.timeline@.push((res.end_time_ms, TimelineEvent::BattleEnd { winner: res.winner }))
            &&& {
                ||| winner == Some(res.winner)
                ||| last.queue@.len() == 0 && winner is None && res.winner == BattleWinner::Draw
                ||| last.queue@.len() > 0 && event_time(last.queue@[0]) > MAX_BATTLE_TIME_MS && res.winner
                    == BattleWinner::Draw && res.end_time_ms == MAX_BATTLE_TIME_MS
            }
        },
        Err(_) => {
            &&& b == last
            &&& states.len() - 1 >= max_events
            &&& last.queue@.len() > 0
            &&& event_time(last.queue@[0]) <= MAX_BATTLE_TIME_MS
        },
    }
}

/// A run extends by one more step.
pub proof fn lemma_run_push(states: Seq<BattleState>, b: BattleState)
    requires
        states.len() >= 1,
        run_steps(states),
        run_step(states.last(), b),
    ensures
        run_steps(states.push(b)),
{
    let s2 = states.push(b);
    assert forall|i: int| 0 <= i < s2.len() - 1 implies run_step(#[trigger] s2[i], s2[i + 1]) by {
        if i < states.len() - 1 {
            assert(s2[i] == states[i]);
            assert(s2[i + 1] == states[i + 1]);
        } else {
            assert(s2[i] == states.last());
        }
    }
}

impl BattleState {
    /// Takes the pending basic attacks of all units at `now_ms` (see
    /// `try_start_pending_basic_attacks`, with the units' tiles and ranges)
    /// and queues what follows, in increasing unit identifier order: an
    /// attack start when the lock ends or now, or a movement intent.
    pub fn start_pending_basic_attacks(&mut self, now_ms: u64)
        requires
            old(self).wf(),
        ensures
            final(self).wf(),
            pending_attacks_started(*old(self), now_ms, *final(self)),
    {
        let c = self.candidates();
        let mut ranges: Vec<u8> = Vec::new();
        let mut k: usize = 0;
        while k < self.rules.len()
            invariant
                0 <= k <= self.rules@.len(),
                ranges@.len() == k,
                forall|j: int| 0 <= j < k ==> ranges@[j] == self.rules@[j].range_tiles,
            decreases self.rules@.len() - k,
        {
            ranges.push(self.rules[k].range_tiles);
            k = k + 1;
        }
        proof {
            assert(ranges@ =~= ranges_of(self.rules@));
        }
        let ghost u0 = self.units@;
        let tiles = self.tiles.clone();
        proof {
            assert(tiles@ == self.tiles@);
        }
        let decisions = try_start_pending_basic_attacks(&mut self.units, &tiles, &ranges, &c, now_ms);
        proof {
            let v = self.units@;
            assert forall|k: int| 0 <= k < v.len() implies same_frame(u0[k], #[trigger] v[k]) by {}
            lemma_same_frame_ok(u0, v, self.tiles@, self.rules@);
            assert(attacks_due(*old(self), now_ms, decisions@));
            assert forall|x: int| 0 <= x < decisions@.len() implies !((#[trigger] decisions@[x]).1 is Skip) by {
                assert(decisions@.contains(decisions@[x]));
            }
        }
        let ghost es = decisions@.map_values(|p: (u128, PendingAttackDecision)| decision_event(p.0, p.1, now_ms));
        let ghost q0 = self.queue@;
        let ghost u1 = self.units@;
        let mut j: usize = 0;
        while j < decisions.len()
            invariant
                0 <= j <= decisions@.len(),
                es == decisions@.map_values(|p: (u128, PendingAttackDecision)| decision_event(p.0, p.1, now_ms)),
                forall|x: int| 0 <= x < decisions@.len() ==> !((#[trigger] decisions@[x]).1 is Skip),
                self.queue@ == push_all(q0, es.take(j as int)),
                units_ok(self.units@, self.tiles@, self.rules@),
                self.rest_ok(),
                keeps_board(*old(self), *self),
                self.timeline == old(self).timeline,
                self.units@ == u1,
            decreases decisions@.len() - j,
        {
            let (id, d) = decisions[j];
            match d {
                PendingAttackDecision::WaitForLock { at_ms } => {
                    push_event(&mut self.queue, BattleEvent::AttackStart { time_ms: at_ms, attacker: id, target: None, schedule_next: true });
                },
                PendingAttackDecision::Reposition { intent_at_ms } => {
                    push_event(&mut self.queue, BattleEvent::MovementIntent { time_ms: intent_at_ms });
                },
                PendingAttackDecision::Start { target_id } => {
                    push_event(&mut self.queue, BattleEvent::AttackStart { time_ms: now_ms, attacker: id, target: Some(target_id), schedule_next: true });
                },
                PendingAttackDecision::Skip => {},
            }
            proof {
                assert(es.take(j as int + 1).drop_last() =~= es.take(j as int));
                assert(es.take(j as int + 1).last() == es[j as int]);
            }
            j = j + 1;
        }
        proof {
            assert(es.take(es.len() as int) =~= es);
        }
    }

    /// The first periodic attack of every unit, one attack interval (at
    /// least a millisecond) into the battle, queued in unit order; each
    /// unit notes it and has no pending attack.
    pub fn init_initial_events(&mut self)
        requires
            old(self).wf(),
        ensures
            final(self).wf(),
            keeps_board(*old(self), *final(self)),
            final(self).timeline == old(self).timeline,
            final(self).units@.len() == old(self).units@.len(),
            final(self).queue@ == push_all(old(self).queue@, first_attacks(old(self).units@)),
            forall|k: int|
                0 <= k < old(self).units@.len() ==> #[trigger] final(self).units@[k] == (RuntimeUnit {
                    next_basic_attack_ms: if old(self).units@[k].stats.attack_interval_ms >= 1 {
                        old(self).units@[k].stats.attack_interval_ms
                    } else {
                        1
                    },
                    pending_basic_attack: false,
                    ..old(self).units@[k]
                }),
    {
        let mut k: usize = 0;
        let ghost u0 = self.units@;
        let ghost q0 = self.queue@;
        let ghost es = first_attacks(u0);
        while k < self.units.len()
            invariant
                0 <= k <= self.units@.len(),
                self.units@.len() == u0.len(),
                u0 == old(self).units@,
                units_ok(u0, self.tiles@, self.rules@),
                self.tiles == old(self).tiles,
                self.rules == old(self).rules,
                self.buff_defs == old(self).buff_defs,
                keeps_board(*old(self), *self),
                self.timeline == old(self).timeline,
                es == first_attacks(u0),
                self.queue@ == push_all(q0, es.take(k as int)),
                self.rest_ok(),
                forall|j: int|
                    0 <= j < k ==> #[trigger] self.units@[j] == (RuntimeUnit {
                        next_basic_attack_ms: if u0[j].stats.attack_interval_ms >= 1 { u0[j].stats.attack_interval_ms } else { 1 },
                        pending_basic_attack: false,
                        ..u0[j]
                    }),
                forall|j: int| k <= j < u0.len() ==> #[trigger] self.units@[j] == u0[j],
            decreases u0.len() - k,
        {
            let ghost before = self.units@;
            let mut u = self.units.remove(k);
            proof {
                assert(u == u0[k as int]);
            }
            let interval: u64 = if u.stats.attack_interval_ms >= 1 { u.stats.attack_interval_ms } else { 1 };
            u.next_basic_attack_ms = interval;
            u.pending_basic_attack = false;
            let id = u.instance_id;
            self.units.insert(k, u);
            proof {
                assert(self.units@ =~= before.update(k as int, u));
            }
            push_event(&mut self.queue, BattleEvent::AttackStart { time_ms: interval, attacker: id, target: None, schedule_next: true });
            proof {
                assert(es.take(k as int + 1).drop_last() =~= es.take(k as int));
                assert(es.take(k as int + 1).last() == es[k as int]);
            }
            k = k + 1;
        }
        proof {
            assert(es.take(es.len() as int) =~= es);
            let v = self.units@;
            assert forall|j: int| 0 <= j < v.len() implies same_frame(u0[j], #[trigger] v[j]) by {}
            lemma_same_frame_ok(u0, v, self.tiles@, self.rules@);
        }
    }

    /// Records the start of the battle and the spawn of every unit, in unit
    /// order, at time zero.
    pub fn record_start(&mut self)
        requires
            old(self).wf(),
        ensures
            final(self).wf(),
            keeps_board(*old(self), *final(self)),
            final(self).units == old(self).units,
            final(self).queue == old(self).queue,
            final(self).timeline@ == old(self).timeline@ + spawn_records(old(self).units@, old(self).tiles@),
    {
        log_spawns(&self.units, &self.tiles, &mut self.timeline);
    }

    /// Whether the queue holds an event at `t` first.
    fn next_event_at(&self, t: u64) -> (r: bool)
        ensures
            r == (self.queue@.len() > 0 && event_time(self.queue@[0]) == t),
    {
        self.queue.len() > 0 && time_of(&self.queue[0]) == t
    }

    /// Runs the battle (see `battle_run`): the start is recorded and the
    /// first attacks queued, then events are taken in time order, a time's
    /// events (with those they add at the same time) all before the battle
    /// is judged. After a time with a movement intent the pending basic
    /// attacks are taken. At most `max_events` events are handled; more is
    /// an error.
    pub fn run_battle(&mut self, max_events: u64) -> (r: Result<BattleResult, GameError>)
        requires
            old(self).wf(),
        ensures
            final(self).wf(),
            exists|states: Seq<BattleState>| #[trigger] battle_run(*old(self), states, max_events, *final(self), r),
    {
        self.record_start();
        self.init_initial_events();
        push_event(&mut self.queue, BattleEvent::MovementIntent { time_ms: 0 });
        let ghost mut states: Seq<BattleState> = seq![*self];
        proof {
            assert(opened(*old(self), states[0]));
        }
        let mut budget = max_events;
        let mut last_time: u64 = 0;
        loop
            invariant
                self.wf(),
                last_time <= MAX_BATTLE_TIME_MS,
                budget <= max_events,
                states.len() >= 1,
                opened(*old(self), states[0]),
                run_steps(states),
                states.last() == *self,
                states.len() - 1 >= max_events - budget,
            decreases budget,
        {
            if self.queue.len() == 0 {
                let c = self.candidates();
                let winner = match compute_winner(&c) {
                    Some(w) => w,
                    None => BattleWinner::Draw,
                };
                self.timeline.push((last_time, TimelineEvent::BattleEnd { winner }));
                let r = Ok(BattleResult { winner, end_time_ms: last_time });
                proof {
                    assert(battle_run(*old(self), states, max_events, *self, r));
                }
                return r;
            }
            let now = time_of(&self.queue[0]);
            if now > MAX_BATTLE_TIME_MS {
                self.timeline.push((MAX_BATTLE_TIME_MS, TimelineEvent::BattleEnd { winner: BattleWinner::Draw }));
                let r = Ok(BattleResult { winner: BattleWinner::Draw, end_time_ms: MAX_BATTLE_TIME_MS });
                proof {
                    assert(battle_run(*old(self), states, max_events, *self, r));
                }
                return r;
            }
            last_time = now;
            let mut movement_intent = false;
            let ghost b0 = budget;
            let ghost mut ran = false;
            while self.next_event_at(now)
                invariant
                    budget <= b0,
                    b0 <= max_events,
                    ran ==> budget < b0,
                    !ran ==> self.queue@.len() > 0 && event_time(self.queue@[0]) == now,
                    self.wf(),
                    now <= MAX_BATTLE_TIME_MS,
                    last_time <= MAX_BATTLE_TIME_MS,
                    states.len() >= 1,
                    opened(*old(self), states[0]),
                    run_steps(states),
                    states.last() == *self,
                    states.len() - 1 >= max_events - budget,
                decreases budget,
            {
                if budget == 0 {
                    let r = Err(GameError::EventBudgetExhausted);
                    proof {
                        assert(battle_run(*old(self), states, max_events, *self, r));
                    }
                    return r;
                }
                budget = budget - 1;
                let ghost pre = *self;
                let ghost q0 = self.queue@;
                let e = self.queue.remove(0);
                proof {
                    let q = self.queue@;
                    assert(q =~= q0.drop_first());
                    assert forall|a: int, b: int| 0 <= a < b < q.len() implies event_time(#[trigger] q[a])
                        <= event_time(#[trigger] q[b]) by {
                        assert(q[a] == q0[a + 1]);
                        assert(q[b] == q0[b + 1]);
                    }
                }
                let ghost mid = *self;
                proof {
                    assert(dequeued(pre, mid));
                }
                if matches!(e, BattleEvent::MovementIntent { .. }) {
                    movement_intent = true;
                }
                self.process_event(e, now);
                proof {
                    assert(run_step(pre, *self));
                    lemma_run_push(states, *self);
                    states = states.push(*self);
                    ran = true;
                }
            }
            let c = self.candidates();
            match compute_winner(&c) {
                Some(winner) => {
                    self.timeline.push((now, TimelineEvent::BattleEnd { winner }));
                    let r = Ok(BattleResult { winner, end_time_ms: now });
                    proof {
                        assert(battle_run(*old(self), states, max_events, *self, r));
                    }
                    return r;
                },
                None => {},
            }
            if movement_intent {
                let ghost pre = *self;
                self.start_pending_basic_attacks(now);
                proof {
                    assert(pending_attacks_started(pre, now, *self));
                    assert(run_step(pre, *self));
                    lemma_run_push(states, *self);
                    states = states.push(*self);
                }
            }
        }
    }
}

} // verus!
