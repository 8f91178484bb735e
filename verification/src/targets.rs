//! Target selection: which enemy a unit attacks or chases, and who has won.
use vstd::prelude::*;
use crate::arith::ix;
use crate::arith::abs_int;
use crate::keys::{distance_id_key, distance_id_key_of, distance_then_in_range_key, distance_then_in_range_key_of, id_key, id_key_of, lemma_distance_id_key_distinct, lemma_distance_key_distinct, lemma_id_key_injective};
use crate::order::{key_lt, lemma_key_lt_asymmetric};
use crate::position::{chebyshev_spec, Position, Side};
use crate::select::{argmin_key, is_strict_min, keys_distinct};

verus! {

/// What target selection reads about a unit.
#[derive(Debug, Clone, Copy, PartialEq, Eq, Structural)]
pub struct TargetCandidate {
    pub id: u128,
    pub owner: Side,
    /// The unit's current health; zero when it is dead.
    pub current_health: u32,
    /// The unit's tile on the battlefield, if it is placed.
    pub tile: Option<Position>,
    pub pos_x_units: i64,
    pub pos_y_units: i64,
    /// The unit's own basic attack range in tiles.
    pub range_tiles: u8,
}

/// The units have pairwise different identifiers.
pub open spec fn distinct_unit_ids(units: Seq<TargetCandidate>) -> bool {
    forall|a: int, b: int| 0 <= a < b < units.len() ==> (#[trigger] units[a]).id != (#[trigger] units[b]).id
}

/// Unit `i` is eligible and its key is below every other eligible unit's.
pub open spec fn is_best_target(
    units: Seq<TargetCandidate>,
    eligible: spec_fn(TargetCandidate) -> bool,
    key: spec_fn(TargetCandidate) -> Seq<i128>,
    i: int,
) -> bool {
    &&& 0 <= i < units.len()
    &&& eligible(units[i])
    &&& forall|j: int| 0 <= j < units.len() && j != i && eligible(#[trigger] units[j]) ==> key_lt(key(units[i]), key(units[j]))
}

/// `r` names the best eligible unit, and is `None` exactly when no unit is
/// eligible.
pub open spec fn selects(
    units: Seq<TargetCandidate>,
    eligible: spec_fn(TargetCandidate) -> bool,
    key: spec_fn(TargetCandidate) -> Seq<i128>,
    r: Option<u128>,
) -> bool {
    &&& r matches Some(id) ==> exists|i: int| is_best_target(units, eligible, key, i) && #[trigger] units[i].id == id
    &&& r is None ==> forall|i: int| 0 <= i < units.len() ==> !eligible(#[trigger] units[i])
}

/// The identifier of the best eligible unit, or `None` when no unit is
/// eligible.
pub open spec fn selected(
    units: Seq<TargetCandidate>,
    eligible: spec_fn(TargetCandidate) -> bool,
    key: spec_fn(TargetCandidate) -> Seq<i128>,
) -> Option<u128> {
    if exists|i: int| 0 <= i < units.len() && eligible(#[trigger] units[i]) {
        Some(units[choose|i: int| is_best_target(units, eligible, key, i)].id)
    } else {
        None
    }
}

/// The best eligible unit is unique: a selection is `selected`.
pub proof fn lemma_selects_unique(
    units: Seq<TargetCandidate>,
    eligible: spec_fn(TargetCandidate) -> bool,
    key: spec_fn(TargetCandidate) -> Seq<i128>,
    r: Option<u128>,
)
    requires
        selects(units, eligible, key, r),
    ensures
        r == selected(units, eligible, key),
{
    match r {
        Some(id) => {
            let i = choose|i: int| is_best_target(units, eligible, key, i) && #[trigger] units[i].id == id;
            assert(eligible(units[i]));
            let c = choose|c: int| is_best_target(units, eligible, key, c);
            if c != i {
                lemma_key_lt_asymmetric(key(units[i]), key(units[c]));
            }
        },
        None => {},
    }
}

/// The choice does not depend on the order in which the units are listed:
/// whatever one list selects, any list holding the same units (with
/// distinct identifiers) selects too.
pub proof fn lemma_selection_ignores_order(
    u1: Seq<TargetCandidate>,
    u2: Seq<TargetCandidate>,
    eligible: spec_fn(TargetCandidate) -> bool,
    key: spec_fn(TargetCandidate) -> Seq<i128>,
    r: Option<u128>,
)
    requires
        distinct_unit_ids(u2),
        forall|x: TargetCandidate| u1.contains(x) <==> u2.contains(x),
        selects(u1, eligible, key, r),
    ensures
        selects(u2, eligible, key, r),
{
    match r {
        Some(id) => {
            let i = choose|i: int| is_best_target(u1, eligible, key, i) && #[trigger] u1[i].id == id;
            let x = u1[i];
            assert(u1.contains(x));
            let j = choose|j: int| 0 <= j < u2.len() && u2[j] == x;
            assert forall|k: int| 0 <= k < u2.len() && k != j && eligible(#[trigger] u2[k]) implies key_lt(
                key(u2[j]),
                key(u2[k]),
            ) by {
                assert(u2.contains(u2[k]));
                let m = choose|m: int| 0 <= m < u1.len() && u1[m] == u2[k];
                if k < j {
                    assert(u2[k].id != u2[j].id);
                } else {
                    assert(u2[j].id != u2[k].id);
                }
                assert(m != i);
            }
            assert(is_best_target(u2, eligible, key, j));
            assert(u2[j].id == id);
        },
        None => {
            assert forall|k: int| 0 <= k < u2.len() implies !eligible(#[trigger] u2[k]) by {
                assert(u2.contains(u2[k]));
                let m = choose|m: int| 0 <= m < u1.len() && u1[m] == u2[k];
                assert(!eligible(u1[m]));
            }
        },
    }
}

/// Selects by `keys`, which hold each eligible unit's key.
fn select_by_keys(
    units: &Vec<TargetCandidate>,
    keys: &Vec<Option<Vec<i128>>>,
    eligible: Ghost<spec_fn(TargetCandidate) -> bool>,
    key: Ghost<spec_fn(TargetCandidate) -> Seq<i128>>,
    n: Ghost<nat>,
) -> (r: Option<u128>)
    requires
        keys@.len() == units@.len(),
        forall|i: int| 0 <= i < units@.len() ==> (#[trigger] keys@[i] is Some) == eligible@(units@[i]),
        forall|i: int| 0 <= i < units@.len() && (#[trigger] keys@[i]) is Some ==> keys@[i]->0@ == key@(units@[i]),
        keys_distinct(keys@, n@),
    ensures
        selects(units@, eligible@, key@, r),
{
    match argmin_key(keys, n) {
        Some(i) => {
            proof {
                assert forall|j: int| 0 <= j < units@.len() && j != ix(i) && eligible@(#[trigger] units@[j]) implies key_lt(key@(units@[ix(i)]), key@(units@[j])) by {
                    assert(keys@[j] is Some);
                }
                assert(is_best_target(units@, eligible@, key@, ix(i)));
            }
            Some(units[i].id)
        },
        None => {
            proof {
                assert forall|i: int| 0 <= i < units@.len() implies !eligible@(#[trigger] units@[i]) by {
                    assert(keys@[i] is None);
                }
            }
            None
        },
    }
}

/// An enemy of `owner`, alive and placed within `range_tiles` of `attacker_pos`.
pub open spec fn in_tile_range(owner: Side, attacker_pos: Position, range_tiles: u8, u: TargetCandidate) -> bool {
    &&& u.current_health != 0
    &&& u.owner != owner
    &&& u.tile matches Some(t) && chebyshev_spec(attacker_pos, t) <= range_tiles
}

pub open spec fn tile_range_key(owner: Side, attacker_pos: Position, u: TargetCandidate) -> Seq<i128> {
    distance_then_in_range_key(chebyshev_spec(attacker_pos, u.tile->0), owner, attacker_pos, u.id, u.tile->0, u.range_tiles)
}

/// The enemy of `owner` within `range_tiles` of `attacker_pos` to attack:
/// the nearest one; among equally near ones the one with the shortest own
/// range, then the one best placed by the plan order, then the smallest
/// identifier.
pub fn choose_enemy_target_in_tile_range(
    attacker_owner: Side,
    attacker_pos: Position,
    range_tiles: u8,
    units: &Vec<TargetCandidate>,
) -> (r: Option<u128>)
    requires
        distinct_unit_ids(units@),
    ensures
        selects(
            units@,
            |u: TargetCandidate| in_tile_range(attacker_owner, attacker_pos, range_tiles, u),
            |u: TargetCandidate| tile_range_key(attacker_owner, attacker_pos, u),
            r,
        ),
{
    let mut keys: Vec<Option<Vec<i128>>> = Vec::new();
    let mut i: usize = 0;
    while i < units.len()
        invariant
            0 <= i <= units@.len(),
            distinct_unit_ids(units@),
            keys@.len() == i,
            forall|j: int| 0 <= j < i ==> (#[trigger] keys@[j] is Some) == in_tile_range(attacker_owner, attacker_pos, range_tiles, units@[j]),
            forall|j: int| 0 <= j < i && (#[trigger] keys@[j]) is Some ==> keys@[j]->0@ == tile_range_key(attacker_owner, attacker_pos, units@[j]),
            keys_distinct(keys@, 12),
        decreases units@.len() - i,
    {
        let u = units[i];
        let mut entry: Option<Vec<i128>> = None;
        if u.current_health != 0 && u.owner != attacker_owner {
            match u.tile {
                Some(t) => {
                    let d = attacker_pos.chebyshev(&t);
                    if d <= range_tiles as i64 {
                        entry = Some(distance_then_in_range_key_of(d as i128, attacker_owner, attacker_pos, u.id, t, u.range_tiles));
                    }
                },
                None => {},
            }
        }
        proof {
            assert forall|j: int| 0 <= j < i && (#[trigger] keys@[j]) is Some && entry is Some implies keys@[j]->0@ != entry->0@ by {
                {
                    let w = units@[j];
                    assert(w.id != u.id);
                    lemma_distance_key_distinct(chebyshev_spec(attacker_pos, w.tile->0), attacker_owner, attacker_pos, w.id, w.tile->0, w.range_tiles,
                        chebyshev_spec(attacker_pos, u.tile->0), u.id, u.tile->0, u.range_tiles);
                }
            }
            if entry is Some {
                lemma_distance_key_distinct(chebyshev_spec(attacker_pos, u.tile->0), attacker_owner, attacker_pos, u.id, u.tile->0, u.range_tiles,
                    0, u.id, u.tile->0, u.range_tiles);
            }
        }
        keys.push(entry);
        i = i + 1;
    }
    select_by_keys(
        units,
        &keys,
        Ghost(|u: TargetCandidate| in_tile_range(attacker_owner, attacker_pos, range_tiles, u)),
        Ghost(|u: TargetCandidate| tile_range_key(attacker_owner, attacker_pos, u)),
        Ghost(12),
    )
}


/// How a basic attack reaches its target.
#[derive(Debug, Clone, Copy, PartialEq, Eq, Structural)]
pub enum AttackDelivery {
    Instant,
    Projectile,
}

/// How far an instant melee basic attack reaches, in position units.
pub const INSTANT_BASIC_ATTACK_MELEE_REACH_UNITS: i64 = 1_000_000;

/// How a unit's basic attack decides what is in range.
#[derive(Debug, Clone, Copy, PartialEq, Eq, Structural)]
pub struct BasicAttackRangePolicy {
    pub delivery: AttackDelivery,
    pub range_tiles: u8,
    pub instant_melee_reach_units: i64,
    /// In range by continuous distance (instant melee) rather than by tiles.
    pub use_continuous_range: bool,
}

/// The basic attack range of a unit whose definition gives `configured`
/// (none when the unit has no definition): one tile by default, and at
/// least one tile.
pub fn basic_attack_range_tiles(configured: Option<u8>) -> (r: u8)
    ensures
        r == (match configured {
            Some(t) => if t >= 1 { t } else { 1 },
            None => 1,
        }),
{
    match configured {
        Some(t) => if t >= 1 { t } else { 1 },
        None => 1,
    }
}

/// The basic attack delivery of a unit whose definition gives `configured`:
/// instant by default.
pub fn basic_attack_delivery(configured: Option<AttackDelivery>) -> (r: AttackDelivery)
    ensures
        r == (match configured {
            Some(d) => d,
            None => AttackDelivery::Instant,
        }),
{
    match configured {
        Some(d) => d,
        None => AttackDelivery::Instant,
    }
}

pub open spec fn range_policy_spec(delivery: AttackDelivery, range_tiles: u8) -> BasicAttackRangePolicy {
    BasicAttackRangePolicy {
        delivery,
        range_tiles,
        instant_melee_reach_units: INSTANT_BASIC_ATTACK_MELEE_REACH_UNITS,
        use_continuous_range: delivery == AttackDelivery::Instant && range_tiles <= 1,
    }
}

/// The range policy of a unit whose definition gives the delivery and the
/// range: an instant attack of at most one tile is judged by continuous
/// distance.
pub fn basic_attack_range_policy(delivery: Option<AttackDelivery>, range_tiles: Option<u8>) -> (p: BasicAttackRangePolicy)
    ensures
        p == range_policy_spec(basic_attack_delivery_spec(delivery), basic_attack_range_tiles_spec(range_tiles)),
{
    let d = basic_attack_delivery(delivery);
    let t = basic_attack_range_tiles(range_tiles);
    BasicAttackRangePolicy {
        delivery: d,
        range_tiles: t,
        instant_melee_reach_units: INSTANT_BASIC_ATTACK_MELEE_REACH_UNITS,
        use_continuous_range: d == AttackDelivery::Instant && t <= 1,
    }
}

pub open spec fn basic_attack_delivery_spec(configured: Option<AttackDelivery>) -> AttackDelivery {
    match configured {
        Some(d) => d,
        None => AttackDelivery::Instant,
    }
}

pub open spec fn basic_attack_range_tiles_spec(configured: Option<u8>) -> u8 {
    match configured {
        Some(t) => if t >= 1 { t } else { 1 },
        None => 1,
    }
}

/// Squared continuous distance between two units.
pub open spec fn unit_distance_sq(a: TargetCandidate, u: TargetCandidate) -> int {
    (a.pos_x_units - u.pos_x_units) * (a.pos_x_units - u.pos_x_units) + (a.pos_y_units - u.pos_y_units) * (a.pos_y_units
        - u.pos_y_units)
}

/// A living unit of the other side.
pub open spec fn is_living_enemy(owner: Side, u: TargetCandidate) -> bool {
    u.current_health != 0 && u.owner != owner
}

/// The basic attack of `a` under `p` reaches `t`: within the melee reach
/// by continuous distance, or both placed and within the tile range.
pub open spec fn attack_reaches(a: TargetCandidate, t: TargetCandidate, p: BasicAttackRangePolicy) -> bool {
    if p.use_continuous_range {
        unit_distance_sq(a, t) <= abs_int(p.instant_melee_reach_units as int) * abs_int(p.instant_melee_reach_units as int)
    } else {
        a.tile is Some && t.tile is Some && chebyshev_spec(a.tile->0, t.tile->0) <= p.range_tiles
    }
}

/// A living enemy that the basic attack of `a` under `p` reaches.
pub open spec fn attack_eligible(a: TargetCandidate, p: BasicAttackRangePolicy, u: TargetCandidate) -> bool {
    &&& is_living_enemy(a.owner, u)
    &&& attack_reaches(a, u, p)
}

/// The distance by which targets are ranked: squared continuous distance
/// or tile distance, as the policy judges range.
pub open spec fn attack_distance(a: TargetCandidate, p: BasicAttackRangePolicy, u: TargetCandidate) -> int {
    if p.use_continuous_range {
        unit_distance_sq(a, u)
    } else {
        chebyshev_spec(a.tile->0, u.tile->0)
    }
}

/// Key ordering by a distance, the unit's own attack range, then identifier.
pub open spec fn distance_range_id_key(distance: int, range_tiles: u8, id: u128) -> Seq<i128> {
    seq![distance as i128, range_tiles as i128] + id_key(id)
}

/// The order among reached enemies: nearest first; among equally near ones
/// the shortest own range, then (when the attacker is placed) the plan
/// order with the enemy's tile, then the smallest identifier.
pub open spec fn attack_key(a: TargetCandidate, p: BasicAttackRangePolicy, u: TargetCandidate) -> Seq<i128> {
    match a.tile {
        Some(apos) => distance_then_in_range_key(attack_distance(a, p, u), a.owner, apos, u.id, u.tile->0, u.range_tiles),
        None => distance_range_id_key(attack_distance(a, p, u), u.range_tiles, u.id),
    }
}

pub open spec fn attack_key_len(a: TargetCandidate) -> nat {
    if a.tile is Some { 12 } else { 4 }
}

proof fn lemma_attack_key_distinct(a: TargetCandidate, p: BasicAttackRangePolicy, u: TargetCandidate, w: TargetCandidate)
    ensures
        attack_key(a, p, u).len() == attack_key_len(a),
        u.id != w.id ==> attack_key(a, p, u) != attack_key(a, p, w),
{
    match a.tile {
        Some(apos) => {
            lemma_distance_key_distinct(attack_distance(a, p, u), a.owner, apos, u.id, u.tile->0, u.range_tiles,
                attack_distance(a, p, w), w.id, w.tile->0, w.range_tiles);
        },
        None => {
            lemma_id_key_injective(u.id, w.id);
            let k1 = attack_key(a, p, u);
            let k2 = attack_key(a, p, w);
            if u.id != w.id && k1 == k2 {
                assert(k1.subrange(2, 4) =~= id_key(u.id));
                assert(k2.subrange(2, 4) =~= id_key(w.id));
            }
        },
    }
}

/// What the attack-target choice of `a` needs of the units: the squared
/// distance to each living enemy fits in `i128` where range is judged
/// continuously, and a placed attacker sees every reached enemy placed.
pub open spec fn attack_choice_ok(a: TargetCandidate, p: BasicAttackRangePolicy, units: Seq<TargetCandidate>) -> bool {
    forall|i: int| 0 <= i < units.len() ==> {
        &&& (p.use_continuous_range && is_living_enemy(a.owner, #[trigger] units[i])) ==> unit_distance_sq(a, units[i]) <= i128::MAX
        &&& (a.tile is Some && attack_eligible(a, p, units[i])) ==> units[i].tile is Some
    }
}

/// The index of the unit with identifier `id`.
pub fn find_unit(units: &Vec<TargetCandidate>, id: u128) -> (r: Option<usize>)
    ensures
        r matches Some(i) ==> i < units@.len() && units@[ix(i)].id == id,
        r is None ==> forall|i: int| 0 <= i < units@.len() ==> (#[trigger] units@[i]).id != id,
{
    let mut i: usize = 0;
    while i < units.len()
        invariant
            0 <= i <= units@.len(),
            forall|j: int| 0 <= j < i ==> (#[trigger] units@[j]).id != id,
        decreases units@.len() - i,
    {
        if units[i].id == id {
            return Some(i);
        }
        i = i + 1;
    }
    None
}

proof fn lemma_square_nonneg(d: int)
    ensures
        d * d >= 0,
{
    assert(d * d >= 0) by (nonlinear_arith);
}

fn continuous_distance_sq(a: &TargetCandidate, u: &TargetCandidate) -> (r: i128)
    requires
        unit_distance_sq(*a, *u) <= i128::MAX,
    ensures
        r == unit_distance_sq(*a, *u),
        r >= 0,
{
    let dx: i128 = a.pos_x_units as i128 - u.pos_x_units as i128;
    let dy: i128 = a.pos_y_units as i128 - u.pos_y_units as i128;
    proof {
        lemma_square_nonneg(dx as int);
        lemma_square_nonneg(dy as int);
    }
    dx * dx + dy * dy
}

/// The distance by which `target` is ranked for the basic attack of
/// `attacker` under `policy`: squared continuous distance, or (by tiles)
/// the tile distance, `None` when either unit is not placed.
pub fn basic_attack_target_distance_key(
    attacker: &TargetCandidate,
    target: &TargetCandidate,
    policy: BasicAttackRangePolicy,
) -> (r: Option<u128>)
    requires
        policy.use_continuous_range ==> unit_distance_sq(*attacker, *target) <= i128::MAX,
    ensures
        policy.use_continuous_range ==> unit_distance_sq(*attacker, *target) >= 0,
        policy.use_continuous_range ==> r == Some(unit_distance_sq(*attacker, *target) as u128),
        !policy.use_continuous_range ==> r == (match (attacker.tile, target.tile) {
            (Some(a), Some(t)) => Some(chebyshev_spec(a, t) as u128),
            _ => None,
        }),
{
    if policy.use_continuous_range {
        let d = continuous_distance_sq(attacker, target);
        Some(d as u128)
    } else {
        match (attacker.tile, target.tile) {
            (Some(a), Some(t)) => {
                let c = a.chebyshev(&t);
                Some(c as u128)
            },
            _ => None,
        }
    }
}

/// Whether the basic attack of `attacker` under `policy` reaches `target`:
/// within the melee reach by continuous distance, or within the policy's
/// tile range. Side and health are not looked at.
pub fn is_basic_attack_target_in_range_with_policy(
    attacker: &TargetCandidate,
    target: &TargetCandidate,
    policy: BasicAttackRangePolicy,
) -> (r: bool)
    requires
        policy.use_continuous_range ==> unit_distance_sq(*attacker, *target) <= i128::MAX,
    ensures
        r == attack_reaches(*attacker, *target, policy),
{
    match basic_attack_target_distance_key(attacker, target, policy) {
        Some(d) => {
            if policy.use_continuous_range {
                let r: i128 = policy.instant_melee_reach_units as i128;
                let reach: u128 = if r >= 0 { r as u128 } else { (-r) as u128 };
                proof {
                    assert(reach * reach <= 0x4000_0000_0000_0000_0000_0000_0000_0000) by (nonlinear_arith)
                        requires reach <= 0x8000_0000_0000_0000;
                }
                d <= reach * reach
            } else {
                d <= policy.range_tiles as u128
            }
        },
        None => false,
    }
}

/// The key of `u` for the attack choice of `a`, or `None` if `u` is not a
/// reached enemy.
fn attack_entry(a: &TargetCandidate, p: BasicAttackRangePolicy, u: &TargetCandidate) -> (r: Option<Vec<i128>>)
    requires
        p.use_continuous_range && is_living_enemy(a.owner, *u) ==> unit_distance_sq(*a, *u) <= i128::MAX,
        a.tile is Some && attack_eligible(*a, p, *u) ==> u.tile is Some,
    ensures
        (r is Some) == attack_eligible(*a, p, *u),
        r matches Some(k) ==> k@ == attack_key(*a, p, *u),
{
    if u.current_health == 0 || u.owner == a.owner {
        return None;
    }
    let d: i128;
    if p.use_continuous_range {
        let dsq = continuous_distance_sq(a, u);
        let r: i128 = p.instant_melee_reach_units as i128;
        let reach: u128 = if r >= 0 { r as u128 } else { (-r) as u128 };
        proof {
            assert(reach * reach <= 0x4000_0000_0000_0000_0000_0000_0000_0000) by (nonlinear_arith)
                requires reach <= 0x8000_0000_0000_0000;
        }
        let reach_sq: u128 = reach * reach;
        if dsq as u128 > reach_sq {
            return None;
        }
        d = dsq;
    } else {
        match (a.tile, u.tile) {
            (Some(at), Some(ut)) => {
                let c = at.chebyshev(&ut);
                if c > p.range_tiles as i64 {
                    return None;
                }
                d = c as i128;
            },
            _ => {
                return None;
            },
        }
    }
    match a.tile {
        Some(apos) => {
            let t = u.tile.unwrap();
            Some(distance_then_in_range_key_of(d, a.owner, apos, u.id, t, u.range_tiles))
        },
        None => {
            let ik = id_key_of(u.id);
            let k = vec![d, u.range_tiles as i128, ik[0], ik[1]];
            assert(k@ =~= attack_key(*a, p, *u));
            Some(k)
        },
    }
}

/// The enemy that the unit `attacker_id` attacks with its basic attack under
/// `policy`: among the living enemies its attack reaches, the nearest; ties
/// go to the shortest own range, then (when the attacker is placed) the plan
/// order with the enemy's tile, then the smallest identifier. `None` when
/// the attacker is unknown or nothing is reached.
pub fn choose_attack_target_in_range(
    attacker_id: u128,
    policy: BasicAttackRangePolicy,
    units: &Vec<TargetCandidate>,
) -> (r: Option<u128>)
    requires
        distinct_unit_ids(units@),
        forall|i: int| 0 <= i < units@.len() && (#[trigger] units@[i]).id == attacker_id ==> attack_choice_ok(units@[i], policy, units@),
    ensures
        (forall|i: int| 0 <= i < units@.len() ==> (#[trigger] units@[i]).id != attacker_id) ==> r is None,
        forall|i: int| 0 <= i < units@.len() && (#[trigger] units@[i]).id == attacker_id ==> selects(
            units@,
            |u: TargetCandidate| attack_eligible(units@[i], policy, u),
            |u: TargetCandidate| attack_key(units@[i], policy, u),
            r,
        ),
{
    let ai = match find_unit(units, attacker_id) {
        Some(ai) => ai,
        None => {
            return None;
        },
    };
    let a = units[ai];
    assert(attack_choice_ok(a, policy, units@));
    let mut keys: Vec<Option<Vec<i128>>> = Vec::new();
    let mut i: usize = 0;
    while i < units.len()
        invariant
            0 <= i <= units@.len(),
            attack_choice_ok(a, policy, units@),
            keys@.len() == i,
            forall|j: int| 0 <= j < i ==> (#[trigger] keys@[j] is Some) == attack_eligible(a, policy, units@[j]),
            forall|j: int| 0 <= j < i && (#[trigger] keys@[j]) is Some ==> keys@[j]->0@ == attack_key(a, policy, units@[j]),
            keys_distinct(keys@, attack_key_len(a)),
            distinct_unit_ids(units@),
        decreases units@.len() - i,
    {
        let u = units[i];
        assert(units@[ix(i)] == u);
        let entry = attack_entry(&a, policy, &u);
        proof {
            lemma_attack_key_distinct(a, policy, u, u);
            assert forall|j: int| 0 <= j < i && (#[trigger] keys@[j]) is Some && entry is Some implies keys@[j]->0@ != entry->0@ by {
                {
                    assert(units@[j].id != u.id);
                    lemma_attack_key_distinct(a, policy, units@[j], u);
                }
            }
        }
        keys.push(entry);
        i = i + 1;
    }
    proof {
        assert forall|k: int| 0 <= k < units@.len() && (#[trigger] units@[k]).id == attacker_id implies units@[k] == a by {
            if k != ix(ai) {
                if k < ix(ai) {
                    assert(units@[k].id != units@[ix(ai)].id);
                } else {
                    assert(units@[ix(ai)].id != units@[k].id);
                }
            }
        }
    }
    select_by_keys(
        units,
        &keys,
        Ghost(|u: TargetCandidate| attack_eligible(a, policy, u)),
        Ghost(|u: TargetCandidate| attack_key(a, policy, u)),
        Ghost(attack_key_len(a)),
    )
}


/// A living enemy of `owner`, placed on the battlefield.
pub open spec fn placed_enemy(owner: Side, u: TargetCandidate) -> bool {
    is_living_enemy(owner, u) && u.tile is Some
}

pub open spec fn nearest_key(from: Position, u: TargetCandidate) -> Seq<i128> {
    distance_id_key(chebyshev_spec(from, u.tile->0), u.id)
}

/// The tile of the unit `id`, if it is known and placed.
pub open spec fn tile_of(units: Seq<TargetCandidate>, id: u128) -> Option<Position> {
    if exists|i: int| 0 <= i < units.len() && #[trigger] units[i].id == id {
        units[choose|i: int| 0 <= i < units.len() && #[trigger] units[i].id == id].tile
    } else {
        None
    }
}

pub proof fn lemma_tile_of(units: Seq<TargetCandidate>, i: int)
    requires
        distinct_unit_ids(units),
        0 <= i < units.len(),
    ensures
        tile_of(units, units[i].id) == units[i].tile,
{
    let id = units[i].id;
    assert(exists|k: int| 0 <= k < units.len() && #[trigger] units[k].id == id);
    let k = choose|k: int| 0 <= k < units.len() && #[trigger] units[k].id == id;
    if k != i {
        if k < i {
            assert(units[k].id != units[i].id);
        } else {
            assert(units[i].id != units[k].id);
        }
    }
}

/// The living enemy nearest by tiles to the unit `from` of side `from_side`,
/// ties to the smallest identifier; `None` when `from` is not placed or no
/// enemy is placed.
pub fn find_nearest_alive_enemy(from: u128, from_side: Side, units: &Vec<TargetCandidate>) -> (r: Option<u128>)
    requires
        distinct_unit_ids(units@),
    ensures
        tile_of(units@, from) is None ==> r is None,
        tile_of(units@, from) matches Some(from_pos) ==> selects(
            units@,
            |u: TargetCandidate| placed_enemy(from_side, u),
            |u: TargetCandidate| nearest_key(from_pos, u),
            r,
        ),
{
    let from_pos = match find_unit(units, from) {
        Some(fi) => {
            proof {
                lemma_tile_of(units@, ix(fi));
            }
            match units[fi].tile {
                Some(p) => p,
                None => {
                    return None;
                },
            }
        },
        None => {
            return None;
        },
    };
    let mut keys: Vec<Option<Vec<i128>>> = Vec::new();
    let mut i: usize = 0;
    while i < units.len()
        invariant
            0 <= i <= units@.len(),
            distinct_unit_ids(units@),
            keys@.len() == i,
            forall|j: int| 0 <= j < i ==> (#[trigger] keys@[j] is Some) == placed_enemy(from_side, units@[j]),
            forall|j: int| 0 <= j < i && (#[trigger] keys@[j]) is Some ==> keys@[j]->0@ == nearest_key(from_pos, units@[j]),
            keys_distinct(keys@, 3),
        decreases units@.len() - i,
    {
        let u = units[i];
        let mut entry: Option<Vec<i128>> = None;
        if u.current_health != 0 && u.owner != from_side {
            match u.tile {
                Some(t) => {
                    let d = from_pos.chebyshev(&t);
                    entry = Some(distance_id_key_of(d as i128, u.id));
                },
                None => {},
            }
        }
        proof {
            lemma_distance_id_key_distinct(0, u.id, 0, u.id);
            assert forall|j: int| 0 <= j < i && (#[trigger] keys@[j]) is Some && entry is Some implies keys@[j]->0@ != entry->0@ by {
                let w = units@[j];
                assert(w.id != u.id);
                lemma_distance_id_key_distinct(chebyshev_spec(from_pos, w.tile->0), w.id, chebyshev_spec(from_pos, u.tile->0), u.id);
            }
        }
        keys.push(entry);
        i = i + 1;
    }
    select_by_keys(
        units,
        &keys,
        Ghost(|u: TargetCandidate| placed_enemy(from_side, u)),
        Ghost(|u: TargetCandidate| nearest_key(from_pos, u)),
        Ghost(3),
    )
}

/// The outcome of a battle.
#[derive(Debug, Clone, Copy, PartialEq, Eq, Structural)]
pub enum BattleWinner {
    Player,
    Opponent,
    Draw,
}

pub open spec fn side_alive(units: Seq<TargetCandidate>, side: Side) -> bool {
    exists|i: int| 0 <= i < units.len() && (#[trigger] units[i]).current_health != 0 && units[i].owner == side
}

/// The winner once the battle is decided: `None` while both sides have a
/// living unit, otherwise the side that has one, or a draw when neither has.
pub open spec fn winner_spec(units: Seq<TargetCandidate>) -> Option<BattleWinner> {
    let p = side_alive(units, Side::Player);
    let o = side_alive(units, Side::Opponent);
    if p && o {
        None
    } else if p {
        Some(BattleWinner::Player)
    } else if o {
        Some(BattleWinner::Opponent)
    } else {
        Some(BattleWinner::Draw)
    }
}

/// The winner of the battle among `units`, if it is decided.
pub fn compute_winner(units: &Vec<TargetCandidate>) -> (r: Option<BattleWinner>)
    ensures
        r == winner_spec(units@),
{
    let mut player_alive = false;
    let mut opponent_alive = false;
    let mut i: usize = 0;
    while i < units.len()
        invariant
            0 <= i <= units@.len(),
            player_alive == exists|j: int| 0 <= j < i && (#[trigger] units@[j]).current_health != 0 && units@[j].owner == Side::Player,
            opponent_alive == exists|j: int| 0 <= j < i && (#[trigger] units@[j]).current_health != 0 && units@[j].owner == Side::Opponent,
            !(player_alive && opponent_alive),
        decreases units@.len() - i,
    {
        let u = units[i];
        if u.current_health != 0 {
            match u.owner {
                Side::Player => {
                    player_alive = true;
                },
                Side::Opponent => {
                    opponent_alive = true;
                },
            }
        }
        i = i + 1;
        if player_alive && opponent_alive {
            return None;
        }
    }
    assert(player_alive == side_alive(units@, Side::Player));
    assert(opponent_alive == side_alive(units@, Side::Opponent));
    if player_alive {
        Some(BattleWinner::Player)
    } else if opponent_alive {
        Some(BattleWinner::Opponent)
    } else {
        Some(BattleWinner::Draw)
    }
}

/// The unit `id` is known, alive, and not of side `owner`.
pub open spec fn alive_enemy_spec(units: Seq<TargetCandidate>, id: u128, owner: Side) -> bool {
    exists|i: int| 0 <= i < units.len() && (#[trigger] units[i]).id == id && is_living_enemy(owner, units[i])
}

pub fn is_alive_enemy(units: &Vec<TargetCandidate>, id: u128, owner: Side) -> (r: bool)
    requires
        distinct_unit_ids(units@),
    ensures
        r == alive_enemy_spec(units@, id, owner),
{
    match find_unit(units, id) {
        Some(i) => {
            let u = units[i];
            proof {
                if alive_enemy_spec(units@, id, owner) {
                    let k = choose|k: int| 0 <= k < units@.len() && (#[trigger] units@[k]).id == id && is_living_enemy(owner, units@[k]);
                    if k != ix(i) {
                        if k < ix(i) {
                            assert(units@[k].id != units@[ix(i)].id);
                        } else {
                            assert(units@[ix(i)].id != units@[k].id);
                        }
                    }
                }
            }
            u.owner != owner && u.current_health != 0
        },
        None => false,
    }
}

/// The current target, kept while it is a living enemy.
pub fn persisted_target_if_alive(units: &Vec<TargetCandidate>, owner: Side, current_target: Option<u128>) -> (r: Option<u128>)
    requires
        distinct_unit_ids(units@),
    ensures
        r == (match current_target {
            Some(id) => if alive_enemy_spec(units@, id, owner) { Some(id) } else { None },
            None => None,
        }),
{
    match current_target {
        Some(id) => if is_alive_enemy(units, id, owner) { Some(id) } else { None },
        None => None,
    }
}

/// The unit `id` is a living enemy of `owner` placed within `range_tiles`
/// of `attacker_pos`.
pub open spec fn target_in_range_spec(units: Seq<TargetCandidate>, id: u128, owner: Side, attacker_pos: Position, range_tiles: u8) -> bool {
    &&& alive_enemy_spec(units, id, owner)
    &&& match tile_of(units, id) {
        Some(t) => chebyshev_spec(attacker_pos, t) <= range_tiles,
        None => false,
    }
}

/// The current target, kept while it is a living enemy placed within
/// `range_tiles` of `attacker_pos`.
pub fn persisted_target_in_range(
    units: &Vec<TargetCandidate>,
    owner: Side,
    current_target: Option<u128>,
    attacker_pos: Position,
    range_tiles: u8,
) -> (r: Option<u128>)
    requires
        distinct_unit_ids(units@),
    ensures
        r == (match current_target {
            Some(id) => if target_in_range_spec(units@, id, owner, attacker_pos, range_tiles) { Some(id) } else { None },
            None => None,
        }),
{
    match persisted_target_if_alive(units, owner, current_target) {
        Some(id) => {
            match find_unit(units, id) {
                Some(i) => {
                    proof {
                        lemma_tile_of(units@, ix(i));
                    }
                    match units[i].tile {
                        Some(t) => if attacker_pos.chebyshev(&t) <= range_tiles as i64 { Some(id) } else { None },
                        None => None,
                    }
                },
                None => None,
            }
        },
        None => None,
    }
}

/// For an attacker judged by continuous range: the current target, kept
/// while it is a living enemy placed within the policy's tile range of the
/// attacker's tile. `None` for other attackers.
pub fn persisted_target_in_tile_range_for_continuous_melee(
    units: &Vec<TargetCandidate>,
    attacker_id: u128,
    policy: BasicAttackRangePolicy,
    current_target: Option<u128>,
) -> (r: Option<u128>)
    requires
        distinct_unit_ids(units@),
    ensures
        !policy.use_continuous_range ==> r is None,
        tile_of(units@, attacker_id) is None ==> r is None,
        policy.use_continuous_range ==> (tile_of(units@, attacker_id) matches Some(apos) ==> r == (match current_target {
            Some(id) => if target_in_range_spec(units@, id, owner_of(units@, attacker_id), apos, policy.range_tiles) {
                Some(id)
            } else {
                None
            },
            None => None,
        })),
{
    let ai = match find_unit(units, attacker_id) {
        Some(ai) => ai,
        None => {
            return None;
        },
    };
    proof {
        lemma_tile_of(units@, ix(ai));
        lemma_owner_of(units@, ix(ai));
    }
    if !policy.use_continuous_range {
        return None;
    }
    match units[ai].tile {
        Some(apos) => persisted_target_in_range(units, units[ai].owner, current_target, apos, policy.range_tiles),
        None => None,
    }
}

/// The side of the unit `id`, if it is known.
pub open spec fn owner_of(units: Seq<TargetCandidate>, id: u128) -> Side {
    units[choose|i: int| 0 <= i < units.len() && #[trigger] units[i].id == id].owner
}

proof fn lemma_owner_of(units: Seq<TargetCandidate>, i: int)
    requires
        distinct_unit_ids(units),
        0 <= i < units.len(),
    ensures
        owner_of(units, units[i].id) == units[i].owner,
{
    let id = units[i].id;
    assert(exists|k: int| 0 <= k < units.len() && #[trigger] units[k].id == id);
    let k = choose|k: int| 0 <= k < units.len() && #[trigger] units[k].id == id;
    if k != i {
        if k < i {
            assert(units[k].id != units[i].id);
        } else {
            assert(units[i].id != units[k].id);
        }
    }
}

/// For an attacker judged by continuous range and placed: the enemy within
/// the policy's tile range of its tile that it should attack, as
/// `choose_enemy_target_in_tile_range` picks it. `None` for other attackers.
pub fn choose_attack_target_in_tile_range_for_continuous_melee(
    units: &Vec<TargetCandidate>,
    attacker_id: u128,
    policy: BasicAttackRangePolicy,
) -> (r: Option<u128>)
    requires
        distinct_unit_ids(units@),
    ensures
        !policy.use_continuous_range ==> r is None,
        tile_of(units@, attacker_id) is None ==> r is None,
        policy.use_continuous_range ==> (tile_of(units@, attacker_id) matches Some(apos) ==> selects(
            units@,
            |u: TargetCandidate| in_tile_range(owner_of(units@, attacker_id), apos, policy.range_tiles, u),
            |u: TargetCandidate| tile_range_key(owner_of(units@, attacker_id), apos, u),
            r,
        )),
{
    let ai = match find_unit(units, attacker_id) {
        Some(ai) => ai,
        None => {
            return None;
        },
    };
    proof {
        lemma_tile_of(units@, ix(ai));
        lemma_owner_of(units@, ix(ai));
    }
    if !policy.use_continuous_range {
        return None;
    }
    match units[ai].tile {
        Some(apos) => choose_enemy_target_in_tile_range(units[ai].owner, apos, policy.range_tiles, units),
        None => None,
    }
}

/// The attack range of the unit `id` as target ordering sees it: the
/// unit's own range, or the largest range when the unit is unknown.
pub open spec fn range_of(units: Seq<TargetCandidate>, id: u128) -> u8 {
    if exists|i: int| 0 <= i < units.len() && #[trigger] units[i].id == id {
        units[choose|i: int| 0 <= i < units.len() && #[trigger] units[i].id == id].range_tiles
    } else {
        u8::MAX
    }
}

pub fn enemy_target_range_tiles(units: &Vec<TargetCandidate>, id: u128) -> (r: u8)
    requires
        distinct_unit_ids(units@),
    ensures
        r == range_of(units@, id),
{
    match find_unit(units, id) {
        Some(i) => {
            proof {
                let k = choose|k: int| 0 <= k < units@.len() && #[trigger] units@[k].id == id;
                if k != ix(i) {
                    if k < ix(i) {
                        assert(units@[k].id != units@[ix(i)].id);
                    } else {
                        assert(units@[ix(i)].id != units@[k].id);
                    }
                }
            }
            units[i].range_tiles
        },
        None => u8::MAX,
    }
}

/// How a skill picks the unit it targets.
#[derive(Debug, Clone, Copy, PartialEq, Eq, Structural)]
pub enum UnitTargetRule {
    /// The caster's current target while it is in range, else the nearest.
    CurrentTarget,
    /// The enemy in range with the least health, then the nearest, then
    /// the smallest identifier.
    LowestHealthEnemy,
    /// The nearest enemy in range, as basic attacks rank them.
    Nearest,
}

/// Key ordering enemies by health, then distance, then identifier.
pub open spec fn lowest_health_key(caster_pos: Position, u: TargetCandidate) -> Seq<i128> {
    seq![u.current_health as i128, chebyshev_spec(caster_pos, u.tile->0) as i128] + id_key(u.id)
}

proof fn lemma_lowest_health_key_distinct(caster_pos: Position, u: TargetCandidate, w: TargetCandidate)
    ensures
        lowest_health_key(caster_pos, u).len() == 4,
        u.id != w.id ==> lowest_health_key(caster_pos, u) != lowest_health_key(caster_pos, w),
{
    lemma_id_key_injective(u.id, w.id);
    let k1 = lowest_health_key(caster_pos, u);
    let k2 = lowest_health_key(caster_pos, w);
    if u.id != w.id && k1 == k2 {
        assert(k1.subrange(2, 4) =~= id_key(u.id));
        assert(k2.subrange(2, 4) =~= id_key(w.id));
    }
}

fn lowest_health_enemy_in_range(
    units: &Vec<TargetCandidate>,
    caster_owner: Side,
    caster_pos: Position,
    range_tiles: u8,
) -> (r: Option<u128>)
    requires
        distinct_unit_ids(units@),
    ensures
        selects(
            units@,
            |u: TargetCandidate| in_tile_range(caster_owner, caster_pos, range_tiles, u),
            |u: TargetCandidate| lowest_health_key(caster_pos, u),
            r,
        ),
{
    let mut keys: Vec<Option<Vec<i128>>> = Vec::new();
    let mut i: usize = 0;
    while i < units.len()
        invariant
            0 <= i <= units@.len(),
            distinct_unit_ids(units@),
            keys@.len() == i,
            forall|j: int| 0 <= j < i ==> (#[trigger] keys@[j] is Some) == in_tile_range(caster_owner, caster_pos, range_tiles, units@[j]),
            forall|j: int| 0 <= j < i && (#[trigger] keys@[j]) is Some ==> keys@[j]->0@ == lowest_health_key(caster_pos, units@[j]),
            keys_distinct(keys@, 4),
        decreases units@.len() - i,
    {
        let u = units[i];
        let mut entry: Option<Vec<i128>> = None;
        if u.current_health != 0 && u.owner != caster_owner {
            match u.tile {
                Some(t) => {
                    let d = caster_pos.chebyshev(&t);
                    if d <= range_tiles as i64 {
                        let ik = id_key_of(u.id);
                        let k = vec![u.current_health as i128, d as i128, ik[0], ik[1]];
                        assert(k@ =~= lowest_health_key(caster_pos, u));
                        entry = Some(k);
                    }
                },
                None => {},
            }
        }
        proof {
            lemma_lowest_health_key_distinct(caster_pos, u, u);
            assert forall|j: int| 0 <= j < i && (#[trigger] keys@[j]) is Some && entry is Some implies keys@[j]->0@ != entry->0@ by {
                assert(units@[j].id != u.id);
                lemma_lowest_health_key_distinct(caster_pos, units@[j], u);
            }
        }
        keys.push(entry);
        i = i + 1;
    }
    select_by_keys(
        units,
        &keys,
        Ghost(|u: TargetCandidate| in_tile_range(caster_owner, caster_pos, range_tiles, u)),
        Ghost(|u: TargetCandidate| lowest_health_key(caster_pos, u)),
        Ghost(4),
    )
}

/// The unit `id` is placed within `range_tiles` of `caster_pos`.
pub open spec fn placed_in_range(units: Seq<TargetCandidate>, id: u128, caster_pos: Position, range_tiles: u8) -> bool {
    match tile_of(units, id) {
        Some(t) => chebyshev_spec(caster_pos, t) <= range_tiles,
        None => false,
    }
}

fn is_placed_in_range(units: &Vec<TargetCandidate>, id: u128, caster_pos: Position, range_tiles: u8) -> (r: bool)
    requires
        distinct_unit_ids(units@),
    ensures
        r == placed_in_range(units@, id, caster_pos, range_tiles),
{
    match find_unit(units, id) {
        Some(i) => {
            proof {
                lemma_tile_of(units@, ix(i));
            }
            match units[i].tile {
                Some(t) => caster_pos.chebyshev(&t) <= range_tiles as i64,
                None => false,
            }
        },
        None => false,
    }
}

/// What a rule picks before the final range check.
pub open spec fn rule_pick(
    units: Seq<TargetCandidate>,
    caster_current_target: Option<u128>,
    caster_owner: Side,
    caster_pos: Position,
    range_tiles: u8,
    rule: UnitTargetRule,
    nearest: Option<u128>,
    lowest: Option<u128>,
) -> Option<u128> {
    match rule {
        UnitTargetRule::CurrentTarget => match caster_current_target {
            Some(id) => if target_in_range_spec(units, id, caster_owner, caster_pos, range_tiles) {
                Some(id)
            } else {
                nearest
            },
            None => nearest,
        },
        UnitTargetRule::LowestHealthEnemy => lowest,
        UnitTargetRule::Nearest => nearest,
    }
}

/// The unit a skill of a caster of `caster_owner` at `caster_pos` targets
/// under `rule`, within `range_tiles`; `caster_current_target` is the
/// caster's locked target (none when the caster is unknown). The pick is
/// kept only if it is placed within range.
pub fn choose_skill_target_by_rule(
    units: &Vec<TargetCandidate>,
    caster_current_target: Option<u128>,
    caster_owner: Side,
    caster_pos: Position,
    range_tiles: u8,
    rule: UnitTargetRule,
) -> (r: Option<u128>)
    requires
        distinct_unit_ids(units@),
    ensures
        r == (match rule_pick(
            units@,
            caster_current_target,
            caster_owner,
            caster_pos,
            range_tiles,
            rule,
            selected(
                units@,
                |u: TargetCandidate| in_tile_range(caster_owner, caster_pos, range_tiles, u),
                |u: TargetCandidate| tile_range_key(caster_owner, caster_pos, u),
            ),
            selected(
                units@,
                |u: TargetCandidate| in_tile_range(caster_owner, caster_pos, range_tiles, u),
                |u: TargetCandidate| lowest_health_key(caster_pos, u),
            ),
        ) {
            Some(id) => if placed_in_range(units@, id, caster_pos, range_tiles) { Some(id) } else { None },
            None => None,
        }),
{
    let nearest = choose_enemy_target_in_tile_range(caster_owner, caster_pos, range_tiles, units);
    let lowest = lowest_health_enemy_in_range(units, caster_owner, caster_pos, range_tiles);
    proof {
        lemma_selects_unique(
            units@,
            |u: TargetCandidate| in_tile_range(caster_owner, caster_pos, range_tiles, u),
            |u: TargetCandidate| tile_range_key(caster_owner, caster_pos, u),
            nearest,
        );
        lemma_selects_unique(
            units@,
            |u: TargetCandidate| in_tile_range(caster_owner, caster_pos, range_tiles, u),
            |u: TargetCandidate| lowest_health_key(caster_pos, u),
            lowest,
        );
    }
    let picked = match rule {
        UnitTargetRule::CurrentTarget => match persisted_target_in_range(units, caster_owner, caster_current_target, caster_pos, range_tiles) {
            Some(id) => Some(id),
            None => nearest,
        },
        UnitTargetRule::LowestHealthEnemy => lowest,
        UnitTargetRule::Nearest => nearest,
    };
    let r = match picked {
        Some(id) => if is_placed_in_range(units, id, caster_pos, range_tiles) { Some(id) } else { None },
        None => None,
    };
    assert(picked == rule_pick(units@, caster_current_target, caster_owner, caster_pos, range_tiles, rule, nearest, lowest));
    r
}

/// Under `LowestHealthEnemy` (see `choose_skill_target_by_rule`, whose
/// result `r` is), the pick is an enemy in range with the least health of
/// all enemies in range, of those with that health the nearest to the
/// caster (Chebyshev distance of the tiles), and of those the one with the
/// smallest identifier; there is no pick exactly when no enemy is in range.
pub proof fn lemma_lowest_health_pick(
    units: Seq<TargetCandidate>,
    caster_current_target: Option<u128>,
    caster_owner: Side,
    caster_pos: Position,
    range_tiles: u8,
    r: Option<u128>,
)
    requires
        distinct_unit_ids(units),
        r == (match rule_pick(
            units,
            caster_current_target,
            caster_owner,
            caster_pos,
            range_tiles,
            UnitTargetRule::LowestHealthEnemy,
            selected(
                units,
                |u: TargetCandidate| in_tile_range(caster_owner, caster_pos, range_tiles, u),
                |u: TargetCandidate| tile_range_key(caster_owner, caster_pos, u),
            ),
            selected(
                units,
                |u: TargetCandidate| in_tile_range(caster_owner, caster_pos, range_tiles, u),
                |u: TargetCandidate| lowest_health_key(caster_pos, u),
            ),
        ) {
            Some(id) => if placed_in_range(units, id, caster_pos, range_tiles) { Some(id) } else { None },
            None => None,
        }),
    ensures
        r matches Some(id) ==> exists|i: int|
            0 <= i < units.len() && #[trigger] units[i].id == id && in_tile_range(caster_owner, caster_pos, range_tiles, units[i])
                && forall|j: int|
                0 <= j < units.len() && in_tile_range(caster_owner, caster_pos, range_tiles, #[trigger] units[j]) ==> {
                    &&& units[i].current_health <= units[j].current_health
                    &&& units[i].current_health == units[j].current_health ==> chebyshev_spec(caster_pos, units[i].tile->0)
                        <= chebyshev_spec(caster_pos, units[j].tile->0)
                    &&& units[i].current_health == units[j].current_health && chebyshev_spec(caster_pos, units[i].tile->0)
                        == chebyshev_spec(caster_pos, units[j].tile->0) ==> units[i].id <= units[j].id
                },
        r is None <==> forall|j: int| 0 <= j < units.len() ==> !in_tile_range(caster_owner, caster_pos, range_tiles, #[trigger] units[j]),
{
    let eligible = |u: TargetCandidate| in_tile_range(caster_owner, caster_pos, range_tiles, u);
    let key = |u: TargetCandidate| lowest_health_key(caster_pos, u);
    if exists|i: int| 0 <= i < units.len() && eligible(#[trigger] units[i]) {
        lemma_lowest_keys_ok(units, eligible, caster_pos);
        lemma_best_in_prefix(units, eligible, key, 4, units.len() as int);
        let c = choose|c: int| #[trigger] best_among(units, eligible, key, units.len() as int, c);
        assert(is_best_target(units, eligible, key, c));
        let c2 = choose|c: int| is_best_target(units, eligible, key, c);
        if c2 != c {
            lemma_key_lt_asymmetric(key(units[c]), key(units[c2]));
        }
        lemma_tile_of(units, c);
        assert(r == Some(units[c].id));
        assert forall|j: int|
            0 <= j < units.len() && in_tile_range(caster_owner, caster_pos, range_tiles, #[trigger] units[j]) implies {
                &&& units[c].current_health <= units[j].current_health
                &&& units[c].current_health == units[j].current_health ==> chebyshev_spec(caster_pos, units[c].tile->0)
                    <= chebyshev_spec(caster_pos, units[j].tile->0)
                &&& units[c].current_health == units[j].current_health && chebyshev_spec(caster_pos, units[c].tile->0)
                    == chebyshev_spec(caster_pos, units[j].tile->0) ==> units[c].id <= units[j].id
            } by {
            if j != c {
                assert(eligible(units[j]));
                lemma_lowest_key_order(caster_pos, units[c], units[j]);
            }
        }
    }
}

/// A unit whose lowest-health key comes strictly before another's has no
/// more health, and with equal health is no farther.
proof fn lemma_lowest_key_order(caster_pos: Position, u: TargetCandidate, w: TargetCandidate)
    requires
        key_lt(lowest_health_key(caster_pos, u), lowest_health_key(caster_pos, w)),
    ensures
        u.current_health <= w.current_health,
        u.current_health == w.current_health ==> chebyshev_spec(caster_pos, u.tile->0) <= chebyshev_spec(caster_pos, w.tile->0),
        u.current_health == w.current_health && chebyshev_spec(caster_pos, u.tile->0) == chebyshev_spec(caster_pos, w.tile->0)
            ==> u.id < w.id,
{
    let ku = lowest_health_key(caster_pos, u);
    let kw = lowest_health_key(caster_pos, w);
    crate::order::lemma_key_lt_head(ku, kw);
    if ku[0] == kw[0] {
        let ku1 = ku.drop_first();
        let kw1 = kw.drop_first();
        crate::order::lemma_key_lt_head(ku1, kw1);
        assert(ku1[0] == ku[1]);
        assert(kw1[0] == kw[1]);
        if ku1[0] == kw1[0] {
            let ku2 = ku1.drop_first();
            let kw2 = kw1.drop_first();
            assert(ku2 =~= id_key(u.id));
            assert(kw2 =~= id_key(w.id));
            crate::order::lemma_key_lt_head(ku2, kw2);
            let hu = u.id / 0x1_0000_0000_0000_0000;
            let hw = w.id / 0x1_0000_0000_0000_0000;
            let lu = u.id % 0x1_0000_0000_0000_0000;
            let lw = w.id % 0x1_0000_0000_0000_0000;
            if hu == hw {
                crate::order::lemma_key_lt_head(ku2.drop_first(), kw2.drop_first());
                assert(lu < lw);
            } else {
                assert(hu < hw);
            }
            assert(u.id == hu * 0x1_0000_0000_0000_0000 + lu);
            assert(w.id == hw * 0x1_0000_0000_0000_0000 + lw);
            assert(u.id < w.id) by (nonlinear_arith)
                requires
                    u.id == hu * 0x1_0000_0000_0000_0000 + lu,
                    w.id == hw * 0x1_0000_0000_0000_0000 + lw,
                    hu <= hw,
                    hu == hw ==> lu < lw,
                    0 <= lu < 0x1_0000_0000_0000_0000,
                    0 <= lw < 0x1_0000_0000_0000_0000,
            ;
        }
    }
}

/// The lowest-health keys of distinct units are distinct and of length four.
proof fn lemma_lowest_keys_ok(units: Seq<TargetCandidate>, eligible: spec_fn(TargetCandidate) -> bool, caster_pos: Position)
    requires
        distinct_unit_ids(units),
    ensures
        forall|a: int| 0 <= a < units.len() ==> (#[trigger] lowest_health_key(caster_pos, units[a])).len() == 4,
        forall|a: int, b: int|
            0 <= a < units.len() && 0 <= b < units.len() && a != b ==> #[trigger] lowest_health_key(caster_pos, units[a])
                != #[trigger] lowest_health_key(caster_pos, units[b]),
{
    assert forall|a: int| 0 <= a < units.len() implies (#[trigger] lowest_health_key(caster_pos, units[a])).len() == 4 by {
        lemma_lowest_health_key_distinct(caster_pos, units[a], units[a]);
    }
    assert forall|a: int, b: int|
        0 <= a < units.len() && 0 <= b < units.len() && a != b implies #[trigger] lowest_health_key(caster_pos, units[a])
            != #[trigger] lowest_health_key(caster_pos, units[b]) by {
        if a < b {
            assert(units[a].id != units[b].id);
        } else {
            assert(units[b].id != units[a].id);
        }
        lemma_lowest_health_key_distinct(caster_pos, units[a], units[b]);
    }
}

/// Unit `c` is eligible among the first `k` and its key comes strictly
/// before those of the other eligible ones there.
pub open spec fn best_among(
    units: Seq<TargetCandidate>,
    eligible: spec_fn(TargetCandidate) -> bool,
    key: spec_fn(TargetCandidate) -> Seq<i128>,
    k: int,
    c: int,
) -> bool {
    &&& 0 <= c < k
    &&& eligible(units[c])
    &&& forall|j: int| 0 <= j < k && j != c && eligible(#[trigger] units[j]) ==> key_lt(key(units[c]), key(units[j]))
}

/// Among the first `k` units, if any is eligible, one is best (keys of
/// eligible units being distinct and of length `n`).
proof fn lemma_best_in_prefix(
    units: Seq<TargetCandidate>,
    eligible: spec_fn(TargetCandidate) -> bool,
    key: spec_fn(TargetCandidate) -> Seq<i128>,
    n: nat,
    k: int,
)
    requires
        0 <= k <= units.len(),
        forall|a: int| 0 <= a < units.len() ==> (#[trigger] key(units[a])).len() == n,
        forall|a: int, b: int| 0 <= a < units.len() && 0 <= b < units.len() && a != b ==> #[trigger] key(units[a]) != #[trigger] key(units[b]),
    ensures
        (exists|i: int| 0 <= i < k && eligible(#[trigger] units[i])) ==> exists|c: int| #[trigger] best_among(units, eligible, key, k, c),
    decreases k,
{
    if k == 0 {
        return;
    }
    lemma_best_in_prefix(units, eligible, key, n, k - 1);
    let last = k - 1;
    let earlier = exists|i: int| 0 <= i < k - 1 && eligible(#[trigger] units[i]);
    if earlier {
        let c = choose|c: int| #[trigger] best_among(units, eligible, key, k - 1, c);
        if !eligible(units[last]) {
            assert(best_among(units, eligible, key, k, c));
        } else {
            let kc = key(units[c]);
            let kl = key(units[last]);
            crate::order::lemma_lex_equal(kc, kl);
            crate::order::lemma_lex_antisymmetric(kc, kl);
            if key_lt(kl, kc) {
                assert forall|j: int| 0 <= j < k && j != last && eligible(#[trigger] units[j]) implies key_lt(kl, key(units[j])) by {
                    if j != c {
                        crate::order::lemma_lex_transitive(kl, kc, key(units[j]));
                    }
                }
                assert(best_among(units, eligible, key, k, last));
            } else {
                assert(best_among(units, eligible, key, k, c));
            }
        }
    } else if eligible(units[last]) {
        assert(best_among(units, eligible, key, k, last));
    }
}

} // verus!
