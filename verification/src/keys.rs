//! Sort keys of the preference orders. Keys compare lexicographically
//! (see `order`); a smaller key is preferred.
use vstd::prelude::*;
use crate::arith::abs_int;
use crate::position::{chebyshev_spec, Position, Side};

verus! {

/// A row number oriented for `owner`: the raw row for the player, the
/// negated row for the opponent. A smaller oriented row is preferred.
pub open spec fn forward_row(owner: Side, y: int) -> int {
    match owner {
        Side::Player => y,
        Side::Opponent => -y,
    }
}

/// Key ordering destination tiles `a` for a mover at `start` chasing an enemy
/// at `enemy`: row (oriented by side), distance to the enemy, sideways shift
/// from the mover, sideways offset from the enemy, then column and row.
pub open spec fn destination_key(owner: Side, start: Position, enemy: Position, a: Position) -> Seq<i128> {
    seq![
        forward_row(owner, a.y as int) as i128,
        chebyshev_spec(a, enemy) as i128,
        abs_int(a.x - start.x) as i128,
        abs_int(a.x - enemy.x) as i128,
        a.x as i128,
        a.y as i128,
    ]
}

/// Key ordering chase plans (an enemy and the best destination next to it)
/// for a mover at `start`.
pub open spec fn plan_key(owner: Side, start: Position, enemy: Position, dest: Position) -> Seq<i128> {
    seq![
        forward_row(owner, enemy.y as int) as i128,
        abs_int(enemy.x - start.x) as i128,
        forward_row(owner, dest.y as int) as i128,
        chebyshev_spec(dest, enemy) as i128,
        abs_int(dest.x - start.x) as i128,
        abs_int(dest.x - enemy.x) as i128,
        dest.x as i128,
        dest.y as i128,
    ]
}

/// An identifier split into two key components ordered like the identifier.
pub open spec fn id_key(id: u128) -> Seq<i128> {
    seq![(id / 0x1_0000_0000_0000_0000) as i128, (id % 0x1_0000_0000_0000_0000) as i128]
}

/// The oriented row of `y` for `owner`.
pub fn forward_row_of(owner: Side, y: i32) -> (r: i128)
    ensures
        r == forward_row(owner, y as int),
{
    match owner {
        Side::Player => y as i128,
        Side::Opponent => -(y as i128),
    }
}

fn abs_diff(a: i32, b: i32) -> (r: i128)
    ensures
        r == abs_int(a - b),
{
    let d: i128 = a as i128 - b as i128;
    if d >= 0 { d } else { -d }
}

/// The destination key of tile `a`.
pub fn destination_key_of(owner: Side, start: Position, enemy: Position, a: Position) -> (r: [i128; 6])
    ensures
        r@ == destination_key(owner, start, enemy, a),
{
    let r = [
        forward_row_of(owner, a.y),
        a.chebyshev(&enemy) as i128,
        abs_diff(a.x, start.x),
        abs_diff(a.x, enemy.x),
        a.x as i128,
        a.y as i128,
    ];
    assert(r@ =~= destination_key(owner, start, enemy, a));
    r
}

/// The plan key of an enemy and destination.
pub fn plan_key_of(owner: Side, start: Position, enemy: Position, dest: Position) -> (r: [i128; 8])
    ensures
        r@ == plan_key(owner, start, enemy, dest),
{
    let r = [
        forward_row_of(owner, enemy.y),
        abs_diff(enemy.x, start.x),
        forward_row_of(owner, dest.y),
        dest.chebyshev(&enemy) as i128,
        abs_diff(dest.x, start.x),
        abs_diff(dest.x, enemy.x),
        dest.x as i128,
        dest.y as i128,
    ];
    assert(r@ =~= plan_key(owner, start, enemy, dest));
    r
}

/// The key of an identifier.
pub fn id_key_of(id: u128) -> (r: [i128; 2])
    ensures
        r@ == id_key(id),
{
    let r = [(id / 0x1_0000_0000_0000_0000) as i128, (id % 0x1_0000_0000_0000_0000) as i128];
    assert(r@ =~= id_key(id));
    r
}

/// How a list of destination candidates `(bfs distance, tile)` is ordered:
/// by distance then row and column, or by distance then the destination
/// preference of a mover.
#[derive(Debug, Clone, Copy, PartialEq, Eq, Structural)]
pub enum CandidateOrder {
    TileOrder,
    Preference { owner: Side, start: Position, enemy: Position },
}

pub open spec fn candidate_key(mode: CandidateOrder, c: (u32, Position)) -> Seq<i128> {
    match mode {
        CandidateOrder::TileOrder => seq![c.0 as i128, c.1.y as i128, c.1.x as i128],
        CandidateOrder::Preference { owner, start, enemy } => seq![c.0 as i128] + destination_key(
            owner,
            start,
            enemy,
            c.1,
        ),
    }
}

pub open spec fn candidate_key_len(mode: CandidateOrder) -> nat {
    match mode {
        CandidateOrder::TileOrder => 3,
        CandidateOrder::Preference { .. } => 7,
    }
}

/// Distinct tiles have distinct candidate keys.
pub proof fn lemma_candidate_key_injective(mode: CandidateOrder, a: (u32, Position), b: (u32, Position))
    ensures
        candidate_key(mode, a).len() == candidate_key_len(mode),
        a.1 != b.1 ==> candidate_key(mode, a) != candidate_key(mode, b),
{
    let ka = candidate_key(mode, a);
    let kb = candidate_key(mode, b);
    if a.1 != b.1 {
        match mode {
            CandidateOrder::TileOrder => {
                assert(ka[1] != kb[1] || ka[2] != kb[2]);
            },
            CandidateOrder::Preference { .. } => {
                assert(ka[5] != kb[5] || ka[6] != kb[6]);
            },
        }
    }
}

/// The key of a destination candidate.
pub fn candidate_key_of(mode: CandidateOrder, c: (u32, Position)) -> (r: Vec<i128>)
    ensures
        r@ == candidate_key(mode, c),
{
    match mode {
        CandidateOrder::TileOrder => {
            let r = vec![c.0 as i128, c.1.y as i128, c.1.x as i128];
            assert(r@ =~= candidate_key(mode, c));
            r
        },
        CandidateOrder::Preference { owner, start, enemy } => {
            let k = destination_key_of(owner, start, enemy, c.1);
            let r = vec![c.0 as i128, k[0], k[1], k[2], k[3], k[4], k[5]];
            assert(r@ =~= candidate_key(mode, c));
            r
        },
    }
}

/// Different identifiers have different keys.
pub proof fn lemma_id_key_injective(a: u128, b: u128)
    ensures
        a != b ==> id_key(a) != id_key(b),
{
    if a != b && id_key(a) == id_key(b) {
        assert(id_key(a)[0] == id_key(b)[0]);
        assert(id_key(a)[1] == id_key(b)[1]);
        vstd::arithmetic::div_mod::lemma_fundamental_div_mod(a as int, 0x1_0000_0000_0000_0000);
        vstd::arithmetic::div_mod::lemma_fundamental_div_mod(b as int, 0x1_0000_0000_0000_0000);
        assert(false);
    }
}

/// How chase plans are ordered: by chase distance then enemy identifier, or
/// by chase distance, the enemy's own attack range, the plan preference of
/// the mover, then the identifier.
#[derive(Debug, Clone, Copy, PartialEq, Eq, Structural)]
pub enum PlanOrder {
    ById,
    Preference { owner: Side, start: Position },
}

/// The candidate order used for the destinations next to an enemy at
/// `enemy_pos`.
pub open spec fn candidate_order_for(order: PlanOrder, enemy_pos: Position) -> CandidateOrder {
    match order {
        PlanOrder::ById => CandidateOrder::TileOrder,
        PlanOrder::Preference { owner, start } => CandidateOrder::Preference { owner, start, enemy: enemy_pos },
    }
}

pub open spec fn plan_sort_key(
    order: PlanOrder,
    chase_dist: u32,
    enemy_id: u128,
    enemy_pos: Position,
    enemy_range_tiles: u8,
    best_dest: Position,
) -> Seq<i128> {
    match order {
        PlanOrder::ById => seq![chase_dist as i128] + id_key(enemy_id),
        PlanOrder::Preference { owner, start } => seq![chase_dist as i128, enemy_range_tiles as i128]
            + plan_key(owner, start, enemy_pos, best_dest) + id_key(enemy_id),
    }
}

pub open spec fn plan_sort_key_len(order: PlanOrder) -> nat {
    match order {
        PlanOrder::ById => 3,
        PlanOrder::Preference { .. } => 12,
    }
}

/// Plan keys of different enemies differ.
pub proof fn lemma_plan_sort_key_distinct(
    order: PlanOrder,
    d1: u32,
    id1: u128,
    p1: Position,
    r1: u8,
    b1: Position,
    d2: u32,
    id2: u128,
    p2: Position,
    r2: u8,
    b2: Position,
)
    ensures
        plan_sort_key(order, d1, id1, p1, r1, b1).len() == plan_sort_key_len(order),
        id1 != id2 ==> plan_sort_key(order, d1, id1, p1, r1, b1) != plan_sort_key(order, d2, id2, p2, r2, b2),
{
    lemma_id_key_injective(id1, id2);
    let k1 = plan_sort_key(order, d1, id1, p1, r1, b1);
    let k2 = plan_sort_key(order, d2, id2, p2, r2, b2);
    if id1 != id2 && k1 == k2 {
        let n = plan_sort_key_len(order) as int;
        assert(k1.subrange(n - 2, n) =~= id_key(id1));
        assert(k2.subrange(n - 2, n) =~= id_key(id2));
    }
}

/// The sort key of a chase plan.
pub fn plan_sort_key_of(
    order: PlanOrder,
    chase_dist: u32,
    enemy_id: u128,
    enemy_pos: Position,
    enemy_range_tiles: u8,
    best_dest: Position,
) -> (r: Vec<i128>)
    ensures
        r@ == plan_sort_key(order, chase_dist, enemy_id, enemy_pos, enemy_range_tiles, best_dest),
{
    let id = id_key_of(enemy_id);
    match order {
        PlanOrder::ById => {
            let r = vec![chase_dist as i128, id[0], id[1]];
            assert(r@ =~= plan_sort_key(order, chase_dist, enemy_id, enemy_pos, enemy_range_tiles, best_dest));
            r
        },
        PlanOrder::Preference { owner, start } => {
            let k = plan_key_of(owner, start, enemy_pos, best_dest);
            let r = vec![
                chase_dist as i128,
                enemy_range_tiles as i128,
                k[0], k[1], k[2], k[3], k[4], k[5], k[6], k[7],
                id[0],
                id[1],
            ];
            assert(r@ =~= plan_sort_key(order, chase_dist, enemy_id, enemy_pos, enemy_range_tiles, best_dest));
            r
        },
    }
}

/// Key ordering enemies that are already in range of an attacker of
/// `owner` at `attacker_pos`: the enemy's own attack range, the plan order
/// with the enemy's tile as destination, then the identifier.
pub open spec fn in_range_key(owner: Side, attacker_pos: Position, id: u128, tile: Position, range_tiles: u8) -> Seq<i128> {
    seq![range_tiles as i128] + plan_key(owner, attacker_pos, tile, tile) + id_key(id)
}

/// Key ordering enemies by a distance first and then as `in_range_key`.
pub open spec fn distance_then_in_range_key(distance: int, owner: Side, attacker_pos: Position, id: u128, tile: Position, range_tiles: u8) -> Seq<i128> {
    seq![distance as i128] + in_range_key(owner, attacker_pos, id, tile, range_tiles)
}

/// Keys of different enemies differ.
pub proof fn lemma_distance_key_distinct(
    d1: int, owner: Side, apos: Position, id1: u128, t1: Position, r1: u8,
    d2: int, id2: u128, t2: Position, r2: u8,
)
    ensures
        distance_then_in_range_key(d1, owner, apos, id1, t1, r1).len() == 12,
        id1 != id2 ==> distance_then_in_range_key(d1, owner, apos, id1, t1, r1) != distance_then_in_range_key(d2, owner, apos, id2, t2, r2),
{
    lemma_id_key_injective(id1, id2);
    let k1 = distance_then_in_range_key(d1, owner, apos, id1, t1, r1);
    let k2 = distance_then_in_range_key(d2, owner, apos, id2, t2, r2);
    if id1 != id2 && k1 == k2 {
        assert(k1.subrange(10, 12) =~= id_key(id1));
        assert(k2.subrange(10, 12) =~= id_key(id2));
    }
}

/// The key of an enemy by distance, then as `in_range_key`.
pub fn distance_then_in_range_key_of(distance: i128, owner: Side, attacker_pos: Position, id: u128, tile: Position, range_tiles: u8) -> (r: Vec<i128>)
    ensures
        r@ == distance_then_in_range_key(distance as int, owner, attacker_pos, id, tile, range_tiles),
{
    let k = plan_key_of(owner, attacker_pos, tile, tile);
    let ik = id_key_of(id);
    let r = vec![distance, range_tiles as i128, k[0], k[1], k[2], k[3], k[4], k[5], k[6], k[7], ik[0], ik[1]];
    assert(r@ =~= distance_then_in_range_key(distance as int, owner, attacker_pos, id, tile, range_tiles));
    r
}

/// Key ordering by a distance, then by identifier.
pub open spec fn distance_id_key(distance: int, id: u128) -> Seq<i128> {
    seq![distance as i128] + id_key(id)
}

/// Keys of different enemies differ.
pub proof fn lemma_distance_id_key_distinct(d1: int, id1: u128, d2: int, id2: u128)
    ensures
        distance_id_key(d1, id1).len() == 3,
        id1 != id2 ==> distance_id_key(d1, id1) != distance_id_key(d2, id2),
{
    lemma_id_key_injective(id1, id2);
    let k1 = distance_id_key(d1, id1);
    let k2 = distance_id_key(d2, id2);
    if id1 != id2 && k1 == k2 {
        assert(k1.subrange(1, 3) =~= id_key(id1));
        assert(k2.subrange(1, 3) =~= id_key(id2));
    }
}

/// The key of an enemy by distance, then identifier.
pub fn distance_id_key_of(distance: i128, id: u128) -> (r: Vec<i128>)
    ensures
        r@ == distance_id_key(distance as int, id),
{
    let ik = id_key_of(id);
    let r = vec![distance, ik[0], ik[1]];
    assert(r@ =~= distance_id_key(distance as int, id));
    r
}

/// Key ordering by an attack range.
pub open spec fn range_key(range_tiles: u8) -> Seq<i128> {
    seq![range_tiles as i128]
}

/// Key ordering by an attack range, then identifier.
pub open spec fn range_id_key(range_tiles: u8, id: u128) -> Seq<i128> {
    range_key(range_tiles) + id_key(id)
}

/// The key of an attack range.
pub fn range_key_of(range_tiles: u8) -> (r: [i128; 1])
    ensures
        r@ == range_key(range_tiles),
{
    let r = [range_tiles as i128];
    assert(r@ =~= range_key(range_tiles));
    r
}

/// The key of an attack range, then identifier.
pub fn range_id_key_of(range_tiles: u8, id: u128) -> (r: [i128; 3])
    ensures
        r@ == range_id_key(range_tiles, id),
{
    let ik = id_key_of(id);
    let r = [range_tiles as i128, ik[0], ik[1]];
    assert(r@ =~= range_id_key(range_tiles, id));
    r
}

/// The key of an enemy already in range.
pub fn in_range_key_of(owner: Side, attacker_pos: Position, id: u128, tile: Position, range_tiles: u8) -> (r: [i128; 11])
    ensures
        r@ == in_range_key(owner, attacker_pos, id, tile, range_tiles),
{
    let p = plan_key_of(owner, attacker_pos, tile, tile);
    let ik = id_key_of(id);
    let r = [range_tiles as i128, p[0], p[1], p[2], p[3], p[4], p[5], p[6], p[7], ik[0], ik[1]];
    assert(r@ =~= in_range_key(owner, attacker_pos, id, tile, range_tiles));
    r
}

} // verus!
