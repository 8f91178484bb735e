//! Chase planning: for every enemy the ordered destination tiles from which
//! the mover could attack it, and the enemies ordered by how good a chase
//! they offer.
use vstd::prelude::*;
use crate::arith::ix;
use crate::board::{candidates_exact, destination_candidates_in_order, insert_keyed, keys_sorted, BoardView};
use crate::keys::{candidate_order_for, lemma_plan_sort_key_distinct, plan_sort_key, plan_sort_key_len, plan_sort_key_of, CandidateOrder, PlanOrder};
use crate::order::key_lt;
use crate::position::{Position, Side};

verus! {

/// An enemy that could be chased.
#[derive(Debug, Clone, Copy, PartialEq, Eq, Structural)]
pub struct ChaseTarget {
    pub id: u128,
    pub pos: Position,
    /// The enemy's own basic attack range; enemies with a shorter range are
    /// preferred.
    pub range_tiles: u8,
}

/// A plan to chase one enemy.
#[derive(Debug, Clone)]
pub struct EnemyChasePlan {
    pub enemy_id: u128,
    pub enemy_pos: Position,
    /// Breadth-first distance to the nearest destination.
    pub chase_dist: u32,
    /// The preferred destination.
    pub best_dest: Position,
    /// Every destination, best first.
    pub dest_candidates: Vec<Position>,
}

/// `plan` chases `enemy` along the exact candidate list `c`.
pub open spec fn plan_from(plan: EnemyChasePlan, c: Seq<(u32, Position)>, enemy: ChaseTarget) -> bool {
    &&& c.len() > 0
    &&& plan.enemy_id == enemy.id
    &&& plan.enemy_pos == enemy.pos
    &&& plan.chase_dist == c[0].0
    &&& plan.best_dest == c[0].1
    &&& plan.dest_candidates@ == c.map_values(|e: (u32, Position)| e.1)
}

/// `plan` is the chase plan of `enemy` for a mover with `range_tiles`.
pub open spec fn plan_matches(
    plan: EnemyChasePlan,
    board: BoardView,
    order: PlanOrder,
    enemy: ChaseTarget,
    range_tiles: int,
) -> bool {
    exists|c: Seq<(u32, Position)>|
        candidates_exact(c, board, enemy.pos, range_tiles, candidate_order_for(order, enemy.pos))
            && #[trigger] plan_from(plan, c, enemy)
}

/// Sort key of a plan for `enemy`.
pub open spec fn key_of_plan(order: PlanOrder, plan: EnemyChasePlan, enemy: ChaseTarget) -> Seq<i128> {
    plan_sort_key(order, plan.chase_dist, enemy.id, enemy.pos, enemy.range_tiles, plan.best_dest)
}

/// The enemies have pairwise different identifiers.
pub open spec fn distinct_ids(enemies: Seq<ChaseTarget>) -> bool {
    forall|a: int, b: int| 0 <= a < b < enemies.len() ==> (#[trigger] enemies[a]).id != (#[trigger] enemies[b]).id
}

/// `plan` is the chase plan of one of `enemies`.
pub open spec fn plan_of_some_enemy(
    plan: EnemyChasePlan,
    board: BoardView,
    order: PlanOrder,
    enemies: Seq<ChaseTarget>,
    range_tiles: int,
) -> bool {
    exists|j: int| 0 <= j < enemies.len() && plan.enemy_id == (#[trigger] enemies[j]).id
        && plan_matches(plan, board, order, enemies[j], range_tiles)
}

/// `out` holds one plan for every enemy with at least one destination and
/// nothing else, in strictly increasing plan order.
pub open spec fn plans_exact(
    out: Seq<EnemyChasePlan>,
    board: BoardView,
    order: PlanOrder,
    enemies: Seq<ChaseTarget>,
    range_tiles: int,
) -> bool {
    &&& forall|i: int| 0 <= i < out.len() ==> #[trigger] plan_of_some_enemy(out[i], board, order, enemies, range_tiles)
    &&& forall|j: int, p: Position| 0 <= j < enemies.len() && #[trigger] board.is_destination((#[trigger] enemies[j]).pos, range_tiles, p)
        ==> exists|i: int| 0 <= i < out.len() && (#[trigger] out[i]).enemy_id == enemies[j].id
    &&& forall|i1: int, i2: int, j1: int, j2: int|
        0 <= i1 < i2 < out.len() && 0 <= j1 < enemies.len() && 0 <= j2 < enemies.len()
            && (#[trigger] out[i1]).enemy_id == (#[trigger] enemies[j1]).id
            && (#[trigger] out[i2]).enemy_id == (#[trigger] enemies[j2]).id
            ==> key_lt(key_of_plan(order, out[i1], enemies[j1]), key_of_plan(order, out[i2], enemies[j2]))
}

fn positions_of(c: &Vec<(u32, Position)>) -> (r: Vec<Position>)
    ensures
        r@ == c@.map_values(|e: (u32, Position)| e.1),
{
    let mut r: Vec<Position> = Vec::new();
    let mut i: usize = 0;
    while i < c.len()
        invariant
            0 <= i <= c@.len(),
            r@ == c@.subrange(0, ix(i)).map_values(|e: (u32, Position)| e.1),
        decreases c@.len() - i,
    {
        r.push(c[i].1);
        assert(c@.subrange(0, ix(i) + 1).map_values(|e: (u32, Position)| e.1) =~= c@.subrange(0, ix(i)).map_values(|e: (u32, Position)| e.1).push(c@[ix(i)].1));
        i = i + 1;
    }
    assert(c@.subrange(0, c@.len() as int) =~= c@);
    r
}

/// The chase plans of `enemies`, ordered by `order`.
fn plans_in_order(board: &BoardView, order: PlanOrder, enemies: &Vec<ChaseTarget>, range_tiles: u8) -> (out: Vec<EnemyChasePlan>)
    requires
        board.wf(),
        distinct_ids(enemies@),
        order matches PlanOrder::Preference { owner, start } ==> forall|j: int| 0 <= j < enemies@.len() ==> {
            &&& i32::MIN <= (#[trigger] enemies@[j]).pos.x - range_tiles && enemies@[j].pos.x + range_tiles <= i32::MAX
            &&& i32::MIN <= enemies@[j].pos.y - range_tiles && enemies@[j].pos.y + range_tiles <= i32::MAX
        },
    ensures
        plans_exact(out@, *board, order, enemies@, range_tiles as int),
{
    let mut out: Vec<EnemyChasePlan> = Vec::new();
    let mut keys: Vec<Vec<i128>> = Vec::new();
    let ghost mut src: Seq<int> = seq![];
    let mut n: usize = 0;
    while n < enemies.len()
        invariant
            board.wf(),
            distinct_ids(enemies@),
            order matches PlanOrder::Preference { owner, start } ==> forall|j: int| 0 <= j < enemies@.len() ==> {
                &&& i32::MIN <= (#[trigger] enemies@[j]).pos.x - range_tiles && enemies@[j].pos.x + range_tiles <= i32::MAX
                &&& i32::MIN <= enemies@[j].pos.y - range_tiles && enemies@[j].pos.y + range_tiles <= i32::MAX
            },
            0 <= n <= enemies@.len(),
            out@.len() == keys@.len(),
            src.len() == out@.len(),
            keys_sorted(keys@),
            forall|i: int| 0 <= i < out@.len() ==> {
                &&& 0 <= #[trigger] src[i] < n
                &&& out@[i].enemy_id == enemies@[src[i]].id
                &&& plan_matches(out@[i], *board, order, enemies@[src[i]], range_tiles as int)
                &&& keys@[i]@ == key_of_plan(order, out@[i], enemies@[src[i]])
            },
            forall|k: int, p: Position| 0 <= k < n && #[trigger] board.is_destination((#[trigger] enemies@[k]).pos, range_tiles as int, p)
                ==> exists|i: int| 0 <= i < out@.len() && #[trigger] src[i] == k,
        decreases enemies@.len() - n,
    {
        let enemy = enemies[n];
        let candidates = match order {
            PlanOrder::ById => destination_candidates_in_order(board, enemy.pos, range_tiles),
            PlanOrder::Preference { owner, start } => board.destination_candidates_in_order(owner, start, enemy.pos, range_tiles),
        };
        assert(candidates_exact(candidates@, *board, enemy.pos, range_tiles as int, candidate_order_for(order, enemy.pos)));
        if candidates.len() > 0 {
            let first = candidates[0];
            let dest_candidates = positions_of(&candidates);
            let plan = EnemyChasePlan {
                enemy_id: enemy.id,
                enemy_pos: enemy.pos,
                chase_dist: first.0,
                best_dest: first.1,
                dest_candidates,
            };
            assert(plan_from(plan, candidates@, enemy));
            assert(plan_matches(plan, *board, order, enemy, range_tiles as int));
            let key = plan_sort_key_of(order, first.0, enemy.id, enemy.pos, enemy.range_tiles, first.1);
            proof {
                assert forall|i: int| 0 <= i < keys@.len() implies (#[trigger] keys@[i])@.len() == key@.len() && keys@[i]@ != key@ by {
                    let e = enemies@[src[i]];
                    assert(e.id != enemy.id);
                    lemma_plan_sort_key_distinct(order, out@[i].chase_dist, e.id, e.pos, e.range_tiles, out@[i].best_dest, first.0, enemy.id, enemy.pos, enemy.range_tiles, first.1);
                }
            }
            let ghost old_out = out@;
            let ghost old_src = src;
            let k = insert_keyed(&mut out, &mut keys, plan, key);
            proof {
                src = old_src.insert(ix(k), ix(n));
                assert forall|i: int| 0 <= i < out@.len() implies {
                    &&& 0 <= #[trigger] src[i] < n + 1
                    &&& out@[i].enemy_id == enemies@[src[i]].id
                    &&& plan_matches(out@[i], *board, order, enemies@[src[i]], range_tiles as int)
                    &&& keys@[i]@ == key_of_plan(order, out@[i], enemies@[src[i]])
                } by {
                    if i < k {
                        assert(out@[i] == old_out[i]);
                    } else if i > k {
                        assert(out@[i] == old_out[i - 1]);
                        assert(src[i] == old_src[i - 1]);
                    }
                }
                assert forall|kk: int, p: Position| 0 <= kk < n + 1 && #[trigger] board.is_destination((#[trigger] enemies@[kk]).pos, range_tiles as int, p)
                    implies exists|i: int| 0 <= i < out@.len() && #[trigger] src[i] == kk by {
                    if kk == n {
                        assert(src[ix(k)] == kk);
                    } else {
                        let i0 = choose|i: int| 0 <= i < old_src.len() && #[trigger] old_src[i] == kk;
                        if i0 < k {
                            assert(src[i0] == kk);
                        } else {
                            assert(src[i0 + 1] == kk);
                        }
                    }
                }
            }
        } else {
            proof {
                assert forall|kk: int, p: Position| 0 <= kk < n + 1 && #[trigger] board.is_destination((#[trigger] enemies@[kk]).pos, range_tiles as int, p)
                    implies exists|i: int| 0 <= i < out@.len() && #[trigger] src[i] == kk by {
                    if kk == n {
                        let i = choose|i: int| 0 <= i < candidates@.len() && (#[trigger] candidates@[i]).1 == p;
                        assert(false);
                    }
                }
            }
        }
        n = n + 1;
    }
    proof {
        assert forall|i: int| 0 <= i < out@.len() implies #[trigger] plan_of_some_enemy(out@[i], *board, order, enemies@, range_tiles as int) by {
            assert(out@[i].enemy_id == enemies@[src[i]].id);
        }
        assert forall|jj: int, p: Position| 0 <= jj < enemies@.len() && #[trigger] board.is_destination((#[trigger] enemies@[jj]).pos, range_tiles as int, p)
            implies exists|i: int| 0 <= i < out@.len() && (#[trigger] out@[i]).enemy_id == enemies@[jj].id by {
            let i = choose|i: int| 0 <= i < out@.len() && #[trigger] src[i] == jj;
            assert(out@[i].enemy_id == enemies@[jj].id);
        }
        assert forall|i1: int, i2: int, j1: int, j2: int|
            0 <= i1 < i2 < out@.len() && 0 <= j1 < enemies@.len() && 0 <= j2 < enemies@.len()
                && (#[trigger] out@[i1]).enemy_id == (#[trigger] enemies@[j1]).id
                && (#[trigger] out@[i2]).enemy_id == (#[trigger] enemies@[j2]).id
            implies key_lt(key_of_plan(order, out@[i1], enemies@[j1]), key_of_plan(order, out@[i2], enemies@[j2])) by {
            if src[i1] != j1 {
                assert(enemies@[src[i1]].id == enemies@[j1].id);
                if src[i1] < j1 {
                    assert(enemies@[src[i1]].id != enemies@[j1].id);
                } else {
                    assert(enemies@[j1].id != enemies@[src[i1]].id);
                }
            }
            if src[i2] != j2 {
                if src[i2] < j2 {
                    assert(enemies@[src[i2]].id != enemies@[j2].id);
                } else {
                    assert(enemies@[j2].id != enemies@[src[i2]].id);
                }
            }
            assert(key_lt(keys@[i1]@, keys@[i2]@));
        }
    }
    out
}

/// Chase plans for every enemy that has a destination on the board,
/// ordered by chase distance and then by enemy identifier (destinations
/// in tile order).
pub fn enemy_plans_in_order(board: &BoardView, enemies: &Vec<ChaseTarget>, range_tiles: u8) -> (out: Vec<EnemyChasePlan>)
    requires
        board.wf(),
        distinct_ids(enemies@),
    ensures
        plans_exact(out@, *board, PlanOrder::ById, enemies@, range_tiles as int),
{
    plans_in_order(board, PlanOrder::ById, enemies, range_tiles)
}

impl BoardView {
    /// Chase plans for a mover of `owner` at `mover_start`: one for every
    /// enemy that has a destination, ordered by chase distance, then by the
    /// enemy's own attack range, then by the plan preference of the mover,
    /// then by enemy identifier.
    pub fn formulate_enemy_chase_plan(
        &self,
        owner: Side,
        mover_start: Position,
        enemies: &Vec<ChaseTarget>,
        range_tiles: u8,
    ) -> (out: Vec<EnemyChasePlan>)
        requires
            self.wf(),
            distinct_ids(enemies@),
            forall|j: int| 0 <= j < enemies@.len() ==> {
                &&& i32::MIN <= (#[trigger] enemies@[j]).pos.x - range_tiles && enemies@[j].pos.x + range_tiles <= i32::MAX
                &&& i32::MIN <= enemies@[j].pos.y - range_tiles && enemies@[j].pos.y + range_tiles <= i32::MAX
            },
        ensures
            plans_exact(out@, *self, PlanOrder::Preference { owner, start: mover_start }, enemies@, range_tiles as int),
    {
        plans_in_order(self, PlanOrder::Preference { owner, start: mover_start }, enemies, range_tiles)
    }
}

} // verus!
