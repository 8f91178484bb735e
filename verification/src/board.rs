//! A read-only view of the battlefield for planning: its size, each tile's
//! breadth-first distance from the mover and whether it is free; and the
//! ordered lists of destination tiles next to an enemy.
use vstd::prelude::*;
use crate::arith::ix;
use crate::keys::{candidate_key, candidate_key_len, candidate_key_of, lemma_candidate_key_injective, CandidateOrder};
use crate::order::{key_less, key_lt, lemma_lex_antisymmetric, lemma_lex_equal, lemma_lex_transitive};
use crate::position::{chebyshev_spec, Position};

verus! {

/// The planning view of a battlefield of `width` x `height` tiles; tile
/// `(x, y)` is entry `y * width + x` of both tables.
#[derive(Debug, Clone)]
pub struct BoardView {
    pub width: u8,
    pub height: u8,
    /// Breadth-first distance from the mover, `None` where unreachable.
    pub bfs_distance: Vec<Option<u32>>,
    /// Whether a unit may end its move on the tile.
    pub is_empty: Vec<bool>,
}

impl BoardView {
    pub open spec fn wf(&self) -> bool {
        &&& self.bfs_distance.len() == self.width * self.height
        &&& self.is_empty.len() == self.width * self.height
    }

    pub open spec fn contains(&self, p: Position) -> bool {
        0 <= p.x < self.width && 0 <= p.y < self.height
    }

    pub open spec fn tile_index(&self, p: Position) -> int {
        p.y * self.width + p.x
    }

    pub open spec fn distance_at(&self, p: Position) -> Option<u32> {
        if self.contains(p) { self.bfs_distance@[self.tile_index(p)] } else { None }
    }

    pub open spec fn free_at(&self, p: Position) -> bool {
        self.contains(p) && self.is_empty@[self.tile_index(p)]
    }

    /// `p` is a tile from which a unit with `range_tiles` could attack an
    /// enemy at `enemy`, that is free and that the mover can reach.
    pub open spec fn is_destination(&self, enemy: Position, range_tiles: int, p: Position) -> bool {
        &&& self.contains(p)
        &&& chebyshev_spec(p, enemy) <= range_tiles
        &&& self.free_at(p)
        &&& self.distance_at(p) is Some
    }

    pub fn in_bounds(&self, p: Position) -> (r: bool)
        ensures
            r == self.contains(p),
    {
        p.x >= 0 && p.y >= 0 && (p.x as i64) < (self.width as i64) && (p.y as i64) < (self.height as i64)
    }

    fn index_of(&self, p: Position) -> (r: usize)
        requires
            self.wf(),
            self.contains(p),
        ensures
            r == self.tile_index(p),
            r < self.bfs_distance.len(),
    {
        let w: usize = self.width as usize;
        let x: usize = p.x as usize;
        let y: usize = p.y as usize;
        assert(y * w + x < self.width * self.height) by (nonlinear_arith)
            requires y < self.height, x < w, w == self.width;
        y * w + x
    }

    /// Breadth-first distance to `p`; `None` off the board or where unreachable.
    pub fn distance_to(&self, p: Position) -> (r: Option<u32>)
        requires
            self.wf(),
        ensures
            r == self.distance_at(p),
    {
        if !self.in_bounds(p) {
            return None;
        }
        self.bfs_distance[self.index_of(p)]
    }

    /// Whether `p` is on the board and free.
    pub fn is_free(&self, p: Position) -> (r: bool)
        requires
            self.wf(),
        ensures
            r == self.free_at(p),
    {
        if !self.in_bounds(p) {
            return false;
        }
        self.is_empty[self.index_of(p)]
    }
}

/// The candidates are strictly increasing in `mode`'s order.
pub open spec fn candidates_sorted(out: Seq<(u32, Position)>, mode: CandidateOrder) -> bool {
    forall|i: int, j: int|
        0 <= i < j < out.len() ==> key_lt(candidate_key(mode, #[trigger] out[i]), candidate_key(mode, #[trigger] out[j]))
}

/// Inserts `item` into the sorted list `out` where `mode`'s order puts it.
fn insert_in_order(out: &mut Vec<(u32, Position)>, item: (u32, Position), mode: CandidateOrder)
    requires
        candidates_sorted(old(out)@, mode),
        forall|i: int| 0 <= i < old(out)@.len() ==> (#[trigger] old(out)@[i]).1 != item.1,
    ensures
        candidates_sorted(final(out)@, mode),
        final(out)@.len() == old(out)@.len() + 1,
        forall|c: (u32, Position)| final(out)@.contains(c) <==> (old(out)@.contains(c) || c == item),
{
    let key = candidate_key_of(mode, item);
    proof {
        lemma_candidate_key_injective(mode, item, item);
    }
    let mut k: usize = 0;
    while k < out.len()
        invariant
            0 <= k <= out@.len(),
            out@ == old(out)@,
            key@ == candidate_key(mode, item),
            key@.len() == candidate_key_len(mode),
            candidates_sorted(out@, mode),
            forall|i: int| 0 <= i < k ==> key_lt(candidate_key(mode, #[trigger] out@[i]), candidate_key(mode, item)),
        ensures
            0 <= k <= out@.len(),
            out@ == old(out)@,
            forall|i: int| 0 <= i < k ==> key_lt(candidate_key(mode, #[trigger] out@[i]), candidate_key(mode, item)),
            k < out@.len() ==> !key_lt(candidate_key(mode, out@[ix(k)]), candidate_key(mode, item)),
        decreases out@.len() - k,
    {
        let ck = candidate_key_of(mode, out[k]);
        proof {
            lemma_candidate_key_injective(mode, out@[ix(k)], item);
        }
        if !key_less(ck.as_slice(), key.as_slice()) {
            break;
        }
        k = k + 1;
    }
    let ghost before = out@;
    proof {
        if k < before.len() {
            let c = before[ix(k)];
            lemma_candidate_key_injective(mode, c, item);
            lemma_candidate_key_injective(mode, item, c);
            lemma_lex_equal(candidate_key(mode, c), candidate_key(mode, item));
            lemma_lex_antisymmetric(candidate_key(mode, c), candidate_key(mode, item));
            assert(key_lt(candidate_key(mode, item), candidate_key(mode, c)));
            assert forall|j: int| k <= j < before.len() implies key_lt(candidate_key(mode, item), candidate_key(mode, #[trigger] before[j])) by {
                if j > k {
                    lemma_candidate_key_injective(mode, before[j], item);
                    lemma_lex_transitive(candidate_key(mode, item), candidate_key(mode, c), candidate_key(mode, before[j]));
                }
            }
        }
    }
    out.insert(k, item);
    proof {
        let after = out@;
        assert(after == before.insert(ix(k), item));
        assert forall|i: int, j: int| 0 <= i < j < after.len() implies key_lt(candidate_key(mode, #[trigger] after[i]), candidate_key(mode, #[trigger] after[j])) by {
            if j < k {
            } else if j == k {
            } else if i < k {
                assert(after[j] == before[j - 1]);
                assert(key_lt(candidate_key(mode, after[i]), candidate_key(mode, item)));
                assert(key_lt(candidate_key(mode, item), candidate_key(mode, before[j - 1])));
                lemma_candidate_key_injective(mode, after[i], item);
                lemma_candidate_key_injective(mode, before[j - 1], item);
                lemma_lex_transitive(candidate_key(mode, after[i]), candidate_key(mode, item), candidate_key(mode, before[j - 1]));
            } else if i == k {
                assert(after[j] == before[j - 1]);
            } else {
                assert(after[i] == before[i - 1]);
                assert(after[j] == before[j - 1]);
            }
        }
        assert forall|c: (u32, Position)| after.contains(c) <==> (before.contains(c) || c == item) by {
            if after.contains(c) {
                let i = choose|i: int| 0 <= i < after.len() && after[i] == c;
                if i < k {
                    assert(before[i] == c);
                } else if i > k {
                    assert(before[i - 1] == c);
                }
            }
            if before.contains(c) {
                let i = choose|i: int| 0 <= i < before.len() && before[i] == c;
                if i < k {
                    assert(after[i] == c);
                } else {
                    assert(after[i + 1] == c);
                }
            }
            if c == item {
                assert(after[ix(k)] == c);
            }
        }
    }
}

/// `out` lists every destination tile next to `enemy` exactly once, each
/// with its breadth-first distance, in `mode`'s order.
pub open spec fn candidates_exact(
    out: Seq<(u32, Position)>,
    board: BoardView,
    enemy: Position,
    range_tiles: int,
    mode: CandidateOrder,
) -> bool {
    &&& candidates_sorted(out, mode)
    &&& forall|i: int| 0 <= i < out.len() ==> {
        &&& board.is_destination(enemy, range_tiles, (#[trigger] out[i]).1)
        &&& board.distance_at(out[i].1) == Some(out[i].0)
    }
    &&& forall|p: Position| #[trigger] board.is_destination(enemy, range_tiles, p) ==> exists|i: int| 0 <= i < out.len() && (#[trigger] out[i]).1 == p
}

/// The tile at column `x`, row `y`.
fn tile(x: i64, y: i64) -> (p: Position)
    requires
        i32::MIN <= x <= i32::MAX,
        i32::MIN <= y <= i32::MAX,
    ensures
        p.x == x,
        p.y == y,
{
    Position { x: x as i32, y: y as i32 }
}

/// Scans the window `[x0, x1] x [y0, y1]` row by row and collects, in
/// `mode`'s order, the destination tiles next to `enemy`.
fn collect_candidates(
    board: &BoardView,
    enemy: Position,
    range_tiles: u8,
    x0: i64,
    x1: i64,
    y0: i64,
    y1: i64,
    mode: CandidateOrder,
) -> (out: Vec<(u32, Position)>)
    requires
        board.wf(),
        i32::MIN <= x0 && x1 <= i32::MAX && x0 <= x1 + 1,
        i32::MIN <= y0 && y1 <= i32::MAX && y0 <= y1 + 1,
        forall|p: Position| #[trigger] board.is_destination(enemy, range_tiles as int, p) ==> x0 <= p.x <= x1 && y0 <= p.y <= y1,
    ensures
        candidates_exact(out@, *board, enemy, range_tiles as int, mode),
{
    let mut out: Vec<(u32, Position)> = Vec::new();
    let mut y: i64 = y0;
    while y <= y1
        invariant
            board.wf(),
            i32::MIN <= x0 && x1 <= i32::MAX && x0 <= x1 + 1,
            i32::MIN <= y0 && y1 <= i32::MAX && y0 <= y1 + 1,
            y0 <= y <= y1 + 1,
            forall|p: Position| #[trigger] board.is_destination(enemy, range_tiles as int, p) ==> x0 <= p.x <= x1 && y0 <= p.y <= y1,
            candidates_sorted(out@, mode),
            forall|i: int| 0 <= i < out@.len() ==> {
                &&& board.is_destination(enemy, range_tiles as int, (#[trigger] out@[i]).1)
                &&& board.distance_at(out@[i].1) == Some(out@[i].0)
                &&& out@[i].1.y < y
            },
            forall|p: Position| #[trigger] board.is_destination(enemy, range_tiles as int, p) && p.y < y ==> exists|i: int| 0 <= i < out@.len() && (#[trigger] out@[i]).1 == p,
        decreases y1 + 1 - y,
    {
        let mut x: i64 = x0;
        while x <= x1
            invariant
                board.wf(),
                i32::MIN <= x0 && x1 <= i32::MAX && x0 <= x1 + 1,
                y0 <= y <= y1,
                i32::MIN <= y0 && y1 <= i32::MAX,
                x0 <= x <= x1 + 1,
                forall|p: Position| #[trigger] board.is_destination(enemy, range_tiles as int, p) ==> x0 <= p.x <= x1 && y0 <= p.y <= y1,
                candidates_sorted(out@, mode),
                forall|i: int| 0 <= i < out@.len() ==> {
                    &&& board.is_destination(enemy, range_tiles as int, (#[trigger] out@[i]).1)
                    &&& board.distance_at(out@[i].1) == Some(out@[i].0)
                    &&& (out@[i].1.y < y || (out@[i].1.y == y && out@[i].1.x < x))
                },
                forall|p: Position| #[trigger] board.is_destination(enemy, range_tiles as int, p) && (p.y < y || (p.y == y && p.x < x)) ==> exists|i: int| 0 <= i < out@.len() && (#[trigger] out@[i]).1 == p,
            decreases x1 + 1 - x,
        {
            let pos = tile(x, y);
            if board.in_bounds(pos) && pos.chebyshev(&enemy) <= range_tiles as i64 && board.is_free(pos) {
                match board.distance_to(pos) {
                    Some(d) => {
                        let ghost before = out@;
                        insert_in_order(&mut out, (d, pos), mode);
                        proof {
                            assert forall|i: int| 0 <= i < out@.len() implies {
                                &&& board.is_destination(enemy, range_tiles as int, (#[trigger] out@[i]).1)
                                &&& board.distance_at(out@[i].1) == Some(out@[i].0)
                                &&& (out@[i].1.y < y || (out@[i].1.y == y && out@[i].1.x < x + 1))
                            } by {
                                assert(out@.contains(out@[i]));
                                if out@[i] != (d, pos) {
                                    assert(before.contains(out@[i]));
                                }
                            }
                            assert forall|p: Position| #[trigger] board.is_destination(enemy, range_tiles as int, p) && (p.y < y || (p.y == y && p.x < x + 1)) implies exists|i: int| 0 <= i < out@.len() && (#[trigger] out@[i]).1 == p by {
                                if p == pos {
                                    assert(out@.contains((d, pos)));
                                } else {
                                    let j = choose|j: int| 0 <= j < before.len() && (#[trigger] before[j]).1 == p;
                                    assert(before.contains(before[j]));
                                    assert(out@.contains(before[j]));
                                }
                            }
                        }
                    },
                    None => {},
                }
            }
            x = x + 1;
        }
        y = y + 1;
    }
    out
}

/// Every tile from which a unit with `range_tiles` could attack an enemy at
/// `enemy_pos`, that is free and that the mover reaches, with its
/// breadth-first distance; the whole board is scanned and the result is
/// ordered by distance, then row, then column.
pub fn destination_candidates_in_order(board: &BoardView, enemy_pos: Position, range_tiles: u8) -> (out: Vec<(u32, Position)>)
    requires
        board.wf(),
    ensures
        candidates_exact(out@, *board, enemy_pos, range_tiles as int, CandidateOrder::TileOrder),
{
    collect_candidates(board, enemy_pos, range_tiles, 0, board.width as i64 - 1, 0, board.height as i64 - 1, CandidateOrder::TileOrder)
}

impl BoardView {
    /// Every tile from which a unit of `owner` at `mover_start` with
    /// `range_tiles` could attack an enemy at `enemy_pos`, that is free and
    /// that the mover reaches, with its breadth-first distance; ordered by
    /// distance, then by the destination preference of the mover.
    pub fn destination_candidates_in_order(
        &self,
        owner: crate::position::Side,
        mover_start: Position,
        enemy_pos: Position,
        range_tiles: u8,
    ) -> (out: Vec<(u32, Position)>)
        requires
            self.wf(),
            i32::MIN <= enemy_pos.x - range_tiles && enemy_pos.x + range_tiles <= i32::MAX,
            i32::MIN <= enemy_pos.y - range_tiles && enemy_pos.y + range_tiles <= i32::MAX,
        ensures
            candidates_exact(
                out@,
                *self,
                enemy_pos,
                range_tiles as int,
                CandidateOrder::Preference { owner, start: mover_start, enemy: enemy_pos },
            ),
    {
        let r: i64 = range_tiles as i64;
        collect_candidates(
            self,
            enemy_pos,
            range_tiles,
            enemy_pos.x as i64 - r,
            enemy_pos.x as i64 + r,
            enemy_pos.y as i64 - r,
            enemy_pos.y as i64 + r,
            CandidateOrder::Preference { owner, start: mover_start, enemy: enemy_pos },
        )
    }
}

/// Keys strictly increasing in lexicographic order.
pub open spec fn keys_sorted(keys: Seq<Vec<i128>>) -> bool {
    forall|i: int, j: int| 0 <= i < j < keys.len() ==> key_lt((#[trigger] keys[i])@, (#[trigger] keys[j])@)
}

/// Inserts `item` with sort key `key` into `items`, whose keys `keys` are
/// kept strictly increasing; returns where it went.
pub fn insert_keyed<T>(items: &mut Vec<T>, keys: &mut Vec<Vec<i128>>, item: T, key: Vec<i128>) -> (k: usize)
    requires
        old(items)@.len() == old(keys)@.len(),
        keys_sorted(old(keys)@),
        forall|i: int| 0 <= i < old(keys)@.len() ==> (#[trigger] old(keys)@[i])@.len() == key@.len(),
        forall|i: int| 0 <= i < old(keys)@.len() ==> (#[trigger] old(keys)@[i])@ != key@,
    ensures
        k <= old(items)@.len(),
        final(items)@ == old(items)@.insert(ix(k), item),
        final(keys)@ == old(keys)@.insert(ix(k), key),
        keys_sorted(final(keys)@),
{
    let mut k: usize = 0;
    while k < keys.len()
        invariant
            0 <= k <= keys@.len(),
            keys@ == old(keys)@,
            keys_sorted(keys@),
            forall|i: int| 0 <= i < keys@.len() ==> (#[trigger] keys@[i])@.len() == key@.len(),
            forall|i: int| 0 <= i < k ==> key_lt((#[trigger] keys@[i])@, key@),
        ensures
            0 <= k <= keys@.len(),
            keys@ == old(keys)@,
            forall|i: int| 0 <= i < k ==> key_lt((#[trigger] keys@[i])@, key@),
            k < keys@.len() ==> !key_lt(keys@[ix(k)]@, key@),
        decreases keys@.len() - k,
    {
        if !key_less(keys[k].as_slice(), key.as_slice()) {
            break;
        }
        k = k + 1;
    }
    let ghost before = keys@;
    proof {
        if k < before.len() {
            let c = before[ix(k)]@;
            lemma_lex_equal(c, key@);
            lemma_lex_antisymmetric(c, key@);
            assert forall|j: int| k <= j < before.len() implies key_lt(key@, (#[trigger] before[j])@) by {
                if j > k {
                    lemma_lex_transitive(key@, c, before[j]@);
                }
            }
        }
    }
    items.insert(k, item);
    keys.insert(k, key);
    proof {
        let after = keys@;
        assert forall|i: int, j: int| 0 <= i < j < after.len() implies key_lt((#[trigger] after[i])@, (#[trigger] after[j])@) by {
            if j < k {
            } else if j == k {
            } else if i < k {
                assert(after[j] == before[j - 1]);
                lemma_lex_transitive(after[i]@, key@, before[j - 1]@);
            } else if i == k {
                assert(after[j] == before[j - 1]);
            } else {
                assert(after[i] == before[i - 1]);
                assert(after[j] == before[j - 1]);
            }
        }
    }
    k
}

} // verus!
