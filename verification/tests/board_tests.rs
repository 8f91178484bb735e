use battle_core::board::{destination_candidates_in_order, BoardView};
use battle_core::chase::{enemy_plans_in_order, ChaseTarget};
use battle_core::position::{Position, Side};

/// Breadth-first distances over the eight neighbours from `start` through
/// tiles that `passable` admits (the start always counts).
fn bfs(width: u8, height: u8, start: Position, passable: &dyn Fn(Position) -> bool) -> Vec<Option<u32>> {
    let w = width as usize;
    let mut dist: Vec<Option<u32>> = vec![None; w * height as usize];
    let mut queue = vec![start];
    dist[start.y as usize * w + start.x as usize] = Some(0);
    let mut head = 0;
    while head < queue.len() {
        let p = queue[head];
        head += 1;
        let d = dist[p.y as usize * w + p.x as usize].unwrap();
        for dy in -1..=1 {
            for dx in -1..=1 {
                let q = Position::new(p.x + dx, p.y + dy);
                if q.x < 0 || q.y < 0 || q.x >= width as i32 || q.y >= height as i32 {
                    continue;
                }
                let i = q.y as usize * w + q.x as usize;
                if dist[i].is_none() && passable(q) {
                    dist[i] = Some(d + 1);
                    queue.push(q);
                }
            }
        }
    }
    dist
}

fn board(width: u8, height: u8, start: Position, blocked: &[Position]) -> BoardView {
    let passable = |p: Position| !blocked.contains(&p);
    let bfs_distance = bfs(width, height, start, &passable);
    let mut is_empty = Vec::new();
    for y in 0..height as i32 {
        for x in 0..width as i32 {
            is_empty.push(passable(Position::new(x, y)));
        }
    }
    BoardView { width, height, bfs_distance, is_empty }
}

#[test]
fn destination_candidates_are_sorted_by_bfs_then_tile_order() {
    let mover_pos = Position::new(1, 1);
    let enemy_pos = Position::new(2, 2);
    let view = board(4, 4, mover_pos, &[enemy_pos]);

    let candidates = destination_candidates_in_order(&view, enemy_pos, 1);
    assert!(!candidates.is_empty());

    // Same BFS distance candidates should be ordered by (y,x).
    let mut last: Option<(u32, Position)> = None;
    for item in candidates.iter().copied() {
        if let Some((d, p)) = last {
            assert!((item.0 > d) || (item.0 == d && (item.1.y, item.1.x) >= (p.y, p.x)), "candidates not sorted");
        }
        last = Some(item);
    }
}

#[test]
fn destination_candidates_list_every_reachable_free_tile_in_range() {
    let mover_pos = Position::new(1, 1);
    let enemy_pos = Position::new(2, 2);
    let view = board(4, 4, mover_pos, &[enemy_pos]);
    let candidates = destination_candidates_in_order(&view, enemy_pos, 1);
    assert_eq!(
        candidates,
        vec![
            (0, Position::new(1, 1)),
            (1, Position::new(2, 1)),
            (1, Position::new(1, 2)),
            (2, Position::new(3, 1)),
            (2, Position::new(3, 2)),
            (2, Position::new(1, 3)),
            (2, Position::new(2, 3)),
            (3, Position::new(3, 3)),
        ]
    );
}

#[test]
fn chase_target_uses_attack_position_distance_and_skips_unreachable_enemy() {
    // 4x4 field, mover at (1,1), range=1. Enemy A at (1,0) is close but
    // fully surrounded by blockers; enemy B at (3,3) has an adjacent empty
    // tile reachable.
    let mover_pos = Position::new(1, 1);
    let enemy_a: u128 = 2;
    let enemy_a_pos = Position::new(1, 0);
    let mut occupied = vec![mover_pos, enemy_a_pos];
    for y in 0..=1 {
        for x in 0..=2 {
            let pos = Position::new(x, y);
            if pos == enemy_a_pos || pos == mover_pos {
                continue;
            }
            occupied.push(pos);
        }
    }
    let enemy_b: u128 = 3;
    let enemy_b_pos = Position::new(3, 3);
    occupied.push(enemy_b_pos);
    let view = board(4, 4, mover_pos, &occupied);

    let enemies = vec![
        ChaseTarget { id: enemy_a, pos: enemy_a_pos, range_tiles: 1 },
        ChaseTarget { id: enemy_b, pos: enemy_b_pos, range_tiles: 1 },
    ];
    let plans = enemy_plans_in_order(&view, &enemies, 1);

    assert_eq!(plans.len(), 1);
    assert_eq!(plans[0].enemy_id, enemy_b);
    assert_eq!(plans[0].chase_dist, 1);
    assert_eq!(plans[0].best_dest, Position::new(2, 2));
}

#[test]
fn chase_plans_prefer_nearer_then_shorter_range_enemies() {
    let mover_pos = Position::new(1, 3);
    let melee = ChaseTarget { id: 9, pos: Position::new(0, 0), range_tiles: 1 };
    let ranged = ChaseTarget { id: 4, pos: Position::new(2, 0), range_tiles: 3 };
    let view = board(4, 4, mover_pos, &[mover_pos, melee.pos, ranged.pos]);
    let plans = view.formulate_enemy_chase_plan(Side::Player, mover_pos, &vec![ranged, melee], 1);
    assert_eq!(plans.len(), 2);
    assert_eq!(plans[0].enemy_id, 9);
    assert_eq!(plans[1].enemy_id, 4);
    // By identifier alone the ranged enemy would come first.
    let by_id = enemy_plans_in_order(&view, &vec![ranged, melee], 1);
    assert_eq!(by_id[0].enemy_id, 4);
}

#[test]
fn board_view_reports_distance_and_freedom() {
    let view = board(3, 2, Position::new(0, 0), &[Position::new(1, 0)]);
    assert!(view.in_bounds(Position::new(2, 1)));
    assert!(!view.in_bounds(Position::new(3, 0)));
    assert!(!view.in_bounds(Position::new(-1, 0)));
    assert_eq!(view.distance_to(Position::new(2, 1)), Some(2));
    assert_eq!(view.distance_to(Position::new(1, 0)), None);
    assert_eq!(view.distance_to(Position::new(5, 5)), None);
    assert!(view.is_free(Position::new(0, 1)));
    assert!(!view.is_free(Position::new(1, 0)));
}
