use battle_core::buffs::{
    ActiveBuff, BuffApplied, BuffBook, BuffDef, BuffInstanceKey, BuffKind, BuffReapplyPolicy, BuffRemoval,
};
use battle_core::movement::{ActionState, MovementState};
use battle_core::position::{Position, Side};
use battle_core::types::{ActionLocks, RuntimeUnit, UnitStats};

fn key(caster: u128, target: u128, buff_id: u64) -> BuffInstanceKey {
    BuffInstanceKey { caster_instance_id: caster, target_instance_id: target, buff_id }
}

fn def(kind: BuffKind, max_stacks: u8, tick_interval_ms: u64, reapply_policy: BuffReapplyPolicy) -> BuffDef {
    BuffDef { kind, max_stacks, tick_interval_ms, reapply_policy }
}

fn buff_of(book: &BuffBook, k: BuffInstanceKey) -> Option<ActiveBuff> {
    book.entries.iter().find(|e| e.key == k).map(|e| e.buff)
}

#[test]
fn stacking_buffs_gain_stacks_up_to_the_limit_and_keep_the_later_expiry() {
    let mut book = BuffBook::new();
    let k = key(1, 2, 7);
    let d = def(BuffKind::Other, 2, 0, BuffReapplyPolicy::StackRefreshDurationKeepCadence);
    let r = book.apply(k, d, 100, 500, true);
    assert_eq!(r, Some(BuffApplied { expires_at_ms: 600, tick_at_ms: None, hard_cc_lock_until_ms: None }));
    assert_eq!(buff_of(&book, k), Some(ActiveBuff { stacks: 1, expires_at_ms: 600, next_tick_ms: None }));
    // A shorter reapplication keeps the later expiry.
    book.apply(k, d, 200, 100, true);
    assert_eq!(buff_of(&book, k), Some(ActiveBuff { stacks: 2, expires_at_ms: 600, next_tick_ms: None }));
    book.apply(k, d, 300, 1000, true);
    assert_eq!(buff_of(&book, k), Some(ActiveBuff { stacks: 2, expires_at_ms: 1300, next_tick_ms: None }));
    assert_eq!(book.entries.len(), 1);
}

#[test]
fn refreshing_buffs_take_the_new_duration_with_one_stack() {
    let mut book = BuffBook::new();
    let k = key(1, 2, 8);
    let d = def(BuffKind::Other, 5, 0, BuffReapplyPolicy::RefreshDuration);
    book.apply(k, d, 100, 500, true);
    book.apply(k, d, 150, 100, true);
    assert_eq!(buff_of(&book, k), Some(ActiveBuff { stacks: 1, expires_at_ms: 250, next_tick_ms: None }));
}

#[test]
fn zero_durations_and_dead_targets_apply_nothing() {
    let mut book = BuffBook::new();
    let d = def(BuffKind::Other, 1, 0, BuffReapplyPolicy::RefreshDuration);
    assert_eq!(book.apply(key(1, 2, 1), d, 0, 0, true), None);
    assert_eq!(book.apply(key(1, 2, 1), d, 0, 10, false), None);
    assert!(book.entries.is_empty());
}

#[test]
fn a_hard_cc_replaces_the_hard_cc_on_its_target_and_holds_until_after_it() {
    let mut book = BuffBook::new();
    let stun = def(BuffKind::Stun, 1, 0, BuffReapplyPolicy::RefreshDuration);
    let freeze = def(BuffKind::Freeze, 1, 0, BuffReapplyPolicy::RefreshDuration);
    let other = def(BuffKind::Other, 1, 0, BuffReapplyPolicy::RefreshDuration);
    book.apply(key(1, 9, 1), stun, 0, 100, true);
    book.apply(key(1, 9, 3), other, 0, 100, true);
    book.apply(key(1, 8, 1), stun, 0, 100, true);
    let r = book.apply(key(2, 9, 2), freeze, 10, 50, true);
    assert_eq!(r, Some(BuffApplied { expires_at_ms: 60, tick_at_ms: None, hard_cc_lock_until_ms: Some(61) }));
    assert_eq!(buff_of(&book, key(1, 9, 1)), None);
    assert!(buff_of(&book, key(1, 9, 3)).is_some());
    assert!(buff_of(&book, key(1, 8, 1)).is_some());
    assert!(book.has_buff_kind(9, BuffKind::Freeze));
    assert!(!book.has_buff_kind(9, BuffKind::Stun));
    assert!(book.has_buff_kind(8, BuffKind::Stun));
}

#[test]
fn periodic_damage_ticks_per_stack_until_it_expires() {
    let mut book = BuffBook::new();
    let k = key(1, 2, 4);
    let poison = def(BuffKind::PeriodicDamage { damage_per_tick: 3 }, 3, 100, BuffReapplyPolicy::StackRefreshDurationKeepCadence);
    let r = book.apply(k, poison, 0, 250, true);
    assert_eq!(r, Some(BuffApplied { expires_at_ms: 250, tick_at_ms: Some(100), hard_cc_lock_until_ms: None }));
    // A second stack keeps the cadence: no new first tick.
    let r = book.apply(k, poison, 50, 100, true);
    assert_eq!(r, Some(BuffApplied { expires_at_ms: 250, tick_at_ms: None, hard_cc_lock_until_ms: None }));
    assert_eq!(book.tick_damage(k, poison, 99), None);
    assert_eq!(book.tick_damage(k, poison, 100), Some(Some(6)));
    assert_eq!(book.advance_tick(k, poison, 100), Some(200));
    assert_eq!(book.tick_damage(k, poison, 200), Some(Some(6)));
    // The tick after 200 would come at 300, after the expiry.
    assert_eq!(book.advance_tick(k, poison, 200), None);
    assert_eq!(buff_of(&book, k).unwrap().next_tick_ms, None);
    assert_eq!(book.tick_damage(k, poison, 300), None);
}

#[test]
fn non_damaging_ticks_deal_nothing() {
    let mut book = BuffBook::new();
    let k = key(1, 2, 5);
    let heal_like = def(BuffKind::PeriodicDamage { damage_per_tick: -4 }, 1, 10, BuffReapplyPolicy::RefreshDuration);
    book.apply(k, heal_like, 0, 100, true);
    assert_eq!(book.tick_damage(k, heal_like, 10), Some(None));
    let saturating = def(BuffKind::PeriodicDamage { damage_per_tick: i32::MAX }, 4, 10, BuffReapplyPolicy::StackRefreshDurationKeepCadence);
    let k2 = key(1, 2, 6);
    book.apply(k2, saturating, 0, 100, true);
    book.apply(k2, saturating, 0, 100, true);
    assert_eq!(book.tick_damage(k2, saturating, 10), Some(Some(i32::MAX)));
    assert_eq!(book.advance_tick(key(9, 9, 9), saturating, 10), None);
}

#[test]
fn buffs_expire_when_due_and_tell_whether_they_held_actions() {
    let mut book = BuffBook::new();
    let silence = def(BuffKind::Silence, 1, 0, BuffReapplyPolicy::RefreshDuration);
    let other = def(BuffKind::Other, 1, 0, BuffReapplyPolicy::RefreshDuration);
    book.apply(key(1, 2, 1), silence, 0, 100, true);
    book.apply(key(1, 2, 2), other, 0, 100, true);
    assert_eq!(book.expire(key(1, 2, 1), 99), None);
    assert_eq!(book.expire(key(1, 2, 1), 100), Some(true));
    assert_eq!(book.expire(key(1, 2, 1), 100), None);
    assert_eq!(book.expire(key(1, 2, 2), 150), Some(false));
    assert!(book.entries.is_empty());
}

#[test]
fn the_buffs_of_a_dead_unit_are_removed() {
    let mut book = BuffBook::new();
    let other = def(BuffKind::Other, 1, 0, BuffReapplyPolicy::RefreshDuration);
    let stun = def(BuffKind::Stun, 1, 0, BuffReapplyPolicy::RefreshDuration);
    book.apply(key(1, 2, 1), other, 0, 100, true);
    book.apply(key(3, 2, 2), stun, 0, 100, true);
    book.apply(key(1, 4, 1), other, 0, 100, true);
    let mut hard_only = book.clone();
    hard_only.remove_where(BuffRemoval::HardCcOn { target: 2 });
    assert_eq!(hard_only.entries.len(), 2);
    book.remove_where(BuffRemoval::AllOn { target: 2 });
    assert_eq!(book.entries.len(), 1);
    assert_eq!(book.entries[0].key, key(1, 4, 1));
}

fn runtime_unit(id: u128) -> RuntimeUnit {
    RuntimeUnit {
        instance_id: id,
        owner: Side::Player,
        base_uuid: 0,
        stats: UnitStats {
            max_health: 10,
            current_health: 10,
            attack: 1,
            defense: 0,
            attack_interval_ms: 1,
            move_speed_units_per_ms: 2,
        },
        pos_x_units: 0,
        pos_y_units: 0,
        move_epoch: 0,
        action_state: ActionState::Idle,
        action_locks: ActionLocks::default(),
        current_target: Some(5),
        next_basic_attack_ms: 0,
        pending_basic_attack: false,
        resonance_current: 0,
        resonance_max: 100,
        resonance_lock_ms: 0,
        next_action_time: 0,
        pending_cast: false,
        pending_cast_cause: None,
    }
}

#[test]
fn a_hard_cc_locks_the_unit_drops_its_target_and_stops_it() {
    let mut u = runtime_unit(1);
    let mut movement = MovementState::new_at(Position::new(0, 0), 0);
    movement.target_x_units = movement.step_start_x_units + 100;
    u.pos_x_units = movement.step_start_x_units;
    let start_x = u.pos_x_units;
    u.action_state = ActionState::Moving(movement);
    assert!(u.apply_hard_cc_lock(61, 10));
    assert_eq!(u.pos_x_units, start_x + 20);
    assert_eq!(u.action_state, ActionState::Idle);
    assert_eq!(u.current_target, None);
    assert_eq!(u.next_action_time, 61);
    assert_eq!(u.action_locks.movement_until_ms, 61);
    assert_eq!(u.action_locks.basic_attack_until_ms, 61);
    assert_eq!(u.action_locks.resonance_gain_until_ms, 61);
    assert_eq!(u.move_epoch, 1);

    let mut idle = runtime_unit(2);
    idle.next_action_time = 500;
    assert!(!idle.apply_hard_cc_lock(61, 10));
    assert_eq!(idle.next_action_time, 500);
    assert_eq!(idle.current_target, None);
}
