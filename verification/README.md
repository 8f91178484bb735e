# battle_core

The deterministic core of an auto-battler's combat simulation, written in
Verus: every executable function carries a `requires` / `ensures` contract
that Verus proves, and the properties that relate several functions are
proof functions beside them.

## Layout

- `src/` — the verified library.
  - geometry and ordering: `position`, `spatial`, `order`, `keys`, `select`,
    `arith`
  - units and movement: `types`, `movement`, `motion`, `waits`,
    `interrupts`, `engage`
  - target choice and planning: `targets`, `plan`, `board`, `chase`,
    `advance`, `intents`
  - combat: `damage`, `vitals`, `attacks`, `attack_start`, `projectiles`,
    `areas`, `buffs`, `autocast`, `triggers`, `ids`
  - the battle loop: `battle` (the battle state and its invariant, the
    time-ordered event queue, event and command handling, `run_battle`)
- `tests/` — ordinary Rust tests of the library on concrete values.
- `app/` — the parts that stay outside verification: the floating-point cone
  test for skill areas, serde copies of library types, and the conversion
  between unit identifiers and UUIDs.

`battle::run_battle` drives the combat functions: it records the start and
the spawns, queues each unit's periodic attacks, takes events in time order,
handles attacks, projectiles, buffs, casts and commands, settles deaths (a
dead unit leaves the unit tables for the graveyard, and the buffs on it go)
and ends the battle once a side is wiped out, the queue runs dry or time runs
out. Each handler's effect is a named relation (`attack_started`,
`attack_resolved`, `projectile_landed`, `buff_ticked`, ...), `event_handled`
sends each kind of event to its relation, and `battle_run` states what a
whole run is: a chain of such steps from the opening state.

Unit movement (path search, tile reservations and step execution) is not
part of this library: movement events are accepted by the loop and leave the
state unchanged, and the movement decisions it would need are provided as
separate verified functions (`intents`, `waits`, `interrupts`, `engage`).
Skill casts end without skill steps, and stat modifiers and triggered
abilities are not applied: the skill and stat data they need is not part of
the library.
