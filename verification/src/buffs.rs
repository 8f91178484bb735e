//! The buffs active in a battle: applying one (stacking or refreshing, with
//! hard crowd control exclusive per target), its periodic ticks, its expiry,
//! and what a hard crowd control does to the unit it holds.
use vstd::prelude::*;
use crate::arith::ix;
use crate::interrupts::is_interruptible;
use crate::motion::{advanced_unit, motion_fits};
use crate::movement::ActionState;
use crate::types::{ActionLocks, RuntimeUnit, extend_lock};
use crate::waits::{sat_add_u64, with_wait_state};

verus! {

/// What a buff does, as far as the battle loop tells kinds apart.
#[derive(Debug, Clone, Copy, PartialEq, Eq, Structural)]
pub enum BuffKind {
    Stun,
    Freeze,
    Silence,
    /// Damage dealt on every tick, per stack.
    PeriodicDamage { damage_per_tick: i32 },
    /// Any other buff (stat changes and the like).
    Other,
}

/// What applying a buff again does to the one already on the target.
#[derive(Debug, Clone, Copy, PartialEq, Eq, Structural)]
pub enum BuffReapplyPolicy {
    /// One more stack, up to the maximum; the later expiry wins; the tick
    /// cadence goes on.
    StackRefreshDurationKeepCadence,
    /// A single stack expiring after the new duration.
    RefreshDuration,
}

/// The definition of a buff.
#[derive(Debug, Clone, Copy, PartialEq, Eq, Structural)]
pub struct BuffDef {
    pub kind: BuffKind,
    pub max_stacks: u8,
    /// Time between ticks; zero for a buff that does not tick.
    pub tick_interval_ms: u64,
    pub reapply_policy: BuffReapplyPolicy,
}

/// Which buff, from which caster, on which target.
#[derive(Debug, Clone, Copy, PartialEq, Eq, Structural)]
pub struct BuffInstanceKey {
    pub caster_instance_id: u128,
    pub target_instance_id: u128,
    pub buff_id: u64,
}

/// A buff on a target.
#[derive(Debug, Clone, Copy, PartialEq, Eq, Structural)]
pub struct ActiveBuff {
    pub stacks: u8,
    pub expires_at_ms: u64,
    /// When the next tick is due, if one is scheduled.
    pub next_tick_ms: Option<u64>,
}

/// One active buff with the kind of its definition.
#[derive(Debug, Clone, Copy, PartialEq, Eq, Structural)]
pub struct BuffEntry {
    pub key: BuffInstanceKey,
    pub kind: BuffKind,
    pub buff: ActiveBuff,
}

/// The buffs active in a battle, at most one per key.
#[derive(Debug, Clone)]
pub struct BuffBook {
    pub entries: Vec<BuffEntry>,
}

/// No key occurs twice.
pub open spec fn distinct_keys(s: Seq<BuffEntry>) -> bool {
    forall|a: int, b: int| 0 <= a < b < s.len() ==> (#[trigger] s[a]).key != (#[trigger] s[b]).key
}

/// Stun and freeze hold their target: hard crowd control.
pub open spec fn is_hard_cc(kind: BuffKind) -> bool {
    kind is Stun || kind is Freeze
}

/// Kinds whose end may let a pending autocast start.
pub open spec fn releases_actions(kind: BuffKind) -> bool {
    kind is Stun || kind is Freeze || kind is Silence
}

/// Which entries a removal takes away.
#[derive(Debug, Clone, Copy, PartialEq, Eq, Structural)]
pub enum BuffRemoval {
    /// The hard crowd control on a target.
    HardCcOn { target: u128 },
    /// Every buff on a target.
    AllOn { target: u128 },
}

pub open spec fn removes(r: BuffRemoval, e: BuffEntry) -> bool {
    match r {
        BuffRemoval::HardCcOn { target } => e.key.target_instance_id == target && is_hard_cc(e.kind),
        BuffRemoval::AllOn { target } => e.key.target_instance_id == target,
    }
}

/// The entries of `s` that `r` does not take away, in order.
pub open spec fn kept_entries(s: Seq<BuffEntry>, r: BuffRemoval) -> Seq<BuffEntry>
    decreases s.len(),
{
    if s.len() == 0 {
        s
    } else {
        let rest = kept_entries(s.drop_last(), r);
        if removes(r, s.last()) {
            rest
        } else {
            rest.push(s.last())
        }
    }
}

/// The buff under `key` in `s`, if any.
pub open spec fn buff_at(s: Seq<BuffEntry>, key: BuffInstanceKey) -> Option<ActiveBuff> {
    if exists|i: int| 0 <= i < s.len() && (#[trigger] s[i]).key == key {
        Some(s[choose|i: int| 0 <= i < s.len() && (#[trigger] s[i]).key == key].buff)
    } else {
        None
    }
}

/// `s` with `e` in place of the entry under its key, or `e` added last.
pub open spec fn put_entry(s: Seq<BuffEntry>, e: BuffEntry) -> Seq<BuffEntry> {
    if exists|i: int| 0 <= i < s.len() && (#[trigger] s[i]).key == e.key {
        s.update(choose|i: int| 0 <= i < s.len() && (#[trigger] s[i]).key == e.key, e)
    } else {
        s.push(e)
    }
}

/// The stack limit of `def`, at least one.
pub open spec fn max_stacks_spec(def: BuffDef) -> u8 {
    if def.max_stacks >= 1 { def.max_stacks } else { 1 }
}

/// The buff after `def` is applied at `time_ms` for `duration_ms` onto
/// `current` (the buff already there, if any), before its tick is planned.
pub open spec fn reapplied(current: Option<ActiveBuff>, def: BuffDef, time_ms: u64, duration_ms: u64) -> ActiveBuff {
    let expires = sat_add_u64(time_ms, duration_ms);
    let base = match current {
        Some(b) => b,
        None => ActiveBuff { stacks: 0, expires_at_ms: expires, next_tick_ms: None },
    };
    let max = max_stacks_spec(def);
    match def.reapply_policy {
        BuffReapplyPolicy::StackRefreshDurationKeepCadence => ActiveBuff {
            expires_at_ms: if base.expires_at_ms >= expires { base.expires_at_ms } else { expires },
            stacks: if base.stacks + 1 > max { max } else { (base.stacks + 1) as u8 },
            ..base
        },
        BuffReapplyPolicy::RefreshDuration => ActiveBuff { expires_at_ms: expires, stacks: 1, ..base },
    }
}

/// When the first tick of `b` is planned, applied at `time_ms`: for a
/// ticking buff with no tick planned yet, one interval later, if that comes
/// before it expires.
pub open spec fn first_tick(b: ActiveBuff, def: BuffDef, time_ms: u64) -> Option<u64> {
    if def.tick_interval_ms > 0 && b.next_tick_ms is None && sat_add_u64(time_ms, def.tick_interval_ms) < b.expires_at_ms {
        Some(sat_add_u64(time_ms, def.tick_interval_ms))
    } else {
        None
    }
}

/// What applying a buff asks of the battle loop.
#[derive(Debug, Clone, Copy, PartialEq, Eq, Structural)]
pub struct BuffApplied {
    /// When the buff now expires (its expiry is scheduled then).
    pub expires_at_ms: u64,
    /// When its first tick is due, if one was planned now.
    pub tick_at_ms: Option<u64>,
    /// For hard crowd control, until when the target is held.
    pub hard_cc_lock_until_ms: Option<u64>,
}

/// The entries and the outcome of applying `def` under `key` at `time_ms`
/// for `duration_ms` onto a target that is alive or not.
pub open spec fn apply_spec(
    s: Seq<BuffEntry>,
    key: BuffInstanceKey,
    def: BuffDef,
    time_ms: u64,
    duration_ms: u64,
    target_alive: bool,
) -> (Seq<BuffEntry>, Option<BuffApplied>) {
    if duration_ms == 0 || !target_alive {
        (s, None)
    } else {
        let base = if is_hard_cc(def.kind) {
            kept_entries(s, BuffRemoval::HardCcOn { target: key.target_instance_id })
        } else {
            s
        };
        let b = reapplied(buff_at(base, key), def, time_ms, duration_ms);
        let tick = first_tick(b, def, time_ms);
        let b1 = if tick is Some { ActiveBuff { next_tick_ms: tick, ..b } } else { b };
        (
            put_entry(base, BuffEntry { key, kind: def.kind, buff: b1 }),
            Some(BuffApplied {
                expires_at_ms: b1.expires_at_ms,
                tick_at_ms: tick,
                hard_cc_lock_until_ms: if is_hard_cc(def.kind) {
                    Some(sat_add_u64(b1.expires_at_ms, 1))
                } else {
                    None
                },
            }),
        )
    }
}

/// `v` clamped to the range of `i32`.
pub open spec fn clamp_i32(v: int) -> i32 {
    if v > i32::MAX { i32::MAX } else if v < i32::MIN { i32::MIN } else { v as i32 }
}

/// The damage a tick of a buff of `kind` with `stacks` stacks deals: for
/// periodic damage, the damage per tick times the stacks (at least one),
/// saturating; nothing unless that is positive.
pub open spec fn tick_damage_spec(kind: BuffKind, stacks: u8) -> Option<i32> {
    match kind {
        BuffKind::PeriodicDamage { damage_per_tick } => {
            let d = clamp_i32(damage_per_tick * (if stacks >= 1 { stacks as int } else { 1 }));
            if d > 0 { Some(d) } else { None }
        },
        _ => None,
    }
}

/// The next tick of a buff that expires at `expires_at_ms`, after a tick
/// at `time_ms`: one interval later, if that comes before it expires.
pub open spec fn next_tick_spec(time_ms: u64, def: BuffDef, expires_at_ms: u64) -> Option<u64> {
    if sat_add_u64(time_ms, def.tick_interval_ms) < expires_at_ms {
        Some(sat_add_u64(time_ms, def.tick_interval_ms))
    } else {
        None
    }
}

/// `s` with the planned tick of the buff under `key` set to `next`.
pub open spec fn with_next_tick(s: Seq<BuffEntry>, key: BuffInstanceKey, next: Option<u64>) -> Seq<BuffEntry> {
    Seq::new(
        s.len(),
        |i: int| if s[i].key == key { BuffEntry { buff: ActiveBuff { next_tick_ms: next, ..s[i].buff }, ..s[i] } } else { s[i] },
    )
}

/// `s` without the entry under `key`.
pub open spec fn without_key(s: Seq<BuffEntry>, key: BuffInstanceKey) -> Seq<BuffEntry> {
    if exists|i: int| 0 <= i < s.len() && (#[trigger] s[i]).key == key {
        s.remove(choose|i: int| 0 <= i < s.len() && (#[trigger] s[i]).key == key)
    } else {
        s
    }
}

proof fn lemma_unique_key(s: Seq<BuffEntry>, key: BuffInstanceKey, i: int)
    requires
        distinct_keys(s),
        0 <= i < s.len(),
        s[i].key == key,
    ensures
        (choose|k: int| 0 <= k < s.len() && (#[trigger] s[k]).key == key) == i,
        buff_at(s, key) == Some(s[i].buff),
{
    let k = choose|k: int| 0 <= k < s.len() && (#[trigger] s[k]).key == key;
    if k != i {
        if k < i {
            assert(s[k].key != s[i].key);
        } else {
            assert(s[i].key != s[k].key);
        }
    }
}

fn find_entry(entries: &Vec<BuffEntry>, key: BuffInstanceKey) -> (r: Option<usize>)
    requires
        distinct_keys(entries@),
    ensures
        r matches Some(i) ==> i < entries@.len() && entries@[ix(i)].key == key && buff_at(entries@, key) == Some(entries@[ix(i)].buff)
            && (choose|k: int| 0 <= k < entries@.len() && (#[trigger] entries@[k]).key == key) == ix(i),
        r is None ==> forall|i: int| 0 <= i < entries@.len() ==> (#[trigger] entries@[i]).key != key,
        r is None ==> buff_at(entries@, key) is None,
{
    let mut i: usize = 0;
    while i < entries.len()
        invariant
            0 <= i <= entries@.len(),
            distinct_keys(entries@),
            forall|j: int| 0 <= j < i ==> (#[trigger] entries@[j]).key != key,
        decreases entries@.len() - i,
    {
        if entries[i].key == key {
            proof {
                lemma_unique_key(entries@, key, ix(i));
            }
            return Some(i);
        }
        i = i + 1;
    }
    None
}

fn removes_entry(r: BuffRemoval, e: &BuffEntry) -> (b: bool)
    ensures
        b == removes(r, *e),
{
    match r {
        BuffRemoval::HardCcOn { target } => e.key.target_instance_id == target && is_hard_cc_kind(e.kind),
        BuffRemoval::AllOn { target } => e.key.target_instance_id == target,
    }
}

/// Whether `kind` is hard crowd control.
pub fn is_hard_cc_kind(kind: BuffKind) -> (r: bool)
    ensures
        r == is_hard_cc(kind),
{
    match kind {
        BuffKind::Stun => true,
        BuffKind::Freeze => true,
        _ => false,
    }
}

fn sat_mul_i32(a: i32, b: i32) -> (r: i32)
    requires
        0 <= b <= 256,
    ensures
        r == clamp_i32(a * b),
{
    proof {
        assert(-2147483648 * 256 <= (a as int) * (b as int) <= 2147483647 * 256) by (nonlinear_arith)
            requires
                -2147483648 <= a <= 2147483647,
                0 <= b <= 256,
        ;
    }
    let p: i64 = a as i64 * b as i64;
    if p > i32::MAX as i64 {
        i32::MAX
    } else if p < i32::MIN as i64 {
        i32::MIN
    } else {
        p as i32
    }
}

impl BuffBook {
    /// No key occurs twice in the book.
    pub open spec fn wf(&self) -> bool {
        distinct_keys(self.entries@)
    }

    /// An empty book.
    pub fn new() -> (b: BuffBook)
        ensures
            b.wf(),
            b.entries@.len() == 0,
    {
        BuffBook { entries: Vec::new() }
    }

    /// Whether a buff of `kind` is on `target`.
    pub fn has_buff_kind(&self, target: u128, kind: BuffKind) -> (r: bool)
        ensures
            r == exists|i: int| 0 <= i < self.entries@.len() && (#[trigger] self.entries@[i]).key.target_instance_id == target
                && self.entries@[i].kind == kind,
    {
        let mut i: usize = 0;
        while i < self.entries.len()
            invariant
                0 <= i <= self.entries@.len(),
                forall|j: int| 0 <= j < i ==> !((#[trigger] self.entries@[j]).key.target_instance_id == target && self.entries@[j].kind == kind),
            decreases self.entries@.len() - i,
        {
            let e = self.entries[i];
            if e.key.target_instance_id == target && e.kind == kind {
                return true;
            }
            i = i + 1;
        }
        false
    }

    /// Takes away the entries that `removal` names, keeping the others in
    /// order.
    pub fn remove_where(&mut self, removal: BuffRemoval)
        requires
            old(self).wf(),
        ensures
            final(self).wf(),
            final(self).entries@ == kept_entries(old(self).entries@, removal),
    {
        let ghost s = self.entries@;
        let mut out: Vec<BuffEntry> = Vec::new();
        let mut i: usize = 0;
        while i < self.entries.len()
            invariant
                0 <= i <= s.len(),
                self.entries@ == s,
                distinct_keys(s),
                out@ == kept_entries(s.subrange(0, i as int), removal),
                distinct_keys(out@),
                forall|j: int| 0 <= j < out@.len() ==> exists|k: int| 0 <= k < i && #[trigger] out@[j] == s[k],
            decreases s.len() - i,
        {
            let e = self.entries[i];
            proof {
                assert(s.subrange(0, i as int + 1).drop_last() =~= s.subrange(0, i as int));
                assert(s.subrange(0, i as int + 1).last() == s[ix(i)]);
            }
            if !removes_entry(removal, &e) {
                proof {
                    assert forall|a: int, b: int| 0 <= a < b < out@.len() + 1 implies (#[trigger] out@.push(e)[a]).key
                        != (#[trigger] out@.push(e)[b]).key by {
                        if b == out@.len() {
                            let k = choose|k: int| 0 <= k < i && #[trigger] out@[a] == s[k];
                            assert(s[k].key != s[ix(i)].key);
                        }
                    }
                    assert forall|j: int| 0 <= j < out@.len() + 1 implies exists|k: int| 0 <= k < i + 1 && #[trigger] out@.push(e)[j] == s[k] by {
                        if j == out@.len() {
                            assert(out@.push(e)[j] == s[ix(i)]);
                        } else {
                            let k = choose|k: int| 0 <= k < i && #[trigger] out@[j] == s[k];
                            assert(out@.push(e)[j] == s[k]);
                        }
                    }
                }
                out.push(e);
            }
            i = i + 1;
        }
        proof {
            assert(s.subrange(0, s.len() as int) =~= s);
        }
        self.entries = out;
    }

    /// Applies `def` under `key` at `time_ms` for `duration_ms` onto a
    /// target that is alive or not (`target_alive`). Nothing happens for a
    /// zero duration or a dead target. A hard crowd control first takes
    /// away the hard crowd control already on the target. The buff is then
    /// stacked or refreshed as its policy says, and a ticking buff with no
    /// tick planned gets its first tick one interval later if that comes
    /// before it expires.
    pub fn apply(
        &mut self,
        key: BuffInstanceKey,
        def: BuffDef,
        time_ms: u64,
        duration_ms: u64,
        target_alive: bool,
    ) -> (r: Option<BuffApplied>)
        requires
            old(self).wf(),
        ensures
            final(self).wf(),
            (final(self).entries@, r) == apply_spec(old(self).entries@, key, def, time_ms, duration_ms, target_alive),
    {
        if duration_ms == 0 || !target_alive {
            return None;
        }
        let hard_cc = is_hard_cc_kind(def.kind);
        if hard_cc {
            self.remove_where(BuffRemoval::HardCcOn { target: key.target_instance_id });
        }
        let ghost base = self.entries@;
        let expires = time_ms.saturating_add(duration_ms);
        let max_stacks: u8 = if def.max_stacks >= 1 { def.max_stacks } else { 1 };
        let found = find_entry(&self.entries, key);
        let current = match found {
            Some(i) => self.entries[i].buff,
            None => ActiveBuff { stacks: 0, expires_at_ms: expires, next_tick_ms: None },
        };
        let mut b = match def.reapply_policy {
            BuffReapplyPolicy::StackRefreshDurationKeepCadence => {
                let stacks: u8 = if current.stacks >= max_stacks || current.stacks == u8::MAX {
                    max_stacks
                } else {
                    current.stacks + 1
                };
                let e = if current.expires_at_ms >= expires { current.expires_at_ms } else { expires };
                ActiveBuff { expires_at_ms: e, stacks, ..current }
            },
            BuffReapplyPolicy::RefreshDuration => ActiveBuff { expires_at_ms: expires, stacks: 1, ..current },
        };
        let mut tick: Option<u64> = None;
        if def.tick_interval_ms > 0 && b.next_tick_ms.is_none() {
            let t = time_ms.saturating_add(def.tick_interval_ms);
            if t < b.expires_at_ms {
                b.next_tick_ms = Some(t);
                tick = Some(t);
            }
        }
        let entry = BuffEntry { key, kind: def.kind, buff: b };
        match found {
            Some(i) => {
                proof {
                    assert forall|x: int, y: int| 0 <= x < y < base.len() implies (#[trigger] base.update(ix(i), entry)[x]).key
                        != (#[trigger] base.update(ix(i), entry)[y]).key by {
                        assert(base[x].key != base[y].key);
                    }
                }
                self.entries.set(i, entry);
            },
            None => {
                proof {
                    assert forall|x: int, y: int| 0 <= x < y < base.len() + 1 implies (#[trigger] base.push(entry)[x]).key
                        != (#[trigger] base.push(entry)[y]).key by {
                        if y < base.len() {
                            assert(base[x].key != base[y].key);
                        }
                    }
                }
                self.entries.push(entry);
            },
        }
        let lock = if hard_cc { Some(b.expires_at_ms.saturating_add(1)) } else { None };
        Some(BuffApplied { expires_at_ms: b.expires_at_ms, tick_at_ms: tick, hard_cc_lock_until_ms: lock })
    }

    /// The tick due at `time_ms` of the buff under `key`, whose definition
    /// is `def`: `None` when no such buff is active or its tick is not due
    /// then; otherwise the damage it deals, if any.
    pub fn tick_damage(&self, key: BuffInstanceKey, def: BuffDef, time_ms: u64) -> (r: Option<Option<i32>>)
        requires
            self.wf(),
        ensures
            r == (match buff_at(self.entries@, key) {
                Some(b) => if b.next_tick_ms == Some(time_ms) {
                    Some(tick_damage_spec(def.kind, b.stacks))
                } else {
                    None
                },
                None => None,
            }),
    {
        let i = match find_entry(&self.entries, key) {
            Some(i) => i,
            None => return None,
        };
        let b = self.entries[i].buff;
        if b.next_tick_ms != Some(time_ms) {
            return None;
        }
        match def.kind {
            BuffKind::PeriodicDamage { damage_per_tick } => {
                let stacks: i32 = if b.stacks >= 1 { b.stacks as i32 } else { 1 };
                let d = sat_mul_i32(damage_per_tick, stacks);
                if d > 0 { Some(Some(d)) } else { Some(None) }
            },
            _ => Some(None),
        }
    }

    /// After a tick at `time_ms`, plans the next tick of the buff under
    /// `key` (one interval of `def` later, if before it expires) and returns
    /// it. A buff that is no longer active plans nothing.
    pub fn advance_tick(&mut self, key: BuffInstanceKey, def: BuffDef, time_ms: u64) -> (r: Option<u64>)
        requires
            old(self).wf(),
        ensures
            final(self).wf(),
            r == (match buff_at(old(self).entries@, key) {
                Some(b) => next_tick_spec(time_ms, def, b.expires_at_ms),
                None => None,
            }),
            final(self).entries@ == (match buff_at(old(self).entries@, key) {
                Some(b) => with_next_tick(old(self).entries@, key, next_tick_spec(time_ms, def, b.expires_at_ms)),
                None => old(self).entries@,
            }),
    {
        let ghost s = self.entries@;
        let i = match find_entry(&self.entries, key) {
            Some(i) => i,
            None => {
                proof {
                    assert(s =~= s);
                }
                return None;
            },
        };
        let mut e = self.entries[i];
        let t = time_ms.saturating_add(def.tick_interval_ms);
        let next = if t < e.buff.expires_at_ms { Some(t) } else { None };
        e.buff.next_tick_ms = next;
        self.entries.set(i, e);
        proof {
            let ghost nt = next_tick_spec(time_ms, def, s[ix(i)].buff.expires_at_ms);
            assert(next == nt);
            assert forall|j: int| 0 <= j < s.len() implies #[trigger] self.entries@[j] == with_next_tick(s, key, nt)[j] by {
                if j != ix(i) {
                    if j < ix(i) {
                        assert(s[j].key != s[ix(i)].key);
                    } else {
                        assert(s[ix(i)].key != s[j].key);
                    }
                }
            }
            assert(self.entries@ =~= with_next_tick(s, key, nt));
            assert forall|x: int, y: int| 0 <= x < y < s.len() implies (#[trigger] self.entries@[x]).key
                != (#[trigger] self.entries@[y]).key by {
                assert(s[x].key != s[y].key);
            }
        }
        next
    }

    /// Expires the buff under `key` at `time_ms` when it is due: it leaves
    /// the book, and `Some` comes back, telling whether its kind held the
    /// target from acting (so pending autocasts may start). `None` when no
    /// such buff is active or it is not due yet.
    pub fn expire(&mut self, key: BuffInstanceKey, time_ms: u64) -> (r: Option<bool>)
        requires
            old(self).wf(),
        ensures
            final(self).wf(),
            ({
                let s = old(self).entries@;
                match buff_at(s, key) {
                    Some(b) => if time_ms < b.expires_at_ms {
                        r is None && final(self).entries@ == s
                    } else {
                        &&& final(self).entries@ == without_key(s, key)
                        &&& r == Some(releases_actions(s[choose|i: int| 0 <= i < s.len() && (#[trigger] s[i]).key == key].kind))
                    },
                    None => r is None && final(self).entries@ == s,
                }
            }),
    {
        let ghost s = self.entries@;
        let i = match find_entry(&self.entries, key) {
            Some(i) => i,
            None => return None,
        };
        let e = self.entries[i];
        if time_ms < e.buff.expires_at_ms {
            return None;
        }
        self.entries.remove(i);
        proof {
            assert forall|x: int, y: int| 0 <= x < y < s.len() - 1 implies (#[trigger] self.entries@[x]).key
                != (#[trigger] self.entries@[y]).key by {
                let xs = if x < ix(i) { x } else { x + 1 };
                let ys = if y < ix(i) { y } else { y + 1 };
                assert(self.entries@[x] == s[xs]);
                assert(self.entries@[y] == s[ys]);
                assert(s[xs].key != s[ys].key);
            }
        }
        let released = match e.kind {
            BuffKind::Stun => true,
            BuffKind::Freeze => true,
            BuffKind::Silence => true,
            _ => false,
        };
        Some(released)
    }
}

/// Every entry that `kept_entries` keeps is one of `s` that the removal
/// does not name.
pub proof fn lemma_kept_entries(s: Seq<BuffEntry>, r: BuffRemoval)
    ensures
        forall|j: int| 0 <= j < kept_entries(s, r).len() ==> !removes(r, #[trigger] kept_entries(s, r)[j]) && s.contains(
            kept_entries(s, r)[j],
        ),
    decreases s.len(),
{
    if s.len() > 0 {
        let rest = kept_entries(s.drop_last(), r);
        lemma_kept_entries(s.drop_last(), r);
        assert forall|j: int| 0 <= j < kept_entries(s, r).len() implies !removes(r, #[trigger] kept_entries(s, r)[j])
            && s.contains(kept_entries(s, r)[j]) by {
            if j < rest.len() {
                let k = choose|k: int| 0 <= k < s.drop_last().len() && s.drop_last()[k] == rest[j];
                assert(s[k] == rest[j]);
            } else {
                assert(s[s.len() - 1] == s.last());
            }
        }
    }
}

/// Hard crowd control is exclusive per target: once one is applied, it is
/// the only hard crowd control on its target.
pub proof fn lemma_hard_cc_is_exclusive(
    s: Seq<BuffEntry>,
    key: BuffInstanceKey,
    def: BuffDef,
    time_ms: u64,
    duration_ms: u64,
)
    requires
        distinct_keys(s),
        is_hard_cc(def.kind),
        duration_ms > 0,
    ensures
        ({
            let after = apply_spec(s, key, def, time_ms, duration_ms, true).0;
            forall|j: int| 0 <= j < after.len() && (#[trigger] after[j]).key.target_instance_id == key.target_instance_id
                && is_hard_cc(after[j].kind) ==> after[j].key == key
        }),
{
    let r = BuffRemoval::HardCcOn { target: key.target_instance_id };
    let base = kept_entries(s, r);
    lemma_kept_entries(s, r);
    let b = reapplied(buff_at(base, key), def, time_ms, duration_ms);
    let tick = first_tick(b, def, time_ms);
    let b1 = if tick is Some { ActiveBuff { next_tick_ms: tick, ..b } } else { b };
    let e = BuffEntry { key, kind: def.kind, buff: b1 };
    let after = put_entry(base, e);
    assert forall|j: int| 0 <= j < after.len() && (#[trigger] after[j]).key.target_instance_id == key.target_instance_id
        && is_hard_cc(after[j].kind) implies after[j].key == key by {
        if exists|i: int| 0 <= i < base.len() && (#[trigger] base[i]).key == e.key {
            let i = choose|i: int| 0 <= i < base.len() && (#[trigger] base[i]).key == e.key;
            if j != i {
                assert(after[j] == base[j]);
                assert(!removes(r, base[j]));
            }
        } else {
            if j < base.len() {
                assert(after[j] == base[j]);
                assert(!removes(r, base[j]));
            }
        }
    }
}

/// Applying a buff leaves it with at least one stack and at most its stack
/// limit; stacking never brings its expiry forward; a tick planned then
/// comes before it expires.
pub proof fn lemma_reapply_bounds(current: Option<ActiveBuff>, def: BuffDef, time_ms: u64, duration_ms: u64)
    requires
        current matches Some(c) ==> c.stacks <= max_stacks_spec(def),
    ensures
        1 <= reapplied(current, def, time_ms, duration_ms).stacks <= max_stacks_spec(def),
        def.reapply_policy is StackRefreshDurationKeepCadence ==> (current matches Some(c) ==> reapplied(
            current,
            def,
            time_ms,
            duration_ms,
        ).expires_at_ms >= c.expires_at_ms),
        reapplied(current, def, time_ms, duration_ms).expires_at_ms >= sat_add_u64(time_ms, duration_ms),
        first_tick(reapplied(current, def, time_ms, duration_ms), def, time_ms) matches Some(t) ==> t
            < reapplied(current, def, time_ms, duration_ms).expires_at_ms,
{
}

/// The unit held by a hard crowd control until `lock_until_ms`, applied at
/// `time_ms`: it may not act, move, attack or gain resonance until then,
/// drops its target, and stops walking.
pub open spec fn hard_cc_spec(u: RuntimeUnit, lock_until_ms: u64, time_ms: u64) -> RuntimeUnit {
    let u1 = RuntimeUnit {
        next_action_time: if u.next_action_time >= lock_until_ms { u.next_action_time } else { lock_until_ms },
        action_locks: ActionLocks {
            movement_until_ms: extend_lock(u.action_locks.movement_until_ms, lock_until_ms),
            basic_attack_until_ms: extend_lock(u.action_locks.basic_attack_until_ms, lock_until_ms),
            resonance_gain_until_ms: extend_lock(u.action_locks.resonance_gain_until_ms, lock_until_ms),
        },
        current_target: None,
        ..u
    };
    if is_interruptible(u1.action_state) {
        with_wait_state(advanced_unit(u1, time_ms), ActionState::Idle)
    } else {
        u1
    }
}

impl RuntimeUnit {
    /// Holds this unit by a hard crowd control until `lock_until_ms`,
    /// applied at `time_ms`. Returns whether it stopped walking for it (the
    /// loop then plans movement again when the hold ends).
    pub fn apply_hard_cc_lock(&mut self, lock_until_ms: u64, time_ms: u64) -> (was_moving: bool)
        requires
            old(self).action_state matches ActionState::Moving(state) ==> motion_fits(
                old(self).pos_x_units as int,
                old(self).pos_y_units as int,
                state,
                time_ms as int,
            ),
        ensures
            *final(self) == hard_cc_spec(*old(self), lock_until_ms, time_ms),
            was_moving == is_interruptible(old(self).action_state),
    {
        if self.next_action_time < lock_until_ms {
            self.next_action_time = lock_until_ms;
        }
        self.action_locks.lock_movement_until(lock_until_ms);
        self.action_locks.lock_basic_attack_until(lock_until_ms);
        self.action_locks.lock_resonance_gain_until(lock_until_ms);
        self.current_target = None;
        self.interrupt_movement(time_ms, ActionState::Idle)
    }
}

} // verus!
