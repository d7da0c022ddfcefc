//! Per-source fire alarm state machine.
//!
//! Design goals, in priority order:
//! 1. Never silently suppress a real fire (fail toward duplicate alerts).
//! 2. Do not spam Protect with one alert per repeated `active` notification.
//!
//! Three mechanisms cooperate:
//! - **Edge triggering**: an `inactive -> active` transition alerts immediately,
//!   subject to a per-source cooldown that bounds the total alert rate.
//! - **Re-alerting**: while a fire stays active, each repeated `active`
//!   notification re-alerts once per re-alert interval, so an ongoing fire
//!   keeps the Protect automation firing. Optional.
//! - **Staleness expiry**: an `active` state that has not been refreshed within
//!   the TTL is treated as expired, so a lost `inactive` notification (camera
//!   reboot, stream drop) can never latch the alarm off forever.
//!
//! The tracker is a pure, clock-injected state machine: the specification is
//! a step function on a map from source names to their states.

use vstd::prelude::*;

use crate::clock::elapsed;
use crate::clock::Duration;
use crate::clock::Instant;
use crate::text::same;

verus! {

/// Why an alert was raised. Carried through to logs and the webhook worker.
#[derive(Debug, Clone, Copy, PartialEq, Eq, Structural)]
pub enum Alert {
    /// A source transitioned from not-active (or expired) to active.
    NewFire,
    /// A source remains active and the re-alert interval elapsed.
    StillActive,
}

impl Alert {
    /// How the alert is named in logs.
    pub fn label(&self) -> (name: &'static str)
        ensures
            name@ == match *self {
                Alert::NewFire => "NewFire"@,
                Alert::StillActive => "StillActive"@,
            },
    {
        match self {
            Alert::NewFire => "NewFire",
            Alert::StillActive => "StillActive",
        }
    }
}

#[derive(Debug, Clone, Copy)]
pub struct TrackerConfig {
    /// Minimum gap between edge-trigger alerts for one source.
    pub cooldown: Duration,
    /// Re-alert interval while a source stays active. `None` = edge-only.
    pub realert: Option<Duration>,
    /// An active state older than this (no refreshed `active` message) is
    /// treated as expired, so the next `active` is a new fire.
    pub active_ttl: Duration,
}

/// What is known of one source.
#[derive(Debug, Clone, Copy)]
pub struct SourceState {
    pub active: bool,
    /// An edge was detected but suppressed by the cooldown. It is carried
    /// over and fires on a later `active` refresh once the cooldown has
    /// expired: a rate-limited edge must be delayed, never lost.
    pub pending_edge: bool,
    pub last_active_msg: Option<Instant>,
    pub last_alert: Option<Instant>,
}

/// Upper bound on tracked sources. A real device has a handful of
/// channels; a buggy or malicious camera inventing unique channel IDs
/// must not grow memory without limit.
pub const MAX_SOURCES: usize = 1024;

/// The slot that sources share once there is no room for them.
pub const OVERFLOW: &'static str = "overflow";

/// The tracked sources, by name.
pub type Sources = Map<Seq<char>, SourceState>;

/// A source of which nothing is known.
pub open spec fn unseen() -> SourceState {
    SourceState { active: false, pending_edge: false, last_active_msg: None, last_alert: None }
}

/// At least `span` has passed since `since`, or there is no `since`.
pub open spec fn over(since: Option<Instant>, now: Instant, span: Duration) -> bool {
    match since {
        None => true,
        Some(t) => elapsed(now, t) >= span.nanos,
    }
}

/// The last `active` message is no older than `ttl`.
pub open spec fn refreshed(s: SourceState, now: Instant, ttl: Duration) -> bool {
    match s.last_active_msg {
        None => false,
        Some(t) => elapsed(now, t) <= ttl.nanos,
    }
}

/// An `active` message now would be an edge: a new fire, one whose previous
/// state expired, or a rate-limited edge that still waits to fire.
pub open spec fn is_edge(s: SourceState, cfg: TrackerConfig, now: Instant) -> bool {
    !(s.active && refreshed(s, now, cfg.active_ttl)) || s.pending_edge
}

/// The alert that an `active` message raises.
pub open spec fn alert_due(s: SourceState, cfg: TrackerConfig, now: Instant) -> Option<Alert> {
    if is_edge(s, cfg, now) {
        if over(s.last_alert, now, cfg.cooldown) {
            Some(Alert::NewFire)
        } else {
            None
        }
    } else if cfg.realert matches Some(interval) && over(s.last_alert, now, interval) {
        Some(Alert::StillActive)
    } else {
        None
    }
}

/// A source after an `active` message.
pub open spec fn activated(s: SourceState, cfg: TrackerConfig, now: Instant) -> SourceState {
    SourceState {
        active: true,
        pending_edge: is_edge(s, cfg, now) && alert_due(s, cfg, now) is None,
        last_active_msg: Some(now),
        last_alert: if alert_due(s, cfg, now) is Some {
            Some(now)
        } else {
            s.last_alert
        },
    }
}

/// There is no room for `source`.
pub open spec fn crowded_out(m: Sources, source: Seq<char>) -> bool {
    m.len() >= MAX_SOURCES && !m.contains_key(source)
}

/// The sources that survive an eviction: live ones and pending edges.
pub open spec fn survivors(m: Sources, now: Instant, ttl: Duration) -> Sources {
    Map::new(
        |k: Seq<char>| m.contains_key(k) && (m[k].pending_edge || refreshed(m[k], now, ttl)),
        |k: Seq<char>| m[k],
    )
}

/// The sources once room has been made for `source` where it was missing.
pub open spec fn make_room(m: Sources, source: Seq<char>, now: Instant, ttl: Duration) -> Sources {
    if crowded_out(m, source) {
        survivors(m, now, ttl)
    } else {
        m
    }
}

/// The slot under which `source` is tracked: its own, or the shared one where
/// everything else is live.
pub open spec fn slot_of(m: Sources, source: Seq<char>) -> Seq<char> {
    if crowded_out(m, source) {
        OVERFLOW@
    } else {
        source
    }
}

pub open spec fn known(m: Sources, slot: Seq<char>) -> SourceState {
    if m.contains_key(slot) {
        m[slot]
    } else {
        unseen()
    }
}

/// The slot that an `active` message for `source` reaches.
pub open spec fn slot_reached(
    m: Sources,
    cfg: TrackerConfig,
    source: Seq<char>,
    now: Instant,
) -> Seq<char> {
    slot_of(make_room(m, source, now, cfg.active_ttl), source)
}

/// What is known of that slot when the message arrives.
pub open spec fn state_reached(
    m: Sources,
    cfg: TrackerConfig,
    source: Seq<char>,
    now: Instant,
) -> SourceState {
    known(make_room(m, source, now, cfg.active_ttl), slot_reached(m, cfg, source, now))
}

/// The sources after an `active` message for `source`.
pub open spec fn after_active(
    m: Sources,
    cfg: TrackerConfig,
    source: Seq<char>,
    now: Instant,
) -> Sources {
    make_room(m, source, now, cfg.active_ttl).insert(
        slot_reached(m, cfg, source, now),
        activated(state_reached(m, cfg, source, now), cfg, now),
    )
}

/// The sources after an `inactive` message for `source`.
pub open spec fn after_inactive(m: Sources, source: Seq<char>) -> Sources {
    if m.contains_key(source) {
        m.insert(source, SourceState { active: false, ..m[source] })
    } else {
        m
    }
}

/// The sources after the stream was lost.
pub open spec fn after_reset(m: Sources) -> Sources {
    m.map_values(|s: SourceState| SourceState { active: false, last_active_msg: None, ..s })
}

/// The sources stay bounded: one more than the maximum, for the shared slot.
pub open spec fn bounded(m: Sources) -> bool {
    &&& m.dom().finite()
    &&& m.len() <= MAX_SOURCES + 1
    &&& m.len() == MAX_SOURCES + 1 ==> m.contains_key(OVERFLOW@)
}

/// A tracked source.
#[derive(Debug)]
struct Entry {
    name: String,
    state: SourceState,
}

spec fn distinct(entries: Seq<Entry>) -> bool {
    forall|i: int, j: int|
        0 <= i < j < entries.len() ==> #[trigger] entries[i].name@ != #[trigger] entries[j].name@
}

spec fn sources_of(entries: Seq<Entry>) -> Sources
    decreases entries.len(),
{
    if entries.len() == 0 {
        Map::empty()
    } else {
        sources_of(entries.drop_last()).insert(entries.last().name@, entries.last().state)
    }
}

proof fn lemma_sources(entries: Seq<Entry>)
    requires
        distinct(entries),
    ensures
        sources_of(entries).dom().finite(),
        sources_of(entries).len() == entries.len(),
        forall|i: int|
            0 <= i < entries.len() ==> sources_of(entries).contains_key(
                #[trigger] entries[i].name@,
            ) && sources_of(entries)[entries[i].name@] == entries[i].state,
        forall|k: Seq<char>| #[trigger]
            sources_of(entries).contains_key(k) ==> exists|i: int|
                0 <= i < entries.len() && #[trigger] entries[i].name@ == k,
    decreases entries.len(),
{
    if entries.len() > 0 {
        let rest = entries.drop_last();
        let m = sources_of(rest);
        lemma_sources(rest);
        let last = entries.last();
        if m.contains_key(last.name@) {
            let i = choose|i: int| 0 <= i < rest.len() && #[trigger] rest[i].name@ == last.name@;
            assert(entries[i].name@ == entries[entries.len() - 1].name@);
        }
        assert forall|i: int| 0 <= i < entries.len() implies sources_of(entries).contains_key(
            #[trigger] entries[i].name@,
        ) && sources_of(entries)[entries[i].name@] == entries[i].state by {
            if i < rest.len() {
                assert(rest[i] == entries[i]);
                assert(entries[i].name@ != entries[entries.len() - 1].name@);
            }
        }
        assert forall|k: Seq<char>| #[trigger] sources_of(entries).contains_key(k) implies exists|
            i: int,
        | 0 <= i < entries.len() && #[trigger] entries[i].name@ == k by {
            if k == last.name@ {
                assert(entries[entries.len() - 1].name@ == k);
            } else {
                let i = choose|i: int| 0 <= i < rest.len() && #[trigger] rest[i].name@ == k;
                assert(entries[i].name@ == k);
            }
        }
    }
}

/// A map with these very keys and values is the map of the entries.
proof fn lemma_is_sources(entries: Seq<Entry>, m: Sources)
    requires
        distinct(entries),
        forall|i: int|
            0 <= i < entries.len() ==> m.contains_key(#[trigger] entries[i].name@)
                && m[entries[i].name@] == entries[i].state,
        forall|k: Seq<char>| #[trigger]
            m.contains_key(k) ==> exists|i: int|
                0 <= i < entries.len() && #[trigger] entries[i].name@ == k,
    ensures
        sources_of(entries) == m,
{
    lemma_sources(entries);
    let got = sources_of(entries);
    assert forall|k: Seq<char>| got.contains_key(k) == #[trigger] m.contains_key(k) by {
        if m.contains_key(k) {
            let i = choose|i: int| 0 <= i < entries.len() && #[trigger] entries[i].name@ == k;
            assert(got.contains_key(entries[i].name@));
        }
        if got.contains_key(k) {
            let i = choose|i: int| 0 <= i < entries.len() && #[trigger] entries[i].name@ == k;
            assert(m.contains_key(entries[i].name@));
        }
    }
    assert forall|k: Seq<char>| #[trigger] m.contains_key(k) implies got[k] == m[k] by {
        let i = choose|i: int| 0 <= i < entries.len() && #[trigger] entries[i].name@ == k;
        assert(got[entries[i].name@] == entries[i].state);
    }
    assert(got =~= m);
}

#[derive(Debug)]
pub struct FireTracker {
    cfg: TrackerConfig,
    entries: Vec<Entry>,
}

impl View for FireTracker {
    type V = Sources;

    closed spec fn view(&self) -> Sources {
        sources_of(self.entries@)
    }
}

impl FireTracker {
    pub const MAX_SOURCES: usize = MAX_SOURCES;

    pub closed spec fn config(&self) -> TrackerConfig {
        self.cfg
    }

    /// No source is tracked twice, and there is a bound on them.
    pub closed spec fn wf(&self) -> bool {
        &&& distinct(self.entries@)
        &&& bounded(self@)
    }

    pub fn new(cfg: TrackerConfig) -> (t: Self)
        ensures
            t.wf(),
            t.config() == cfg,
            t@ == Map::<Seq<char>, SourceState>::empty(),
    {
        FireTracker { cfg, entries: Vec::new() }
    }

    /// How many sources are tracked.
    pub fn source_count(&self) -> (n: usize)
        requires
            self.wf(),
        ensures
            n == self@.len(),
            n <= MAX_SOURCES + 1,
            n <= 1025,
    {
        proof {
            lemma_sources(self.entries@);
        }
        self.entries.len()
    }

    /// Whether `source` is tracked.
    pub fn knows(&self, source: &str) -> (r: bool)
        requires
            self.wf(),
        ensures
            r == self@.contains_key(source@),
    {
        self.position(source).is_some()
    }

    fn position(&self, source: &str) -> (r: Option<usize>)
        requires
            distinct(self.entries@),
        ensures
            match r {
                Some(i) => i < self.entries@.len() && self.entries@[i as int].name@ == source@
                    && self@.contains_key(source@) && self@[source@]
                    == self.entries@[i as int].state,
                None => !self@.contains_key(source@) && forall|i: int|
                    0 <= i < self.entries@.len() ==> #[trigger] self.entries@[i].name@ != source@,
            },
    {
        proof {
            lemma_sources(self.entries@);
        }
        let mut i: usize = 0;
        while i < self.entries.len()
            invariant
                i <= self.entries@.len(),
                distinct(self.entries@),
                forall|j: int| 0 <= j < i ==> #[trigger] self.entries@[j].name@ != source@,
                forall|j: int|
                    0 <= j < self.entries@.len() ==> self@.contains_key(
                        #[trigger] self.entries@[j].name@,
                    ) && self@[self.entries@[j].name@] == self.entries@[j].state,
            decreases self.entries@.len() - i,
        {
            if same(self.entries[i].name.as_str(), source) {
                return Some(i);
            }
            i += 1;
        }
        None
    }

    /// Drop the expired sources that no edge is pending for.
    fn evict(&mut self, now: Instant)
        requires
            old(self).wf(),
        ensures
            distinct(final(self).entries@),
            final(self).config() == old(self).config(),
            final(self)@ == survivors(old(self)@, now, old(self).config().active_ttl),
    {
        let ttl = self.cfg.active_ttl;
        let ghost before = self.entries@;
        proof {
            lemma_sources(before);
        }
        let mut kept: Vec<Entry> = Vec::new();
        let mut entries: Vec<Entry> = Vec::new();
        std::mem::swap(&mut entries, &mut self.entries);
        // where each kept entry stood
        let ghost mut from: Seq<int> = Seq::empty();
        let mut left: usize = entries.len();
        let ghost total = left as int;
        while left > 0
            invariant
                left == entries@.len(),
                left <= total,
                total == before.len(),
                entries@ =~= before.take(left as int),
                from.len() == kept@.len(),
                forall|i: int|
                    0 <= i < kept@.len() ==> left <= #[trigger] from[i] < total && kept@[i]
                        == before[from[i]] && (kept@[i].state.pending_edge || refreshed(
                        kept@[i].state,
                        now,
                        ttl,
                    )),
                forall|i: int, j: int|
                    0 <= i < j < from.len() ==> #[trigger] from[i] > #[trigger] from[j],
                forall|i: int|
                    left <= i < total && ((#[trigger] before[i]).state.pending_edge || refreshed(
                        before[i].state,
                        now,
                        ttl,
                    )) ==> exists|j: int| 0 <= j < from.len() && #[trigger] from[j] == i,
            decreases left,
        {
            left -= 1;
            let ghost so_far = from;
            if let Some(entry) = entries.pop() {
                assert(entry == before[left as int]);
                let live = match entry.state.last_active_msg {
                    Some(t) => now.duration_since(t).nanos <= ttl.nanos,
                    None => false,
                };
                if entry.state.pending_edge || live {
                    kept.push(entry);
                    proof {
                        from = from.push(left as int);
                        assert forall|i: int|
                            left <= i < total && ((#[trigger] before[i]).state.pending_edge
                                || refreshed(before[i].state, now, ttl)) implies exists|j: int|
                            0 <= j < from.len() && #[trigger] from[j] == i by {
                            if i == left {
                                assert(from[so_far.len() as int] == i);
                            } else {
                                let j = choose|j: int|
                                    0 <= j < so_far.len() && #[trigger] so_far[j] == i;
                                assert(from[j] == i);
                            }
                        }
                    }
                }
            }
        }
        self.entries = kept;
        proof {
            let after = self.entries@;
            let want = survivors(sources_of(before), now, ttl);
            assert forall|i: int, j: int| 0 <= i < j < after.len() implies #[trigger] after[i].name@
                != #[trigger] after[j].name@ by {
                assert(from[i] > from[j]);
                assert(before[from[j]].name@ != before[from[i]].name@);
            }
            assert forall|i: int| 0 <= i < after.len() implies want.contains_key(
                #[trigger] after[i].name@,
            ) && want[after[i].name@] == after[i].state by {
                assert(before[from[i]].name@ == after[i].name@);
            }
            assert forall|k: Seq<char>| #[trigger] want.contains_key(k) implies exists|i: int|
                0 <= i < after.len() && #[trigger] after[i].name@ == k by {
                assert(sources_of(before).contains_key(k));
                let i = choose|i: int| 0 <= i < before.len() && #[trigger] before[i].name@ == k;
                let j = choose|j: int| 0 <= j < from.len() && #[trigger] from[j] == i;
                assert(after[j].name@ == k);
            }
            lemma_is_sources(after, want);
        }
    }

    /// Put `state` in the slot `name`, which stands at `at` if it is tracked.
    fn put(&mut self, name: &str, at: Option<usize>, state: SourceState)
        requires
            distinct(old(self).entries@),
            match at {
                Some(i) => i < old(self).entries@.len() && old(self).entries@[i as int].name@
                    == name@,
                None => forall|i: int|
                    0 <= i < old(self).entries@.len() ==> #[trigger] old(self).entries@[i].name@
                        != name@,
            },
        ensures
            distinct(final(self).entries@),
            final(self).config() == old(self).config(),
            final(self)@ == old(self)@.insert(name@, state),
    {
        let ghost before = self.entries@;
        proof {
            lemma_sources(before);
        }
        match at {
            Some(i) => {
                let key = self.entries[i].name.clone();
                self.entries.set(i, Entry { name: key, state });
            },
            None => {
                self.entries.push(Entry { name: name.to_owned(), state });
            },
        }
        proof {
            let after = self.entries@;
            let want = sources_of(before).insert(name@, state);
            assert forall|k: Seq<char>| #[trigger] want.contains_key(k) implies exists|i: int|
                0 <= i < after.len() && #[trigger] after[i].name@ == k by {
                if k == name@ {
                    match at {
                        Some(i) => {
                            assert(after[i as int].name@ == k);
                        },
                        None => {
                            assert(after[before.len() as int].name@ == k);
                        },
                    }
                } else {
                    let i = choose|i: int| 0 <= i < before.len() && #[trigger] before[i].name@ == k;
                    assert(after[i].name@ == k);
                }
            }
            assert forall|i: int| 0 <= i < after.len() implies want.contains_key(
                #[trigger] after[i].name@,
            ) && want[after[i].name@] == after[i].state by {
                if i < before.len() {
                    assert(after[i].name@ == before[i].name@);
                }
            }
            lemma_is_sources(after, want);
        }
    }

    /// Handle an `active` fire notification for `source`.
    pub fn on_active(&mut self, source: &str, now: Instant) -> (r: Option<Alert>)
        requires
            old(self).wf(),
        ensures
            final(self).wf(),
            final(self).config() == old(self).config(),
            final(self)@ == after_active(old(self)@, old(self).config(), source@, now),
            r == alert_due(
                state_reached(old(self)@, old(self).config(), source@, now),
                old(self).config(),
                now,
            ),
            // a source of which nothing is known alerts at once
            !old(self)@.contains_key(source@) && old(self)@.dom().len() < 1024 ==> r == Some(
                Alert::NewFire,
            ),
            // an ongoing fire is reported again at its interval, and never as a
            // new one
            ({
                let s = old(self)@[source@];
                let cfg = old(self).config();
                old(self)@.contains_key(source@) && s.active && !s.pending_edge
                    && s.last_active_msg is Some && now.nanos <= s.last_active_msg->0.nanos
                    + cfg.active_ttl.nanos ==> r == if cfg.realert is Some && (s.last_alert is None
                    || cfg.realert->0.nanos == 0 || now.nanos >= s.last_alert->0.nanos
                    + cfg.realert->0.nanos) {
                    Some(Alert::StillActive)
                } else {
                    None::<Alert>
                }
            }),
            // anything else of a known source is a new fire, once the cooldown
            // is over, and waits until then
            ({
                let s = old(self)@[source@];
                let cfg = old(self).config();
                old(self)@.contains_key(source@) && (!s.active || s.pending_edge
                    || s.last_active_msg is None || now.nanos > s.last_active_msg->0.nanos
                    + cfg.active_ttl.nanos) ==> if s.last_alert is None || cfg.cooldown.nanos == 0
                    || now.nanos >= s.last_alert->0.nanos + cfg.cooldown.nanos {
                    r == Some(Alert::NewFire) && !final(self)@[source@].pending_edge
                } else {
                    r is None && final(self)@[source@].pending_edge
                }
            }),
    {
        let ghost before = self@;
        let ghost cfg = self.cfg;
        proof {
            lemma_sources(self.entries@);
        }
        let mut at = self.position(source);
        if self.entries.len() >= MAX_SOURCES && at.is_none() {
            // Evict expired, non-pending sources; if everything is live the
            // new source falls back to the shared overflow slot so alerts
            // still fire (rate-limited) rather than being ignored.
            self.evict(now);
            at = self.position(source);
        }
        let ghost roomy = self@;
        proof {
            lemma_sources(self.entries@);
            lemma_room_is_bounded(before, source@, now, cfg.active_ttl);
        }
        let key = if self.entries.len() >= MAX_SOURCES && at.is_none() {
            at = self.position(OVERFLOW);
            OVERFLOW
        } else {
            source
        };
        let state = match at {
            Some(i) => self.entries[i].state,
            None => SourceState {
                active: false,
                pending_edge: false,
                last_active_msg: None,
                last_alert: None,
            },
        };
        let fresh = match state.last_active_msg {
            Some(t) => now.duration_since(t).nanos <= self.cfg.active_ttl.nanos,
            None => false,
        };
        let was_active = state.active && fresh;
        let cooldown_over = match state.last_alert {
            Some(t) => now.duration_since(t).nanos >= self.cfg.cooldown.nanos,
            None => true,
        };
        let mut next = SourceState { active: true, last_active_msg: Some(now), ..state };
        let mut alert: Option<Alert> = None;
        if !was_active || state.pending_edge {
            // Edge: a new fire (or one whose previous state expired), or a
            // previously rate-limited edge still waiting to fire.
            if cooldown_over {
                next.pending_edge = false;
                next.last_alert = Some(now);
                alert = Some(Alert::NewFire);
            } else {
                // Suppressed by the cooldown: remember the edge so it fires on
                // a later `active` refresh instead of being lost. This matters
                // in edge-only mode, where nothing else would ever retry it.
                next.pending_edge = true;
            }
        } else if let Some(interval) = self.cfg.realert {
            let realert_over = match state.last_alert {
                Some(t) => now.duration_since(t).nanos >= interval.nanos,
                None => true,
            };
            if realert_over {
                next.last_alert = Some(now);
                alert = Some(Alert::StillActive);
            }
        }
        self.put(key, at, next);
        proof {
            lemma_insert_is_bounded(roomy, source@, next);
            lemma_alert_rule(state_reached(before, cfg, source@, now), cfg, now);
            lemma_slot_rule(before, cfg, source@, now, source@);
        }
        alert
    }

    /// Handle an `inactive` notification for `source`. A pending edge
    /// deliberately survives: a fire that started and was rate-limited still
    /// deserves its alert even if it went inactive in the meantime.
    pub fn on_inactive(&mut self, source: &str)
        requires
            old(self).wf(),
        ensures
            final(self).wf(),
            final(self).config() == old(self).config(),
            final(self)@ == after_inactive(old(self)@, source@),
    {
        let at = self.position(source);
        if let Some(i) = at {
            let state = self.entries[i].state;
            self.put(source, at, SourceState { active: false, ..state });
        }
    }

    /// Called when the camera stream drops or reconnects. Any `inactive`
    /// notification may have been lost during the gap, so no source may stay
    /// latched active: the next `active` message is treated as an edge again
    /// (still bounded by the cooldown, so a mid-fire reconnect cannot spam,
    /// and if the cooldown suppresses it, the pending-edge carryover
    /// guarantees it fires once the cooldown expires).
    pub fn on_stream_reset(&mut self)
        requires
            old(self).wf(),
        ensures
            final(self).wf(),
            final(self).config() == old(self).config(),
            final(self)@ == after_reset(old(self)@),
    {
        let ghost before = self.entries@;
        proof {
            lemma_sources(before);
        }
        let mut i: usize = 0;
        while i < self.entries.len()
            invariant
                i <= self.entries@.len(),
                self.cfg == old(self).cfg,
                self.entries@.len() == before.len(),
                forall|j: int|
                    0 <= j < before.len() ==> (#[trigger] self.entries@[j]).name@
                        == before[j].name@,
                forall|j: int|
                    0 <= j < i ==> (#[trigger] self.entries@[j]).state == (SourceState {
                        active: false,
                        last_active_msg: None,
                        ..before[j].state
                    }),
                forall|j: int|
                    i <= j < before.len() ==> (#[trigger] self.entries@[j]).state
                        == before[j].state,
            decreases before.len() - i,
        {
            let state = self.entries[i].state;
            let name = self.entries[i].name.clone();
            self.entries.set(
                i,
                Entry { name, state: SourceState { active: false, last_active_msg: None, ..state } },
            );
            i += 1;
        }
        proof {
            let after = self.entries@;
            let want = after_reset(sources_of(before));
            assert(want.dom() =~= sources_of(before).dom());
            assert forall|i: int, j: int| 0 <= i < j < after.len() implies #[trigger] after[i].name@
                != #[trigger] after[j].name@ by {
                assert(before[i].name@ != before[j].name@);
            }
            assert forall|i: int| 0 <= i < after.len() implies want.contains_key(
                #[trigger] after[i].name@,
            ) && want[after[i].name@] == after[i].state by {
                assert(before[i].name@ == after[i].name@);
            }
            assert forall|k: Seq<char>| #[trigger] want.contains_key(k) implies exists|i: int|
                0 <= i < after.len() && #[trigger] after[i].name@ == k by {
                let i = choose|i: int| 0 <= i < before.len() && #[trigger] before[i].name@ == k;
                assert(after[i].name@ == k);
            }
            lemma_is_sources(after, want);
        }
    }
}

proof fn lemma_room_is_bounded(m: Sources, source: Seq<char>, now: Instant, ttl: Duration)
    requires
        bounded(m),
    ensures
        bounded(make_room(m, source, now, ttl)),
{
    let kept = survivors(m, now, ttl);
    assert(kept.dom().subset_of(m.dom()));
    vstd::set_lib::lemma_len_subset(kept.dom(), m.dom());
    if kept.len() == MAX_SOURCES + 1 {
        vstd::set_lib::lemma_subset_equality(kept.dom(), m.dom());
    }
}

proof fn lemma_insert_is_bounded(m: Sources, source: Seq<char>, s: SourceState)
    requires
        bounded(m),
    ensures
        bounded(m.insert(slot_of(m, source), s)),
{
}

/// What the camera stream can tell the tracker.
pub enum Notice {
    Active { source: Seq<char>, now: Instant },
    Inactive { source: Seq<char> },
    Reset,
}

/// The sources after a notice.
pub open spec fn after(m: Sources, cfg: TrackerConfig, notice: Notice) -> Sources {
    match notice {
        Notice::Active { source, now } => after_active(m, cfg, source, now),
        Notice::Inactive { source } => after_inactive(m, source),
        Notice::Reset => after_reset(m),
    }
}

/// The sources after a run of notices.
pub open spec fn after_all(m: Sources, cfg: TrackerConfig, notices: Seq<Notice>) -> Sources
    decreases notices.len(),
{
    if notices.len() == 0 {
        m
    } else {
        after(after_all(m, cfg, notices.drop_last()), cfg, notices.last())
    }
}

/// A notice raises an alert for `slot`.
pub open spec fn alerts(m: Sources, cfg: TrackerConfig, notice: Notice, slot: Seq<char>) -> bool {
    match notice {
        Notice::Active { source, now } => slot_reached(m, cfg, source, now) == slot && alert_due(
            state_reached(m, cfg, source, now),
            cfg,
            now,
        ) is Some,
        _ => false,
    }
}

/// No notice of the run raises an alert for `slot`.
pub open spec fn silent(
    m: Sources,
    cfg: TrackerConfig,
    notices: Seq<Notice>,
    slot: Seq<char>,
) -> bool
    decreases notices.len(),
{
    notices.len() > 0 ==> {
        &&& silent(m, cfg, notices.drop_last(), slot)
        &&& !alerts(after_all(m, cfg, notices.drop_last()), cfg, notices.last(), slot)
    }
}

/// `slot` is known before, during and after the run.
pub open spec fn remembered(
    m: Sources,
    cfg: TrackerConfig,
    notices: Seq<Notice>,
    slot: Seq<char>,
) -> bool
    decreases notices.len(),
{
    &&& after_all(m, cfg, notices).contains_key(slot)
    &&& notices.len() > 0 ==> remembered(m, cfg, notices.drop_last(), slot)
}

/// Every active source has raised an alert or has an edge that waits to.
pub open spec fn accounted_for(m: Sources) -> bool {
    forall|k: Seq<char>| #[trigger]
        m.contains_key(k) && m[k].active ==> m[k].pending_edge || m[k].last_alert is Some
}

/// A rate-limited edge is delayed, never lost: whatever the stream brings, it
/// waits until its slot alerts, and the first `active` message for it past the
/// cooldown raises the alert.
pub proof fn lemma_pending_edge_is_never_lost(
    m: Sources,
    cfg: TrackerConfig,
    notices: Seq<Notice>,
    slot: Seq<char>,
    now: Instant,
)
    requires
        m.contains_key(slot),
        m[slot].pending_edge,
        silent(m, cfg, notices, slot),
    ensures
        after_all(m, cfg, notices).contains_key(slot),
        after_all(m, cfg, notices)[slot].pending_edge,
        after_all(m, cfg, notices)[slot].last_alert == m[slot].last_alert,
        over(m[slot].last_alert, now, cfg.cooldown) ==> alert_due(
            state_reached(after_all(m, cfg, notices), cfg, slot, now),
            cfg,
            now,
        ) == Some(Alert::NewFire),
    decreases notices.len(),
{
    if notices.len() > 0 {
        lemma_pending_edge_is_never_lost(m, cfg, notices.drop_last(), slot, now);
    }
}

/// A tracked source reaches its own slot, with what is known of it.
pub proof fn lemma_known_source_keeps_its_slot(
    m: Sources,
    cfg: TrackerConfig,
    source: Seq<char>,
    now: Instant,
)
    requires
        m.contains_key(source),
    ensures
        slot_reached(m, cfg, source, now) == source,
        state_reached(m, cfg, source, now) == m[source],
{
}

/// No fire is silenced: an `active` message that raises no alert reached a
/// slot that alerted within the cooldown, and then its edge waits there; or
/// one whose ongoing fire has been reported and is not due again.
pub proof fn lemma_no_fire_is_silenced(s: SourceState, cfg: TrackerConfig, now: Instant)
    requires
        s.active ==> s.pending_edge || s.last_alert is Some,
        alert_due(s, cfg, now) is None,
    ensures
        s.last_alert matches Some(t) && {
            ||| elapsed(now, t) < cfg.cooldown.nanos && activated(s, cfg, now).pending_edge
            ||| s.active && refreshed(s, now, cfg.active_ttl) && (cfg.realert matches Some(interval)
                ==> elapsed(now, t) < interval.nanos)
        },
{
}

/// Every active source stays accounted for, whatever the stream brings.
pub proof fn lemma_fires_are_accounted_for(m: Sources, cfg: TrackerConfig, notice: Notice)
    requires
        accounted_for(m),
    ensures
        accounted_for(after(m, cfg, notice)),
{
    match notice {
        Notice::Active { source, now } => {
            assert(accounted_for(make_room(m, source, now, cfg.active_ttl)));
        },
        _ => {},
    }
}

/// From an empty tracker on, every active source is accounted for, and the
/// sources stay bounded.
pub proof fn lemma_from_the_start(cfg: TrackerConfig, notices: Seq<Notice>)
    ensures
        accounted_for(after_all(Map::empty(), cfg, notices)),
        bounded(after_all(Map::empty(), cfg, notices)),
    decreases notices.len(),
{
    if notices.len() > 0 {
        let earlier = after_all(Map::empty(), cfg, notices.drop_last());
        lemma_from_the_start(cfg, notices.drop_last());
        lemma_fires_are_accounted_for(earlier, cfg, notices.last());
        match notices.last() {
            Notice::Active { source, now } => {
                lemma_room_is_bounded(earlier, source, now, cfg.active_ttl);
                lemma_insert_is_bounded(
                    make_room(earlier, source, now, cfg.active_ttl),
                    source,
                    activated(state_reached(earlier, cfg, source, now), cfg, now),
                );
            },
            Notice::Inactive { .. } => {},
            Notice::Reset => {
                assert(after_reset(earlier).dom() =~= earlier.dom());
            },
        }
    }
}

/// Whatever the stream has brought since the start, an `active` message that
/// raises no alert reached a slot that alerted within the cooldown, and then
/// its edge waits there; or one whose ongoing fire has been reported and is
/// not due again.
pub proof fn lemma_no_fire_is_ever_silenced(
    cfg: TrackerConfig,
    notices: Seq<Notice>,
    source: Seq<char>,
    now: Instant,
)
    ensures
        ({
            let m = after_all(Map::empty(), cfg, notices);
            let slot = slot_reached(m, cfg, source, now);
            let s = state_reached(m, cfg, source, now);
            alert_due(s, cfg, now) is None ==> {
                &&& s.last_alert matches Some(t)
                &&& {
                    ||| elapsed(now, t) < cfg.cooldown.nanos && after_active(
                        m,
                        cfg,
                        source,
                        now,
                    )[slot].pending_edge
                    ||| s.active && refreshed(s, now, cfg.active_ttl) && (
                    cfg.realert matches Some(interval) ==> elapsed(now, t) < interval.nanos)
                }
            }
        }),
{
    let m = after_all(Map::empty(), cfg, notices);
    let s = state_reached(m, cfg, source, now);
    lemma_from_the_start(cfg, notices);
    assert(s.active ==> s.pending_edge || s.last_alert is Some) by {
        let roomy = make_room(m, source, now, cfg.active_ttl);
        let slot = slot_reached(m, cfg, source, now);
        if roomy.contains_key(slot) {
            assert(m.contains_key(slot) && m[slot] == roomy[slot]);
        }
    }
    if alert_due(s, cfg, now) is None {
        lemma_no_fire_is_silenced(s, cfg, now);
    }
}

/// The alert rate of a slot is bounded: once it has alerted, the next alert
/// comes no sooner than the cooldown if it is for a new fire, and no sooner
/// than the re-alert interval if it is for an ongoing one, for as long as the
/// slot is remembered.
pub proof fn lemma_alert_rate(
    m: Sources,
    cfg: TrackerConfig,
    notices: Seq<Notice>,
    slot: Seq<char>,
    first: Instant,
    now: Instant,
)
    requires
        m.contains_key(slot),
        m[slot].last_alert == Some(first),
        silent(m, cfg, notices, slot),
        remembered(m, cfg, notices, slot),
    ensures
        after_all(m, cfg, notices)[slot].last_alert == Some(first),
        match alert_due(state_reached(after_all(m, cfg, notices), cfg, slot, now), cfg, now) {
            Some(Alert::NewFire) => elapsed(now, first) >= cfg.cooldown.nanos,
            Some(Alert::StillActive) => cfg.realert matches Some(interval) && elapsed(now, first)
                >= interval.nanos,
            None => true,
        },
    decreases notices.len(),
{
    if notices.len() > 0 {
        lemma_alert_rate(m, cfg, notices.drop_last(), slot, first, now);
        assert(after_all(m, cfg, notices.drop_last()).contains_key(slot));
    }
}

/// An alert is remembered as the slot's last one.
pub proof fn lemma_alert_is_recorded(s: SourceState, cfg: TrackerConfig, now: Instant)
    requires
        alert_due(s, cfg, now) is Some,
    ensures
        activated(s, cfg, now).last_alert == Some(now),
        !activated(s, cfg, now).pending_edge,
{
}

/// An ongoing fire keeps alerting: with a re-alert interval, an `active`
/// message raises an alert whenever the last one is at least that interval and
/// the cooldown ago, or there is none.
pub proof fn lemma_ongoing_fire_keeps_alerting(
    s: SourceState,
    cfg: TrackerConfig,
    now: Instant,
    interval: Duration,
)
    requires
        cfg.realert == Some(interval),
        over(s.last_alert, now, cfg.cooldown),
        over(s.last_alert, now, interval),
    ensures
        alert_due(s, cfg, now) is Some,
        s.active && refreshed(s, now, cfg.active_ttl) && !s.pending_edge ==> alert_due(s, cfg, now)
            == Some(Alert::StillActive),
{
}

/// A lost `inactive` notification cannot latch the alarm off: once the active
/// state has gone without a refresh for longer than the TTL, the next `active`
/// message is a new fire, at once or as soon as the cooldown is over.
pub proof fn lemma_expired_state_is_a_new_fire(s: SourceState, cfg: TrackerConfig, now: Instant)
    requires
        s.last_active_msg matches Some(t) && elapsed(now, t) > cfg.active_ttl.nanos,
    ensures
        over(s.last_alert, now, cfg.cooldown) ==> alert_due(s, cfg, now) == Some(Alert::NewFire),
        !over(s.last_alert, now, cfg.cooldown) ==> activated(s, cfg, now).pending_edge,
{
}

/// A lost stream re-arms every source: the next `active` message is a new
/// fire, at once or as soon as the cooldown is over, and neither the alerts
/// raised nor the edges pending are forgotten.
pub proof fn lemma_reset_rearms(m: Sources, cfg: TrackerConfig, slot: Seq<char>, now: Instant)
    requires
        m.contains_key(slot),
    ensures
        after_reset(m).dom() == m.dom(),
        !after_reset(m)[slot].active,
        after_reset(m)[slot].pending_edge == m[slot].pending_edge,
        after_reset(m)[slot].last_alert == m[slot].last_alert,
        over(m[slot].last_alert, now, cfg.cooldown) ==> alert_due(
            state_reached(after_reset(m), cfg, slot, now),
            cfg,
            now,
        ) == Some(Alert::NewFire),
        !over(m[slot].last_alert, now, cfg.cooldown) ==> after_active(
            after_reset(m),
            cfg,
            slot,
            now,
        )[slot].pending_edge,
{
    assert(after_reset(m).dom() =~= m.dom());
}

/// After an `inactive` message the next `active` one is a new fire, at once or
/// as soon as the cooldown is over.
pub proof fn lemma_inactive_rearms(m: Sources, cfg: TrackerConfig, source: Seq<char>, now: Instant)
    requires
        m.contains_key(source),
    ensures
        over(m[source].last_alert, now, cfg.cooldown) ==> alert_due(
            state_reached(after_inactive(m, source), cfg, source, now),
            cfg,
            now,
        ) == Some(Alert::NewFire),
        !over(m[source].last_alert, now, cfg.cooldown) ==> after_active(
            after_inactive(m, source),
            cfg,
            source,
            now,
        )[source].pending_edge,
{
}

/// Each of the times is within the TTL of the one before it.
pub open spec fn steady(from: Instant, times: Seq<Instant>, ttl: Duration) -> bool
    decreases times.len(),
{
    times.len() > 0 ==> elapsed(times[0], from) <= ttl.nanos && steady(
        times[0],
        times.drop_first(),
        ttl,
    )
}

/// The alerts that `active` messages at these times raise.
pub open spec fn alerts_at(s: SourceState, cfg: TrackerConfig, times: Seq<Instant>) -> Seq<
    Option<Alert>,
>
    decreases times.len(),
{
    if times.len() == 0 {
        Seq::empty()
    } else {
        seq![alert_due(s, cfg, times[0])] + alerts_at(
            activated(s, cfg, times[0]),
            cfg,
            times.drop_first(),
        )
    }
}

/// In edge-only mode a fire alerts once: while it is refreshed within the TTL
/// no further alert is raised.
pub proof fn lemma_edge_only_alerts_once(
    s: SourceState,
    cfg: TrackerConfig,
    from: Instant,
    times: Seq<Instant>,
)
    requires
        cfg.realert is None,
        s.active,
        !s.pending_edge,
        s.last_active_msg == Some(from),
        steady(from, times, cfg.active_ttl),
    ensures
        alerts_at(s, cfg, times) == Seq::new(times.len(), |i: int| None::<Alert>),
    decreases times.len(),
{
    if times.len() > 0 {
        lemma_edge_only_alerts_once(
            activated(s, cfg, times[0]),
            cfg,
            times[0],
            times.drop_first(),
        );
    }
    assert(alerts_at(s, cfg, times) =~= Seq::new(times.len(), |i: int| None::<Alert>));
}

/// A message for one source says nothing of another: it leaves the state of
/// every other slot as it was, where the slot is not evicted.
pub proof fn lemma_sources_are_independent(
    m: Sources,
    cfg: TrackerConfig,
    notice: Notice,
    other: Seq<char>,
)
    requires
        m.contains_key(other),
        match notice {
            Notice::Active { source, now } => other != slot_reached(m, cfg, source, now),
            Notice::Inactive { source } => other != source,
            Notice::Reset => false,
        },
        after(m, cfg, notice).contains_key(other),
    ensures
        after(m, cfg, notice)[other] == m[other],
{
}

/// Only a source that is neither refreshed nor waiting to alert is ever
/// evicted, and only to make room for a new one.
pub proof fn lemma_only_idle_sources_are_evicted(
    m: Sources,
    cfg: TrackerConfig,
    notice: Notice,
    slot: Seq<char>,
)
    requires
        m.contains_key(slot),
        !after(m, cfg, notice).contains_key(slot),
    ensures
        notice matches Notice::Active { source, now } && crowded_out(m, source)
            && !m[slot].pending_edge && !refreshed(m[slot], now, cfg.active_ttl),
{
    if notice is Reset {
        assert(after_reset(m).dom() =~= m.dom());
    }
}

/// When an `active` message raises an alert, by the clock. A fire is ongoing
/// where its source is active, was refreshed no longer than the TTL ago, and
/// has no edge pending. An ongoing fire never raises a new alert: it is
/// reported again exactly where a re-alert interval is set and at least that
/// long has passed since the last alert. Anything else is a new fire, reported
/// exactly where at least the cooldown has passed since the last alert.
pub proof fn lemma_alert_rule(s: SourceState, cfg: TrackerConfig, now: Instant)
    ensures
        ({
            let ongoing = s.active && !s.pending_edge && s.last_active_msg is Some && now.nanos
                <= s.last_active_msg->0.nanos + cfg.active_ttl.nanos;
            let rested = |span: Duration|
                s.last_alert is None || span.nanos == 0 || now.nanos >= s.last_alert->0.nanos
                    + span.nanos;
            &&& alert_due(s, cfg, now) == Some(Alert::StillActive) <==> ongoing && cfg.realert is Some
                && rested(cfg.realert->0)
            &&& alert_due(s, cfg, now) == Some(Alert::NewFire) <==> !ongoing && rested(cfg.cooldown)
            &&& activated(s, cfg, now).active
            &&& activated(s, cfg, now).last_active_msg == Some(now)
            &&& activated(s, cfg, now).last_alert == if alert_due(s, cfg, now) is Some {
                Some(now)
            } else {
                s.last_alert
            }
            &&& activated(s, cfg, now).pending_edge <==> !ongoing && !rested(cfg.cooldown)
        }),
{
}

/// Where an `active` message goes. A known source keeps its slot; a new one
/// gets its own while fewer than 1024 are known. With 1024 or more, the sources
/// that neither wait to alert nor were refreshed within the TTL make room, and
/// where 1024 are left the slot is the shared one. Every slot but the one
/// reached stays as it was or is evicted.
pub proof fn lemma_slot_rule(
    m: Sources,
    cfg: TrackerConfig,
    source: Seq<char>,
    now: Instant,
    other: Seq<char>,
)
    requires
        m.dom().finite(),
    ensures
        ({
            let crowded = !m.contains_key(source) && m.dom().len() >= 1024;
            let stays = |k: Seq<char>|
                m.contains_key(k) && (!crowded || m[k].pending_edge || (m[k].last_active_msg is Some
                    && now.nanos <= m[k].last_active_msg->0.nanos + cfg.active_ttl.nanos));
            let left = m.dom().filter(stays);
            let slot = if m.contains_key(source) || left.len() < 1024 {
                source
            } else {
                "overflow"@
            };
            let after = after_active(m, cfg, source, now);
            let before = state_reached(m, cfg, source, now);
            &&& slot_reached(m, cfg, source, now) == slot
            &&& stays(slot) ==> before == m[slot]
            &&& !stays(slot) ==> !before.active && !before.pending_edge && before.last_active_msg
                is None && before.last_alert is None
            &&& after.contains_key(slot) && after[slot] == activated(before, cfg, now)
            &&& other != slot ==> (after.contains_key(other) <==> stays(other))
            &&& other != slot && stays(other) ==> after[other] == m[other]
        }),
{
    let crowded = !m.contains_key(source) && m.dom().len() >= 1024;
    let stays = |k: Seq<char>|
        m.contains_key(k) && (!crowded || m[k].pending_edge || (m[k].last_active_msg is Some
            && now.nanos <= m[k].last_active_msg->0.nanos + cfg.active_ttl.nanos));
    let room = make_room(m, source, now, cfg.active_ttl);
    assert(m.dom().filter(stays) =~= room.dom());
}

/// An `inactive` message clears the activity of its source, if it is known, and
/// touches nothing else.
pub proof fn lemma_inactive_rule(m: Sources, source: Seq<char>, other: Seq<char>)
    ensures
        after_inactive(m, source).dom() == m.dom(),
        other != source && m.contains_key(other) ==> after_inactive(m, source)[other] == m[other],
        m.contains_key(source) ==> {
            let s = after_inactive(m, source)[source];
            &&& !s.active
            &&& s.pending_edge == m[source].pending_edge
            &&& s.last_active_msg == m[source].last_active_msg
            &&& s.last_alert == m[source].last_alert
        },
{
    assert(after_inactive(m, source).dom() =~= m.dom());
}

/// A lost stream clears the activity of every source, and forgets no source, no
/// pending edge and no alert.
pub proof fn lemma_reset_rule(m: Sources, slot: Seq<char>)
    ensures
        after_reset(m).dom() == m.dom(),
        m.contains_key(slot) ==> {
            let s = after_reset(m)[slot];
            &&& !s.active
            &&& s.last_active_msg is None
            &&& s.pending_edge == m[slot].pending_edge
            &&& s.last_alert == m[slot].last_alert
        },
{
    assert(after_reset(m).dom() =~= m.dom());
}

/// An ongoing fire: `active` messages for one source, each within the TTL of
/// the one before, raise no alert but the re-alerts, which come only where an
/// interval is set and never sooner than it after the alert before.
pub proof fn lemma_ongoing_fire_is_no_new_fire(
    s: SourceState,
    cfg: TrackerConfig,
    from: Instant,
    times: Seq<Instant>,
    i: int,
)
    requires
        s.active,
        !s.pending_edge,
        s.last_active_msg == Some(from),
        steady(from, times, cfg.active_ttl),
        0 <= i < times.len(),
    ensures
        alerts_at(s, cfg, times).len() == times.len(),
        alerts_at(s, cfg, times)[i] != Some(Alert::NewFire),
        cfg.realert is None ==> alerts_at(s, cfg, times)[i] is None,
        i == 0 && cfg.realert is Some && s.last_alert is Some ==> (alerts_at(s, cfg, times)[0]
            is Some <==> cfg.realert->0.nanos == 0 || times[0].nanos >= s.last_alert->0.nanos
            + cfg.realert->0.nanos),
    decreases times.len(),
{
    let next = activated(s, cfg, times[0]);
    lemma_one_answer_per_message(s, cfg, times);
    if i > 0 {
        lemma_ongoing_fire_is_no_new_fire(next, cfg, times[0], times.drop_first(), i - 1);
        lemma_one_answer_per_message(next, cfg, times.drop_first());
        assert(alerts_at(s, cfg, times)[i] == alerts_at(next, cfg, times.drop_first())[i - 1]);
    }
}

proof fn lemma_one_answer_per_message(s: SourceState, cfg: TrackerConfig, times: Seq<Instant>)
    ensures
        alerts_at(s, cfg, times).len() == times.len(),
    decreases times.len(),
{
    if times.len() > 0 {
        lemma_one_answer_per_message(
            activated(s, cfg, times[0]),
            cfg,
            times.drop_first(),
        );
    }
}

} // verus!
