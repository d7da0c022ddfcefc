//! Health state and counters behind the HTTP health/readiness server.
//!
//! Readiness (`/readyz`) is deliberately strict for a fire-safety bridge:
//! - the camera stream must be connected;
//! - the periodic Protect probe (when enabled) must be passing;
//! - the most recent real alert delivery must not have failed. A failed
//!   delivery *latches* unreadiness until a later delivery succeeds: a
//!   missed alarm needs a human, not a self-clearing status.
//!
//! Points in time are seconds since the Unix epoch, read by the caller.

use vstd::prelude::*;

use crate::config::texts;
use crate::text::same;

verus! {

#[derive(Debug, Clone)]
pub struct HealthSnapshot {
    pub version: &'static str,
    pub started_unix: u64,
    // Camera path.
    pub camera_connected: bool,
    pub camera_last_message_unix: Option<u64>,
    pub camera_error: Option<String>,
    pub camera_reconnects: u64,
    pub malformed_frames: u64,
    pub dropped_events: u64,
    /// The event types seen that `FIRE_EVENT_TYPES` does not match, each once,
    /// the latest of them up to a bound.
    pub unmatched_event_types: Vec<String>,
    /// How many of them had to make room for a later one.
    pub unmatched_event_types_forgotten: u64,
    // Alerting.
    pub alerts_sent: u64,
    pub last_alert_unix: Option<u64>,
    // Protect delivery path.
    pub webhook_last_success_unix: Option<u64>,
    pub webhook_failures: u64,
    pub webhook_error: Option<String>,
    // Protect reachability probe.
    pub probe_enabled: bool,
    pub probe_ok: bool,
    pub probe_last_success_unix: Option<u64>,
    pub probe_error: Option<String>,
}

/// What readiness depends on.
pub struct Gate {
    pub camera_connected: bool,
    pub probe_enabled: bool,
    pub probe_ok: bool,
    pub delivery_failed: bool,
}

pub open spec fn is_open(g: Gate) -> bool {
    g.camera_connected && (!g.probe_enabled || g.probe_ok) && !g.delivery_failed
}

/// What can happen to the bridge, as far as readiness goes.
pub enum Occurrence {
    CameraConnected,
    CameraDisconnected,
    Delivered,
    DeliveryFailed,
    ProbePassed,
    ProbeFailed,
    /// A message, a malformed or dropped event, an alert.
    Counted,
}

pub open spec fn gate_after(g: Gate, what: Occurrence) -> Gate {
    match what {
        Occurrence::CameraConnected => Gate { camera_connected: true, ..g },
        Occurrence::CameraDisconnected => Gate { camera_connected: false, ..g },
        Occurrence::Delivered => Gate { delivery_failed: false, ..g },
        Occurrence::DeliveryFailed => Gate { delivery_failed: true, ..g },
        Occurrence::ProbePassed => Gate { probe_ok: true, ..g },
        Occurrence::ProbeFailed => Gate { probe_ok: false, ..g },
        Occurrence::Counted => g,
    }
}

pub open spec fn gate_after_all(g: Gate, run: Seq<Occurrence>) -> Gate
    decreases run.len(),
{
    if run.len() == 0 {
        g
    } else {
        gate_after(gate_after_all(g, run.drop_last()), run.last())
    }
}

impl HealthSnapshot {
    pub open spec fn gate(&self) -> Gate {
        Gate {
            camera_connected: self.camera_connected,
            probe_enabled: self.probe_enabled,
            probe_ok: self.probe_ok,
            delivery_failed: self.webhook_error is Some,
        }
    }

    pub fn ready(&self) -> (r: bool)
        ensures
            r == is_open(self.gate()),
            r <==> self.camera_connected && (self.probe_enabled ==> self.probe_ok)
                && self.webhook_error is None,
    {
        let probe_healthy = !self.probe_enabled || self.probe_ok;
        self.camera_connected && probe_healthy && self.webhook_error.is_none()
    }

    /// The HTTP status that `/readyz` answers with.
    pub fn readiness_code(&self) -> (code: u16)
        ensures
            code == if is_open(self.gate()) {
                200u16
            } else {
                503u16
            },
            code == 200 <==> self.camera_connected && (self.probe_enabled ==> self.probe_ok)
                && self.webhook_error is None,
            code == 200 || code == 503,
    {
        if self.ready() {
            200
        } else {
            503
        }
    }

    /// Nothing has happened.
    pub open spec fn is_blank(&self) -> bool {
        &&& self.version@ == ""@
        &&& self.started_unix == 0
        &&& !self.camera_connected
        &&& self.camera_last_message_unix is None
        &&& self.camera_error is None
        &&& self.camera_reconnects == 0
        &&& self.malformed_frames == 0
        &&& self.dropped_events == 0
        &&& self.unmatched_event_types@.len() == 0
        &&& self.unmatched_event_types_forgotten == 0
        &&& self.alerts_sent == 0
        &&& self.last_alert_unix is None
        &&& self.webhook_last_success_unix is None
        &&& self.webhook_failures == 0
        &&& self.webhook_error is None
        &&& !self.probe_enabled
        &&& !self.probe_ok
        &&& self.probe_last_success_unix is None
        &&& self.probe_error is None
    }
}

impl Default for HealthSnapshot {
    fn default() -> (s: Self)
        ensures
            s.is_blank(),
            s.version@ == ""@,
            s.started_unix == 0,
            s.probe_enabled == false,
            s.camera_connected == false,
            s.camera_last_message_unix is None,
            s.camera_error is None,
            s.camera_reconnects == 0,
            s.malformed_frames == 0,
            s.dropped_events == 0,
            s.unmatched_event_types@.len() == 0,
            s.unmatched_event_types_forgotten == 0,
            s.alerts_sent == 0,
            s.last_alert_unix is None,
            s.webhook_last_success_unix is None,
            s.webhook_failures == 0,
            s.webhook_error is None,
            s.probe_ok == false,
            s.probe_last_success_unix is None,
            s.probe_error is None,
    {
        HealthSnapshot {
            version: "",
            started_unix: 0,
            camera_connected: false,
            camera_last_message_unix: None,
            camera_error: None,
            camera_reconnects: 0,
            malformed_frames: 0,
            dropped_events: 0,
            unmatched_event_types: Vec::new(),
            unmatched_event_types_forgotten: 0,
            alerts_sent: 0,
            last_alert_unix: None,
            webhook_last_success_unix: None,
            webhook_failures: 0,
            webhook_error: None,
            probe_enabled: false,
            probe_ok: false,
            probe_last_success_unix: None,
            probe_error: None,
        }
    }
}

/// The health of a running bridge.
pub struct Health {
    pub state: HealthSnapshot,
}

/// Upper bound on the unmatched event types that are kept. A real device has a
/// handful; a buggy or malicious camera inventing new ones must not grow memory
/// without limit.
pub const MAX_UNMATCHED_TYPES: usize = 64;

/// The kept types once `event_type` is noted: it is among them, and the oldest
/// made room for it where there was none.
pub open spec fn noted(kept: Seq<Seq<char>>, event_type: Seq<char>) -> Seq<Seq<char>> {
    if kept.contains(event_type) {
        kept
    } else if kept.len() >= MAX_UNMATCHED_TYPES {
        kept.drop_first().push(event_type)
    } else {
        kept.push(event_type)
    }
}

/// No unmatched type is dropped in silence: it is always among those kept, and
/// those stay bounded and distinct.
pub proof fn lemma_unmatched_types_are_visible(kept: Seq<Seq<char>>, event_type: Seq<char>)
    requires
        kept.len() <= MAX_UNMATCHED_TYPES,
        kept.no_duplicates(),
    ensures
        noted(kept, event_type).contains(event_type),
        noted(kept, event_type).len() <= MAX_UNMATCHED_TYPES,
        noted(kept, event_type).no_duplicates(),
{
    let after = noted(kept, event_type);
    if !kept.contains(event_type) {
        assert(after.last() == event_type);
        assert forall|i: int, j: int| 0 <= i < after.len() && 0 <= j < after.len() && i != j
            implies after[i] != after[j] by {
            let shift = if kept.len() >= MAX_UNMATCHED_TYPES {
                1int
            } else {
                0int
            };
            if i < after.len() - 1 {
                assert(after[i] == kept[i + shift]);
            }
            if j < after.len() - 1 {
                assert(after[j] == kept[j + shift]);
            }
        }
    }
}

/// What the operator is told when an alert could not be queued.
pub const QUEUE_UNAVAILABLE: &'static str = "alarm queue unavailable; alert not enqueued";

impl Health {
    pub fn new(version: &'static str, started_unix: u64, probe_enabled: bool) -> (h: Self)
        ensures
            h.state.version == version,
            h.state.started_unix == started_unix,
            h.state.probe_enabled == probe_enabled,
            (HealthSnapshot { version: "", started_unix: 0, probe_enabled: false, ..h.state }).is_blank(),
            h.state.camera_connected == false,
            h.state.camera_last_message_unix is None,
            h.state.camera_error is None,
            h.state.camera_reconnects == 0,
            h.state.malformed_frames == 0,
            h.state.dropped_events == 0,
            h.state.unmatched_event_types@.len() == 0,
            h.state.unmatched_event_types_forgotten == 0,
            h.state.alerts_sent == 0,
            h.state.last_alert_unix is None,
            h.state.webhook_last_success_unix is None,
            h.state.webhook_failures == 0,
            h.state.webhook_error is None,
            h.state.probe_ok == false,
            h.state.probe_last_success_unix is None,
            h.state.probe_error is None,
    {
        // Until the first probe result arrives, the path is unverified;
        // readiness must not report healthy on startup optimism.
        let blank = HealthSnapshot::default();
        Health { state: HealthSnapshot { version, started_unix, probe_enabled, ..blank } }
    }

    pub fn snapshot(&self) -> (s: &HealthSnapshot)
        ensures
            *s == self.state,
    {
        &self.state
    }

    pub fn camera_connected(&mut self)
        ensures
            final(self).state == (HealthSnapshot {
                camera_connected: true,
                camera_error: None,
                ..old(self).state
            }),
            final(self).state.gate() == gate_after(
                old(self).state.gate(),
                Occurrence::CameraConnected,
            ),
    {
        self.state.camera_connected = true;
        self.state.camera_error = None;
    }

    pub fn camera_disconnected(&mut self, error: Option<String>)
        requires
            old(self).state.camera_reconnects < u64::MAX,
        ensures
            final(self).state == (HealthSnapshot {
                camera_connected: false,
                camera_reconnects: (old(self).state.camera_reconnects + 1) as u64,
                camera_error: if error is Some {
                    error
                } else {
                    old(self).state.camera_error
                },
                ..old(self).state
            }),
            final(self).state.gate() == gate_after(
                old(self).state.gate(),
                Occurrence::CameraDisconnected,
            ),
    {
        self.state.camera_connected = false;
        self.state.camera_reconnects += 1;
        if error.is_some() {
            self.state.camera_error = error;
        }
    }

    pub fn camera_message(&mut self, now: u64)
        ensures
            final(self).state == (HealthSnapshot {
                camera_last_message_unix: Some(now),
                ..old(self).state
            }),
            final(self).state.gate() == gate_after(old(self).state.gate(), Occurrence::Counted),
    {
        self.state.camera_last_message_unix = Some(now);
    }

    pub fn malformed_frame(&mut self)
        requires
            old(self).state.malformed_frames < u64::MAX,
        ensures
            final(self).state == (HealthSnapshot {
                malformed_frames: (old(self).state.malformed_frames + 1) as u64,
                ..old(self).state
            }),
            final(self).state.gate() == gate_after(old(self).state.gate(), Occurrence::Counted),
    {
        self.state.malformed_frames += 1;
    }

    pub fn dropped_event(&mut self)
        requires
            old(self).state.dropped_events < u64::MAX,
        ensures
            final(self).state == (HealthSnapshot {
                dropped_events: (old(self).state.dropped_events + 1) as u64,
                ..old(self).state
            }),
            final(self).state.gate() == gate_after(old(self).state.gate(), Occurrence::Counted),
    {
        self.state.dropped_events += 1;
    }

    /// Note an event type that is not taken for fire. Tells whether it is new,
    /// which is when the operator should hear of it. Never a silent drop: a new
    /// type is always kept and told of. The camera chooses the text, so only so
    /// many are kept; the oldest makes room, and is counted, and would be told
    /// of again.
    pub fn unmatched_event_type(&mut self, event_type: &str) -> (first: bool)
        ensures
            first == !texts(old(self).state.unmatched_event_types@).contains(event_type@),
            first <==> forall|i: int|
                0 <= i < old(self).state.unmatched_event_types@.len() ==> #[trigger] old(
                    self,
                ).state.unmatched_event_types@[i]@ != event_type@,
            !first ==> final(self).state == old(self).state,
            first ==> ({
                let before = old(self).state.unmatched_event_types@;
                let after = final(self).state.unmatched_event_types@;
                let gone = if before.len() >= 64 {
                    1int
                } else {
                    0int
                };
                &&& after.len() == before.len() + 1 - gone
                &&& after[after.len() - 1]@ == event_type@
                &&& forall|i: int|
                    0 <= i < before.len() - gone ==> (#[trigger] after[i])@ == before[i + gone]@
                &&& final(self).state.unmatched_event_types_forgotten == if gone == 1 && old(
                    self,
                ).state.unmatched_event_types_forgotten < u64::MAX {
                    old(self).state.unmatched_event_types_forgotten + 1
                } else {
                    old(self).state.unmatched_event_types_forgotten as int
                }
            }),
            texts(final(self).state.unmatched_event_types@) == noted(
                texts(old(self).state.unmatched_event_types@),
                event_type@,
            ),
            final(self).state == (HealthSnapshot {
                unmatched_event_types: final(self).state.unmatched_event_types,
                unmatched_event_types_forgotten: if first
                    && old(self).state.unmatched_event_types@.len() >= MAX_UNMATCHED_TYPES
                    && old(self).state.unmatched_event_types_forgotten < u64::MAX {
                    (old(self).state.unmatched_event_types_forgotten + 1) as u64
                } else {
                    old(self).state.unmatched_event_types_forgotten
                },
                ..old(self).state
            }),
            final(self).state.gate() == gate_after(old(self).state.gate(), Occurrence::Counted),
    {
        let ghost before = self.state.unmatched_event_types@;
        let mut i: usize = 0;
        while i < self.state.unmatched_event_types.len()
            invariant
                self.state == old(self).state,
                before == self.state.unmatched_event_types@,
                i <= before.len(),
                forall|j: int| 0 <= j < i ==> #[trigger] before[j]@ != event_type@,
            decreases before.len() - i,
        {
            if same(self.state.unmatched_event_types[i].as_str(), event_type) {
                assert(texts(before)[i as int] == event_type@);
                assert(before[i as int]@ == event_type@);
                return false;
            }
            i += 1;
        }
        proof {
            if texts(before).contains(event_type@) {
                let j = choose|j: int| 0 <= j < before.len() && texts(before)[j] == event_type@;
                assert(before[j]@ == event_type@);
            }
        }
        if self.state.unmatched_event_types.len() >= MAX_UNMATCHED_TYPES {
            self.state.unmatched_event_types.remove(0);
            if self.state.unmatched_event_types_forgotten < u64::MAX {
                self.state.unmatched_event_types_forgotten += 1;
            }
        }
        self.state.unmatched_event_types.push(event_type.to_owned());
        proof {
            let after = self.state.unmatched_event_types@;
            let gone = if before.len() >= 64 {
                1int
            } else {
                0int
            };
            assert(texts(after) =~= noted(texts(before), event_type@));
            assert forall|i: int| 0 <= i < before.len() - gone implies (#[trigger] after[i])@
                == before[i + gone]@ by {}
        }
        true
    }

    pub fn alert_sent(&mut self, now: u64)
        requires
            old(self).state.alerts_sent < u64::MAX,
        ensures
            final(self).state == (HealthSnapshot {
                alerts_sent: (old(self).state.alerts_sent + 1) as u64,
                last_alert_unix: Some(now),
                ..old(self).state
            }),
            final(self).state.gate() == gate_after(old(self).state.gate(), Occurrence::Counted),
    {
        self.state.alerts_sent += 1;
        self.state.last_alert_unix = Some(now);
    }

    pub fn webhook_success(&mut self, now: u64)
        ensures
            final(self).state == (HealthSnapshot {
                webhook_last_success_unix: Some(now),
                webhook_error: None,
                ..old(self).state
            }),
            final(self).state.gate() == gate_after(old(self).state.gate(), Occurrence::Delivered),
    {
        self.state.webhook_last_success_unix = Some(now);
        self.state.webhook_error = None;
    }

    pub fn webhook_failure(&mut self, error: String)
        requires
            old(self).state.webhook_failures < u64::MAX,
        ensures
            final(self).state == (HealthSnapshot {
                webhook_failures: (old(self).state.webhook_failures + 1) as u64,
                webhook_error: Some(error),
                ..old(self).state
            }),
            final(self).state.gate() == gate_after(
                old(self).state.gate(),
                Occurrence::DeliveryFailed,
            ),
    {
        self.state.webhook_failures += 1;
        self.state.webhook_error = Some(error);
    }

    pub fn probe_result(&mut self, result: Result<(), String>, now: u64)
        ensures
            match result {
                Ok(()) => final(self).state == (HealthSnapshot {
                    probe_ok: true,
                    probe_last_success_unix: Some(now),
                    probe_error: None,
                    ..old(self).state
                }),
                Err(e) => final(self).state == (HealthSnapshot {
                    probe_ok: false,
                    probe_error: Some(e),
                    ..old(self).state
                }),
            },
            final(self).state.gate() == gate_after(
                old(self).state.gate(),
                if result is Ok {
                    Occurrence::ProbePassed
                } else {
                    Occurrence::ProbeFailed
                },
            ),
    {
        match result {
            Ok(()) => {
                self.state.probe_ok = true;
                self.state.probe_last_success_unix = Some(now);
                self.state.probe_error = None;
            },
            Err(e) => {
                self.state.probe_ok = false;
                self.state.probe_error = Some(e);
            },
        }
    }

    /// Record what became of an alert on its way to the webhook worker. Where
    /// the worker is wedged or the queue is full the daemon does not crash
    /// (repeated `active` notifications will re-raise), but a lost alert must
    /// latch `/readyz` unready: this is a delivery failure.
    pub fn alert_queued(&mut self, queued: bool, now: u64)
        requires
            queued ==> old(self).state.alerts_sent < u64::MAX,
            !queued ==> old(self).state.dropped_events < u64::MAX,
            !queued ==> old(self).state.webhook_failures < u64::MAX,
        ensures
            queued ==> final(self).state == (HealthSnapshot {
                alerts_sent: (old(self).state.alerts_sent + 1) as u64,
                last_alert_unix: Some(now),
                ..old(self).state
            }),
            !queued ==> final(self).state == (HealthSnapshot {
                dropped_events: (old(self).state.dropped_events + 1) as u64,
                webhook_failures: (old(self).state.webhook_failures + 1) as u64,
                webhook_error: final(self).state.webhook_error,
                ..old(self).state
            }) && (final(self).state.webhook_error matches Some(e) && e@ == QUEUE_UNAVAILABLE@),
            final(self).state.gate() == gate_after(
                old(self).state.gate(),
                if queued {
                    Occurrence::Counted
                } else {
                    Occurrence::DeliveryFailed
                },
            ),
    {
        if queued {
            self.alert_sent(now);
        } else {
            self.dropped_event();
            self.webhook_failure(QUEUE_UNAVAILABLE.to_owned());
        }
    }

    /// Record what became of a delivery.
    pub fn delivery_finished(&mut self, result: Result<(), String>, now: u64)
        requires
            result is Err ==> old(self).state.webhook_failures < u64::MAX,
        ensures
            match result {
                Ok(()) => final(self).state == (HealthSnapshot {
                    webhook_last_success_unix: Some(now),
                    webhook_error: None,
                    ..old(self).state
                }),
                Err(e) => final(self).state == (HealthSnapshot {
                    webhook_failures: (old(self).state.webhook_failures + 1) as u64,
                    webhook_error: Some(e),
                    ..old(self).state
                }),
            },
            final(self).state.gate() == gate_after(
                old(self).state.gate(),
                if result is Ok {
                    Occurrence::Delivered
                } else {
                    Occurrence::DeliveryFailed
                },
            ),
    {
        match result {
            Ok(()) => self.webhook_success(now),
            Err(message) => self.webhook_failure(message),
        }
    }
}

/// A failed delivery latches unreadiness until a later delivery succeeds,
/// whatever else happens.
pub proof fn lemma_failed_delivery_latches(g: Gate, run: Seq<Occurrence>)
    requires
        g.delivery_failed,
        forall|i: int| 0 <= i < run.len() ==> !(#[trigger] run[i] is Delivered),
    ensures
        gate_after_all(g, run).delivery_failed,
        !is_open(gate_after_all(g, run)),
    decreases run.len(),
{
    if run.len() > 0 {
        assert(!(run[run.len() - 1] is Delivered));
        assert forall|i: int| 0 <= i < run.drop_last().len() implies !(
        #[trigger] run.drop_last()[i] is Delivered) by {
            assert(!(run[i] is Delivered));
        }
        lemma_failed_delivery_latches(g, run.drop_last());
    }
}

/// A delivery that succeeds clears the latch: the bridge is then ready exactly
/// where the camera is connected and the probe, if it is on, passes.
pub proof fn lemma_delivery_clears_the_latch(g: Gate)
    ensures
        is_open(gate_after(g, Occurrence::Delivered)) <==> g.camera_connected && (!g.probe_enabled
            || g.probe_ok),
{
}

/// With the probe on, the bridge is unready until a probe has passed; and in
/// any case until the camera has connected.
pub proof fn lemma_no_startup_optimism(g: Gate, run: Seq<Occurrence>)
    requires
        !g.camera_connected,
        !g.probe_ok,
    ensures
        (forall|i: int| 0 <= i < run.len() ==> !(#[trigger] run[i] is CameraConnected))
            ==> !is_open(gate_after_all(g, run)),
        g.probe_enabled && (forall|i: int|
            0 <= i < run.len() ==> !(#[trigger] run[i] is ProbePassed)) ==> !is_open(
            gate_after_all(g, run),
        ),
{
    if forall|i: int| 0 <= i < run.len() ==> !(#[trigger] run[i] is CameraConnected) {
        lemma_stays_disconnected(g, run);
    }
    if forall|i: int| 0 <= i < run.len() ==> !(#[trigger] run[i] is ProbePassed) {
        lemma_stays_unprobed(g, run);
    }
}

proof fn lemma_stays_disconnected(g: Gate, run: Seq<Occurrence>)
    requires
        !g.camera_connected,
        forall|i: int| 0 <= i < run.len() ==> !(#[trigger] run[i] is CameraConnected),
    ensures
        !gate_after_all(g, run).camera_connected,
    decreases run.len(),
{
    if run.len() > 0 {
        assert(!(run[run.len() - 1] is CameraConnected));
        assert forall|i: int| 0 <= i < run.drop_last().len() implies !(
        #[trigger] run.drop_last()[i] is CameraConnected) by {
            assert(!(run[i] is CameraConnected));
        }
        lemma_stays_disconnected(g, run.drop_last());
    }
}

proof fn lemma_stays_unprobed(g: Gate, run: Seq<Occurrence>)
    requires
        !g.probe_ok,
        forall|i: int| 0 <= i < run.len() ==> !(#[trigger] run[i] is ProbePassed),
    ensures
        !gate_after_all(g, run).probe_ok,
        gate_after_all(g, run).probe_enabled == g.probe_enabled,
    decreases run.len(),
{
    if run.len() > 0 {
        assert(!(run[run.len() - 1] is ProbePassed));
        assert forall|i: int| 0 <= i < run.drop_last().len() implies !(
        #[trigger] run.drop_last()[i] is ProbePassed) by {
            assert(!(run[i] is ProbePassed));
        }
        lemma_stays_unprobed(g, run.drop_last());
    }
}

/// The bridge is ready exactly where the camera is connected, the probe passes
/// or is off, and no delivery failure stands.
pub proof fn lemma_readiness_rule(s: HealthSnapshot)
    ensures
        is_open(s.gate()) <==> s.camera_connected && (s.probe_enabled ==> s.probe_ok)
            && s.webhook_error is None,
{
}

/// What each occurrence changes: the camera's coming and going, a delivery and
/// a probe each set their own condition, and nothing changes another.
pub proof fn lemma_occurrences_keep_apart(g: Gate, what: Occurrence)
    ensures
        ({
            let after = gate_after(g, what);
            &&& what is CameraConnected ==> after.camera_connected
            &&& what is CameraDisconnected ==> !after.camera_connected
            &&& !(what is CameraConnected) && !(what is CameraDisconnected)
                ==> after.camera_connected == g.camera_connected
            &&& what is Delivered ==> !after.delivery_failed
            &&& what is DeliveryFailed ==> after.delivery_failed
            &&& !(what is Delivered) && !(what is DeliveryFailed) ==> after.delivery_failed
                == g.delivery_failed
            &&& what is ProbePassed ==> after.probe_ok
            &&& what is ProbeFailed ==> !after.probe_ok
            &&& !(what is ProbePassed) && !(what is ProbeFailed) ==> after.probe_ok == g.probe_ok
            &&& after.probe_enabled == g.probe_enabled
        }),
{
}

/// A type already kept changes nothing; a new one comes last, after those kept
/// before, of which the oldest is gone where there were 64.
pub proof fn lemma_noted_types(kept: Seq<Seq<char>>, event_type: Seq<char>)
    ensures
        kept.contains(event_type) ==> noted(kept, event_type) == kept,
        !kept.contains(event_type) && kept.len() < 64 ==> noted(kept, event_type) == kept.push(
            event_type,
        ),
        !kept.contains(event_type) && kept.len() >= 64 ==> noted(kept, event_type) == kept.subrange(
            1,
            kept.len() as int,
        ).push(event_type),
{
}

} // verus!
