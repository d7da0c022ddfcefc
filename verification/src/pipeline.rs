//! From camera events to alarm requests: the fire matcher and the fire tracker
//! put together.

use vstd::prelude::*;

use crate::camera::owed;
use crate::camera::ItemView;
use crate::camera::StreamItem;
use crate::clock::elapsed;
use crate::clock::Instant;
use crate::config::normalised;
use crate::config::Config;
use crate::config::FireMatcher;
use crate::event::EventState;
use crate::event::EventView;
use crate::event::StateView;
use crate::state::accounted_for;
use crate::state::after_active;
use crate::state::after_inactive;
use crate::state::after_reset;
use crate::state::alert_due;
use crate::state::lemma_no_fire_is_silenced;
use crate::state::refreshed;
use crate::state::slot_reached;
use crate::state::state_reached;
use crate::state::Alert;
use crate::state::FireTracker;
use crate::state::SourceState;
use crate::state::Sources;
use crate::state::TrackerConfig;
use crate::text::lowered;
use crate::text::trimmed;

verus! {

/// An alert decision on its way to the webhook worker.
#[derive(Debug)]
pub struct AlarmRequest {
    pub source: String,
    pub alert: Alert,
}

/// The source of an event that names no channel.
pub const DEFAULT_SOURCE: &'static str = "default";

/// What an item of the camera stream came to.
#[derive(Debug)]
pub enum Outcome {
    /// The stream was lost; every source is armed again.
    Rearmed,
    /// The event type is not taken for fire. Never a silent drop: an operator
    /// whose camera emits an unexpected fire type must be able to see it.
    Unmatched { event_type: String },
    /// A fire is active at the source. Without an `eventState` it is taken for
    /// active: fail toward alert, never drop.
    Active { event_type: String, state_missing: bool, source: String, alert: Option<Alert> },
    /// The fire at the source is over.
    Inactive { source: String },
    /// The state means nothing; the event is ignored.
    UnknownState { source: String, state: String },
}

/// What an `Outcome` holds.
pub enum OutcomeView {
    Rearmed,
    Unmatched { event_type: Seq<char> },
    Active {
        event_type: Seq<char>,
        state_missing: bool,
        source: Seq<char>,
        alert: Option<Alert>,
    },
    Inactive { source: Seq<char> },
    UnknownState { source: Seq<char>, state: Seq<char> },
}

impl View for Outcome {
    type V = OutcomeView;

    open spec fn view(&self) -> OutcomeView {
        match *self {
            Outcome::Rearmed => OutcomeView::Rearmed,
            Outcome::Unmatched { event_type } => OutcomeView::Unmatched { event_type: event_type@ },
            Outcome::Active { event_type, state_missing, source, alert } => OutcomeView::Active {
                event_type: event_type@,
                state_missing,
                source: source@,
                alert,
            },
            Outcome::Inactive { source } => OutcomeView::Inactive { source: source@ },
            Outcome::UnknownState { source, state } => OutcomeView::UnknownState {
                source: source@,
                state: state@,
            },
        }
    }
}

pub open spec fn source_of(event: EventView) -> Seq<char> {
    match event.channel {
        Some(channel) => channel,
        None => DEFAULT_SOURCE@,
    }
}

/// The event type is one of those taken for fire.
pub open spec fn is_fire(types: Seq<Seq<char>>, event: EventView) -> bool {
    types.contains(normalised(event.event_type))
}

/// The sources after an item.
pub open spec fn sources_after(
    m: Sources,
    cfg: TrackerConfig,
    types: Seq<Seq<char>>,
    item: ItemView,
    now: Instant,
) -> Sources {
    match item {
        ItemView::Reset => after_reset(m),
        ItemView::Event(event) => if !is_fire(types, event) {
            m
        } else {
            match event.state {
                StateView::Active | StateView::Missing => after_active(
                    m,
                    cfg,
                    source_of(event),
                    now,
                ),
                StateView::Inactive => after_inactive(m, source_of(event)),
                StateView::Unknown(_) => m,
            }
        },
    }
}

/// What an item comes to.
pub open spec fn outcome_of(
    m: Sources,
    cfg: TrackerConfig,
    types: Seq<Seq<char>>,
    item: ItemView,
    now: Instant,
) -> OutcomeView {
    match item {
        ItemView::Reset => OutcomeView::Rearmed,
        ItemView::Event(event) => if !is_fire(types, event) {
            OutcomeView::Unmatched { event_type: event.event_type }
        } else {
            match event.state {
                StateView::Active | StateView::Missing => OutcomeView::Active {
                    event_type: event.event_type,
                    state_missing: event.state is Missing,
                    source: source_of(event),
                    alert: alert_due(state_reached(m, cfg, source_of(event), now), cfg, now),
                },
                StateView::Inactive => OutcomeView::Inactive { source: source_of(event) },
                StateView::Unknown(state) => OutcomeView::UnknownState {
                    source: source_of(event),
                    state,
                },
            }
        },
    }
}

/// Applies the fire state machine to the camera event stream.
pub struct Processor {
    matcher: FireMatcher,
    tracker: FireTracker,
}

impl Processor {
    pub closed spec fn sources(&self) -> Sources {
        self.tracker@
    }

    pub closed spec fn config(&self) -> TrackerConfig {
        self.tracker.config()
    }

    pub closed spec fn types(&self) -> Seq<Seq<char>> {
        self.matcher@
    }

    pub closed spec fn wf(&self) -> bool {
        self.tracker.wf()
    }

    pub fn new(matcher: FireMatcher, cfg: TrackerConfig) -> (p: Self)
        ensures
            p.wf(),
            p.sources() == Map::<Seq<char>, SourceState>::empty(),
            p.config() == cfg,
            p.types() == matcher@,
    {
        Processor { matcher, tracker: FireTracker::new(cfg) }
    }

    /// Handle one item of the camera stream.
    pub fn handle(&mut self, item: StreamItem, now: Instant) -> (outcome: Outcome)
        requires
            old(self).wf(),
        ensures
            final(self).wf(),
            final(self).config() == old(self).config(),
            final(self).types() == old(self).types(),
            final(self).sources() == sources_after(
                old(self).sources(),
                old(self).config(),
                old(self).types(),
                item@,
                now,
            ),
            outcome@ == outcome_of(
                old(self).sources(),
                old(self).config(),
                old(self).types(),
                item@,
                now,
            ),
            match item {
                StreamItem::Reset => {
                    &&& outcome is Rearmed
                    &&& final(self).sources().dom() == old(self).sources().dom()
                    &&& forall|slot: Seq<char>|
                        old(self).sources().contains_key(slot) ==> {
                            let (before, after) = (
                                old(self).sources()[slot],
                                #[trigger] final(self).sources()[slot],
                            );
                            &&& !after.active
                            &&& after.last_active_msg is None
                            &&& after.last_alert == before.last_alert
                            &&& after.pending_edge == before.pending_edge
                        }
                },
                StreamItem::Event(event) => {
                    let fire = old(self).types().contains(lowered(trimmed(event.event_type@)));
                    let at = match event.channel {
                        Some(channel) => channel@,
                        None => "default"@,
                    };
                    &&& !fire ==> (outcome matches Outcome::Unmatched { event_type } && event_type@
                        == event.event_type@) && final(self).sources() == old(self).sources()
                    &&& fire && (event.state is Active || event.state is Missing) ==> {
                        &&& outcome matches Outcome::Active {
                            event_type,
                            state_missing,
                            source,
                            alert,
                        }
                        &&& event_type@ == event.event_type@
                        &&& state_missing == (event.state is Missing)
                        &&& source@ == at
                        &&& !old(self).sources().contains_key(at) && old(self).sources().len()
                            < 1024 ==> alert == Some(Alert::NewFire)
                        &&& alert == alert_due(
                            state_reached(old(self).sources(), old(self).config(), at, now),
                            old(self).config(),
                            now,
                        )
                        &&& final(self).sources() == after_active(
                            old(self).sources(),
                            old(self).config(),
                            at,
                            now,
                        )
                    }
                    &&& fire && event.state is Inactive ==> {
                        &&& outcome matches Outcome::Inactive { source }
                        &&& source@ == at
                        &&& final(self).sources() == after_inactive(old(self).sources(), at)
                    }
                    &&& fire && event.state is Unknown ==> {
                        &&& outcome matches Outcome::UnknownState { source, state }
                        &&& source@ == at
                        &&& event.state == EventState::Unknown(state)
                        &&& final(self).sources() == old(self).sources()
                    }
                },
            },
    {
        let event = match item {
            StreamItem::Reset => {
                self.tracker.on_stream_reset();
                return Outcome::Rearmed;
            },
            StreamItem::Event(event) => event,
        };
        if !self.matcher.matches(event.event_type.as_str()) {
            return Outcome::Unmatched { event_type: event.event_type };
        }
        let source = match event.channel {
            Some(channel) => channel,
            None => DEFAULT_SOURCE.to_owned(),
        };
        match event.state {
            EventState::Active => {
                let alert = self.tracker.on_active(source.as_str(), now);
                Outcome::Active {
                    event_type: event.event_type,
                    state_missing: false,
                    source,
                    alert,
                }
            },
            EventState::Missing => {
                let alert = self.tracker.on_active(source.as_str(), now);
                Outcome::Active {
                    event_type: event.event_type,
                    state_missing: true,
                    source,
                    alert,
                }
            },
            EventState::Inactive => {
                self.tracker.on_inactive(source.as_str());
                Outcome::Inactive { source }
            },
            EventState::Unknown(state) => Outcome::UnknownState { source, state },
        }
    }
}

/// How the tracker is set up from a configuration.
pub fn tracker_config(cfg: &Config) -> (t: TrackerConfig)
    ensures
        t.cooldown == cfg.cooldown,
        t.realert == cfg.realert,
        t.active_ttl == cfg.active_ttl,
{
    TrackerConfig { cooldown: cfg.cooldown, realert: cfg.realert, active_ttl: cfg.active_ttl }
}

/// An event that is not taken for fire never raises an alert and leaves every
/// source as it was.
pub proof fn lemma_other_events_never_trigger(
    m: Sources,
    cfg: TrackerConfig,
    types: Seq<Seq<char>>,
    event: EventView,
    now: Instant,
)
    requires
        !is_fire(types, event),
    ensures
        sources_after(m, cfg, types, ItemView::Event(event), now) == m,
        outcome_of(m, cfg, types, ItemView::Event(event), now) == (OutcomeView::Unmatched {
            event_type: event.event_type,
        }),
{
}

/// A fire event without a state raises the alert that an active one would.
pub proof fn lemma_missing_state_fails_toward_alert(
    m: Sources,
    cfg: TrackerConfig,
    types: Seq<Seq<char>>,
    event: EventView,
    now: Instant,
)
    requires
        is_fire(types, event),
        event.state is Missing,
    ensures
        ({
            let active = EventView { state: StateView::Active, ..event };
            &&& sources_after(m, cfg, types, ItemView::Event(event), now) == sources_after(
                m,
                cfg,
                types,
                ItemView::Event(active),
                now,
            )
            &&& outcome_of(m, cfg, types, ItemView::Event(event), now)->Active_alert == outcome_of(
                m,
                cfg,
                types,
                ItemView::Event(active),
                now,
            )->Active_alert
        }),
{
}

/// A fire is not missed: an active fire event raises an alert, unless its slot
/// alerted within the cooldown, and then the edge waits there; or the fire was
/// reported and goes on, and it is not time to report it again.
pub proof fn lemma_fire_is_not_missed(
    m: Sources,
    cfg: TrackerConfig,
    types: Seq<Seq<char>>,
    event: EventView,
    now: Instant,
)
    requires
        is_fire(types, event),
        event.state is Active || event.state is Missing,
        accounted_for(m),
        outcome_of(m, cfg, types, ItemView::Event(event), now)->Active_alert is None,
    ensures
        ({
            let slot = slot_reached(m, cfg, source_of(event), now);
            let before = state_reached(m, cfg, source_of(event), now);
            let after = sources_after(m, cfg, types, ItemView::Event(event), now);
            &&& after.contains_key(slot)
            &&& before.last_alert matches Some(t) && {
                ||| elapsed(now, t) < cfg.cooldown.nanos && after[slot].pending_edge
                ||| before.active && refreshed(before, now, cfg.active_ttl) && (
                cfg.realert matches Some(interval) ==> elapsed(now, t)
                    < interval.nanos)
            }
        }),
{
    let before = state_reached(m, cfg, source_of(event), now);
    lemma_no_fire_is_silenced(before, cfg, now);
}

/// The first fire event of a source raises an alert at once.
pub proof fn lemma_first_fire_alerts(
    cfg: TrackerConfig,
    types: Seq<Seq<char>>,
    event: EventView,
    now: Instant,
)
    requires
        is_fire(types, event),
        event.state is Active || event.state is Missing,
    ensures
        outcome_of(Map::empty(), cfg, types, ItemView::Event(event), now)->Active_alert == Some(
            Alert::NewFire,
        ),
{
}

/// An item of the stream, and when it arrives.
pub struct Arrival {
    pub item: ItemView,
    pub now: Instant,
}

/// The sources after a run of items.
pub open spec fn sources_after_all(
    m: Sources,
    cfg: TrackerConfig,
    types: Seq<Seq<char>>,
    run: Seq<Arrival>,
) -> Sources
    decreases run.len(),
{
    if run.len() == 0 {
        m
    } else {
        let last = run.last();
        sources_after(
            sources_after_all(m, cfg, types, run.drop_last()),
            cfg,
            types,
            last.item,
            last.now,
        )
    }
}

/// Every session end re-arms the tracker: whatever a session brought, once
/// what is owed for its end has arrived no source is latched active, none is
/// forgotten, and no pending edge or past alert either.
pub proof fn lemma_session_end_rearms(
    m: Sources,
    cfg: TrackerConfig,
    types: Seq<Seq<char>>,
    session: Seq<Arrival>,
    end: Instant,
    slot: Seq<char>,
)
    requires
        sources_after_all(m, cfg, types, session).contains_key(slot),
    ensures
        owed(false) is Some,
        ({
            let before = sources_after_all(m, cfg, types, session);
            let after = sources_after_all(
                m,
                cfg,
                types,
                session.push(Arrival { item: owed(false)->0, now: end }),
            );
            &&& after.dom() == before.dom()
            &&& after[slot] == (SourceState {
                active: false,
                last_active_msg: None,
                ..before[slot]
            })
        }),
{
    let run = session.push(Arrival { item: owed(false)->0, now: end });
    assert(run.drop_last() =~= session);
    let before = sources_after_all(m, cfg, types, session);
    assert(after_reset(before).dom() =~= before.dom());
}

/// What an event comes to, by its type, its state and its channel: only a type
/// that is listed, letter case and surrounding white space aside, counts; it is
/// taken for a fire that goes on where the state is active or missing, for one
/// that is over where it is inactive, and for nothing where it is unknown; and
/// it is put to the account of its channel, or of `default` where it names
/// none.
pub proof fn lemma_event_by_type_and_state(
    m: Sources,
    cfg: TrackerConfig,
    types: Seq<Seq<char>>,
    event: EventView,
    now: Instant,
)
    ensures
        ({
            let listed = types.contains(lowered(trimmed(event.event_type)));
            let at = match event.channel {
                Some(channel) => channel,
                None => "default"@,
            };
            let item = ItemView::Event(event);
            let outcome = outcome_of(m, cfg, types, item, now);
            let after = sources_after(m, cfg, types, item, now);
            &&& !listed ==> outcome == (OutcomeView::Unmatched { event_type: event.event_type })
                && after == m
            &&& listed && (event.state is Active || event.state is Missing) ==> outcome == (
            OutcomeView::Active {
                event_type: event.event_type,
                state_missing: event.state is Missing,
                source: at,
                alert: alert_due(state_reached(m, cfg, at, now), cfg, now),
            }) && after == after_active(m, cfg, at, now)
            &&& listed && event.state is Inactive ==> outcome == (OutcomeView::Inactive {
                source: at,
            }) && after == after_inactive(m, at)
            &&& listed && event.state is Unknown ==> outcome == (OutcomeView::UnknownState {
                source: at,
                state: event.state->Unknown_0,
            }) && after == m
        }),
        outcome_of(m, cfg, types, ItemView::Reset, now) == OutcomeView::Rearmed,
        sources_after(m, cfg, types, ItemView::Reset, now) == after_reset(m),
{
}

/// What is owed for the end of a session is a reset, except while the bridge
/// shuts down.
pub proof fn lemma_reset_is_owed(cancelled: bool)
    ensures
        cancelled ==> owed(cancelled) is None,
        !cancelled ==> owed(cancelled) == Some(ItemView::Reset),
{
}

} // verus!
