//! Long-lived Hikvision ISAPI alert-stream consumer.
//!
//! A supervisor maintains one Digest-authenticated streaming GET at a time,
//! reconnecting with exponential backoff. The backoff resets after a session
//! that stayed healthy, so a camera that closes the stream periodically does
//! not ratchet up to maximum-length reconnect gaps forever.
//!
//! Every session end, clean or not, emits `StreamItem::Reset` so the fire
//! tracker knows `inactive` notifications may have been lost in the gap.
//!
//! The connection itself is held outside; this module turns its bytes into
//! events and decides how long to wait before the next session.

use vstd::arithmetic::power2::lemma_pow2_pos;
use vstd::arithmetic::power2::lemma_pow2_unfold;
use vstd::arithmetic::power2::pow2;
use vstd::prelude::*;

use crate::clock::Duration;
use crate::clock::NANOS_PER_SEC;
use crate::config::Config;
use crate::event::event_in;
use crate::event::optional_event;
use crate::event::parse_event;
use crate::event::CameraEvent;
use crate::event::EventView;
use crate::framing::drained;
use crate::framing::frames_of;
use crate::framing::ingested;
use crate::framing::overflow_text;
use crate::framing::BufferOverflow;
use crate::framing::FrameExtractor;
use crate::framing::SLICE;
use crate::status::is_status;
use crate::status::is_success;
use crate::status::is_success_status;
use crate::status::status_display;
use crate::status::status_text;
use crate::text::decimal;
use crate::text::decimal_text;
use crate::text::lemma_first_occurrence_is_replaced;
use crate::text::lemma_nothing_to_replace;
use crate::text::lemma_replaced_is_gone;
use crate::text::occurs;
use crate::text::occurs_at;
use crate::text::replace;
use crate::text::replaced;
use crate::weburl::UrlView;
use crate::xml::xml_steps;

verus! {

/// Pending buffer safety limit; a single event document is a few KiB.
pub const MAX_BUFFER: usize = 1_048_576;

/// A session that lived at least this many seconds resets the reconnect
/// backoff.
pub const HEALTHY_SESSION_SECS: u64 = 60;

#[derive(Debug)]
pub enum StreamItem {
    Event(CameraEvent),
    /// The stream ended or reconnected; per-source state must be re-armed.
    Reset,
}

/// What a `StreamItem` holds.
pub enum ItemView {
    Event(EventView),
    Reset,
}

impl View for StreamItem {
    type V = ItemView;

    open spec fn view(&self) -> ItemView {
        match *self {
            StreamItem::Event(event) => ItemView::Event(event@),
            StreamItem::Reset => ItemView::Reset,
        }
    }
}

/// What a frame of the stream turned out to be.
#[derive(Debug)]
pub enum Frame {
    Event(CameraEvent),
    /// An XML document without event fields.
    NotAnEvent,
    /// XML that cannot be read, with the error.
    Malformed(String),
}

/// What a `Frame` holds.
pub enum FrameView {
    Event(EventView),
    NotAnEvent,
    Malformed(Seq<char>),
}

impl View for Frame {
    type V = FrameView;

    open spec fn view(&self) -> FrameView {
        match *self {
            Frame::Event(event) => FrameView::Event(event@),
            Frame::NotAnEvent => FrameView::NotAnEvent,
            Frame::Malformed(e) => FrameView::Malformed(e@),
        }
    }
}

/// What the reading of a frame makes it.
pub open spec fn frame_read(read: Result<Option<EventView>, Seq<char>>) -> FrameView {
    match read {
        Ok(Some(event)) => FrameView::Event(event),
        Ok(None) => FrameView::NotAnEvent,
        Err(e) => FrameView::Malformed(e),
    }
}

/// What the bytes of a frame turn out to be.
pub open spec fn frame_in(bytes: Seq<u8>) -> FrameView {
    frame_read(event_in(xml_steps(bytes)))
}

impl Frame {
    /// Sort a frame by the reading of it.
    pub fn from_reading(read: Result<Option<CameraEvent>, String>) -> (frame: Self)
        ensures
            frame@ == frame_read(
                match read {
                    Ok(event) => Ok(optional_event(event)),
                    Err(e) => Err(e@),
                },
            ),
            read matches Ok(Some(event)) ==> frame == Frame::Event(event),
            read matches Ok(None) ==> frame == Frame::NotAnEvent,
            read matches Err(e) ==> frame == Frame::Malformed(e),
    {
        match read {
            Ok(Some(event)) => Frame::Event(event),
            Ok(None) => Frame::NotAnEvent,
            Err(e) => Frame::Malformed(e),
        }
    }
}

pub open spec fn frames_view(frames: Seq<Frame>) -> Seq<FrameView> {
    frames.map_values(|f: Frame| f@)
}

/// One connection's worth of stream.
pub struct Session {
    extractor: FrameExtractor,
}

impl Session {
    /// The bytes kept until the document they belong to is complete.
    pub closed spec fn bytes(&self) -> Seq<u8> {
        self.extractor.bytes()
    }

    /// The bytes kept are within the safety limit.
    pub closed spec fn wf(&self) -> bool {
        &&& self.extractor.wf()
        &&& self.extractor.limit() == MAX_BUFFER
        &&& self.extractor.bytes().len() <= MAX_BUFFER
    }

    pub fn new() -> (s: Self)
        ensures
            s.wf(),
            s.bytes() == Seq::<u8>::empty(),
    {
        Session { extractor: FrameExtractor::new(MAX_BUFFER) }
    }

    /// Take a chunk of the stream and return the frames that it completes, in
    /// order. A buffer overflow ends the session.
    pub fn on_chunk(&mut self, chunk: &[u8]) -> (r: Result<Vec<Frame>, BufferOverflow>)
        requires
            old(self).wf(),
        ensures
            r is Ok ==> final(self).wf(),
            final(self).bytes() == ingested(old(self).bytes(), chunk@, MAX_BUFFER as int).1,
            match r {
                Ok(frames) => {
                    let documents = ingested(old(self).bytes(), chunk@, MAX_BUFFER as int).0;
                    &&& documents is Ok
                    &&& frames_view(frames@) == documents->Ok_0.map_values(
                        |d: Seq<u8>| frame_in(d),
                    )
                    &&& (documents->Ok_0, final(self).bytes()) == drained(
                        old(self).bytes() + chunk@,
                    )
                },
                Err(e) => ingested(old(self).bytes(), chunk@, MAX_BUFFER as int).0 == Err::<
                    Seq<Seq<u8>>,
                    int,
                >(e.buffered as int) && e.max == MAX_BUFFER && MAX_BUFFER < e.buffered
                    <= MAX_BUFFER + SLICE,
            },
            match r {
                Ok(frames) => {
                    let documents = drained(old(self).bytes() + chunk@).0;
                    &&& final(self).bytes() == drained(old(self).bytes() + chunk@).1
                    &&& final(self).bytes().len() <= 1_048_576
                    &&& frames@.len() == documents.len()
                    &&& forall|i: int|
                        0 <= i < frames@.len() ==> match event_in(xml_steps(documents[i])) {
                            Ok(Some(event)) => (#[trigger] frames@[i] matches Frame::Event(e)
                                && e@ == event),
                            Ok(None) => frames@[i] is NotAnEvent,
                            Err(m) => (frames@[i] matches Frame::Malformed(e) && e@ == m),
                        }
                },
                Err(e) => e.max == 1_048_576 && 1_048_576 < e.buffered <= 1_114_112,
            },
    {
        let documents = match self.extractor.push(chunk) {
            Ok(documents) => documents,
            Err(e) => return Err(e),
        };
        let mut frames: Vec<Frame> = Vec::new();
        let mut i: usize = 0;
        let ghost bytes = frames_of(documents@);
        let ghost read = bytes.map_values(|d: Seq<u8>| frame_in(d));
        while i < documents.len()
            invariant
                i <= documents@.len(),
                bytes == frames_of(documents@),
                read == bytes.map_values(|d: Seq<u8>| frame_in(d)),
                frames_view(frames@) == read.take(i as int),
                frames@.len() == i,
                forall|k: int|
                    0 <= k < i ==> match event_in(xml_steps(documents@[k]@)) {
                        Ok(Some(event)) => (#[trigger] frames@[k] matches Frame::Event(e) && e@
                            == event),
                        Ok(None) => frames@[k] is NotAnEvent,
                        Err(m) => (frames@[k] matches Frame::Malformed(e) && e@ == m),
                    },
            decreases documents@.len() - i,
        {
            let ghost before = frames@;
            let reading = parse_event(documents[i].as_slice());
            let ghost given = reading;
            let frame = Frame::from_reading(reading);
            assert(match event_in(xml_steps(documents@[i as int]@)) {
                Ok(Some(event)) => given matches Ok(Some(e)) && e@ == event,
                Ok(None) => given matches Ok(None),
                Err(m) => given matches Err(e) && e@ == m,
            });
            assert(frame@ == frame_in(documents@[i as int]@));
            assert(bytes[i as int] == documents@[i as int]@);
            frames.push(frame);
            i += 1;
            assert(frames_view(frames@) =~= frames_view(before).push(frame@));
            assert(read.take(i as int) =~= read.take(i - 1).push(read[i - 1]));
        }
        assert(read.take(i as int) =~= read);
        assert(forall|k: int| 0 <= k < documents@.len() ==> bytes[k] == #[trigger] documents@[k]@);
        Ok(frames)
    }
}

/// What the connection brought.
#[derive(Debug)]
pub enum StreamRead<'a> {
    Chunk(&'a [u8]),
    /// The camera closed the stream.
    Ended,
    /// The connection failed, with the error.
    Failed(String),
    /// Nothing came for the longest silence allowed.
    Silent,
}

/// What to do about it.
#[derive(Debug)]
pub enum SessionStep {
    /// Forward the events, count the malformed frames, and read on.
    Frames(Vec<Frame>),
    /// The session is over.
    Over(Result<(), String>),
}

impl Session {
    /// Take what the connection brought.
    pub fn on_read(&mut self, read: StreamRead<'_>, stream_idle: Duration) -> (step: SessionStep)
        requires
            old(self).wf(),
        ensures
            step is Frames ==> final(self).wf(),
            match read {
                StreamRead::Chunk(chunk) => {
                    let got = ingested(old(self).bytes(), chunk@, MAX_BUFFER as int);
                    &&& final(self).bytes() == got.1
                    &&& match got.0 {
                        Ok(documents) => step matches SessionStep::Frames(frames) && frames_view(
                            frames@,
                        ) == documents.map_values(|d: Seq<u8>| frame_in(d)),
                        Err(buffered) => step matches SessionStep::Over(r) && r is Err
                            && r->Err_0@ == overflow_text(buffered as nat, MAX_BUFFER as nat),
                    }
                },
                StreamRead::Ended => step matches SessionStep::Over(r) && r is Ok,
                StreamRead::Failed(e) => step matches SessionStep::Over(r) && r is Err
                    && r->Err_0@ == e@,
                StreamRead::Silent => step matches SessionStep::Over(r) && r is Err && r->Err_0@
                    == idle_text(stream_idle),
            },
            step is Frames ==> read is Chunk,
            step matches SessionStep::Frames(frames) ==> {
                let documents = drained(old(self).bytes() + read->Chunk_0@).0;
                &&& frames@.len() == documents.len()
                &&& forall|i: int|
                    0 <= i < frames@.len() ==> match event_in(xml_steps(documents[i])) {
                        Ok(Some(event)) => (#[trigger] frames@[i] matches Frame::Event(e) && e@
                            == event),
                        Ok(None) => frames@[i] is NotAnEvent,
                        Err(m) => (frames@[i] matches Frame::Malformed(e) && e@ == m),
                    }
            },
            !(read is Chunk) ==> final(self).bytes() == old(self).bytes(),
    {
        match read {
            StreamRead::Chunk(chunk) => match self.on_chunk(chunk) {
                Ok(frames) => SessionStep::Frames(frames),
                Err(e) => SessionStep::Over(Err(e.message())),
            },
            StreamRead::Ended => SessionStep::Over(Ok(())),
            StreamRead::Failed(e) => SessionStep::Over(Err(e)),
            StreamRead::Silent => SessionStep::Over(Err(idle_message(stream_idle))),
        }
    }
}

/// Accept a response to the stream request, or say what the camera returned.
pub fn check_camera_status(code: u16) -> (r: Result<(), String>)
    requires
        is_status(code),
    ensures
        match r {
            Ok(()) => is_success(code),
            Err(e) => !is_success(code) && e@ == "camera returned "@ + status_display(code),
        },
        r is Ok <==> 200 <= code <= 299,
{
    if is_success_status(code) {
        return Ok(());
    }
    let mut message = "camera returned ".to_owned();
    message.append(status_text(code).as_str());
    Err(message)
}

/// What is said of a stream that went silent.
pub open spec fn idle_text(stream_idle: Duration) -> Seq<char> {
    "camera stream idle for more than "@ + decimal((stream_idle.nanos / NANOS_PER_SEC) as nat)
        + "s"@
}

pub fn idle_message(stream_idle: Duration) -> (out: String)
    ensures
        out@ == idle_text(stream_idle),
        out@ == "camera stream idle for more than "@ + decimal(
            (stream_idle.nanos as nat / 1_000_000_000),
        ) + "s"@,
{
    let mut out = "camera stream idle for more than ".to_owned();
    out.append(decimal_text(stream_idle.as_secs()).as_str());
    out.append("s");
    out
}

/// `message` with the camera's URL and host replaced by placeholders.
pub open spec fn redacted(message: Seq<char>, camera: UrlView) -> Seq<char> {
    let out = replaced(message, camera.text, "<camera>"@);
    match camera.host_text {
        Some(host) => replaced(out, host, "<camera-host>"@),
        None => out,
    }
}

/// Replace the camera URL and host with placeholders in an error string.
pub fn redact(message: &str, cfg: &Config) -> (out: String)
    ensures
        out@ == redacted(message@, cfg.hik_url@),
        cfg.hik_url@.host_text matches Some(host) ==> out@ == replaced(
            replaced(message@, cfg.hik_url@.text, "<camera>"@),
            host,
            "<camera-host>"@,
        ),
        cfg.hik_url@.host_text is None ==> out@ == replaced(
            message@,
            cfg.hik_url@.text,
            "<camera>"@,
        ),
{
    let out = replace(message, cfg.hik_url.as_str(), "<camera>");
    match &cfg.hik_url.host_text {
        Some(host) => replace(out.as_str(), host.as_str(), "<camera-host>"),
        None => out,
    }
}

/// A redacted message does not tell the camera's address: it holds neither the
/// host nor any text that the host is part of, such as the URL. This leaves
/// out hosts that the placeholder itself holds, and hosts with angle brackets,
/// which no URL has.
pub proof fn lemma_redaction_hides_the_camera(
    message: Seq<char>,
    camera: UrlView,
    longer: Seq<char>,
)
    requires
        camera.host_text is Some,
        camera.host_text->0.len() > 0,
        !camera.host_text->0.contains('<'),
        !camera.host_text->0.contains('>'),
        !occurs("<camera-host>"@, camera.host_text->0),
        occurs(longer, camera.host_text->0),
    ensures
        !occurs(redacted(message, camera), camera.host_text->0),
        !occurs(redacted(message, camera), longer),
{
    let host = camera.host_text->0;
    let out = redacted(message, camera);
    reveal_strlit("<camera-host>");
    lemma_replaced_is_gone(
        replaced(message, camera.text, "<camera>"@),
        host,
        "<camera-host>"@,
    );
    if occurs(out, longer) {
        let i = choose|i: int| occurs_at(out, longer, i);
        let j = choose|j: int| occurs_at(longer, host, j);
        assert(out.subrange(i, i + longer.len()) == longer);
        assert(out.subrange(i + j, i + j + host.len()) =~= longer.subrange(j, j + host.len()));
        assert(occurs_at(out, host, i + j));
    }
}

/// How long to wait between sessions.
pub struct Backoff {
    initial: Duration,
    max: Duration,
    delay: Duration,
}

/// What a `Backoff` holds, in nanoseconds.
pub struct BackoffView {
    pub initial: int,
    pub max: int,
    pub delay: int,
}

impl View for Backoff {
    type V = BackoffView;

    closed spec fn view(&self) -> BackoffView {
        BackoffView {
            initial: self.initial.nanos as int,
            max: self.max.nanos as int,
            delay: self.delay.nanos as int,
        }
    }
}

pub open spec fn smaller(a: int, b: int) -> int {
    if a <= b {
        a
    } else {
        b
    }
}

/// The wait after a session that lived so many nanoseconds.
pub open spec fn wait_after(b: BackoffView, lived: int) -> int {
    if lived >= Duration::of_secs(HEALTHY_SESSION_SECS as nat) {
        b.initial
    } else {
        b.delay
    }
}

/// The backoff after a session that lived so many nanoseconds: the next wait
/// is twice as long, up to the maximum.
pub open spec fn backoff_after(b: BackoffView, lived: int) -> BackoffView {
    BackoffView { delay: smaller(2 * wait_after(b, lived), b.max), ..b }
}

impl Backoff {
    pub fn new(initial: Duration, max: Duration) -> (b: Self)
        ensures
            b@ == (BackoffView {
                initial: initial.nanos as int,
                max: max.nanos as int,
                delay: initial.nanos as int,
            }),
    {
        Backoff { initial, max, delay: initial }
    }

    /// A session has ended after `lived`; how long to wait before the next.
    pub fn session_ended(&mut self, lived: Duration) -> (wait: Duration)
        ensures
            wait.nanos == wait_after(old(self)@, lived.nanos as int),
            final(self)@ == backoff_after(old(self)@, lived.nanos as int),
            lived.nanos >= 60_000_000_000 ==> wait.nanos == old(self)@.initial,
            lived.nanos < 60_000_000_000 ==> wait.nanos == old(self)@.delay,
            2 * wait.nanos <= old(self)@.max ==> final(self)@.delay == 2 * wait.nanos,
            2 * wait.nanos > old(self)@.max ==> final(self)@.delay == old(self)@.max,
            final(self)@.initial == old(self)@.initial,
            final(self)@.max == old(self)@.max,
    {
        if lived.nanos >= Duration::from_secs(HEALTHY_SESSION_SECS).nanos {
            self.delay = self.initial;
        }
        let wait = self.delay;
        self.delay = if self.max.nanos <= wait.nanos || self.max.nanos - wait.nanos <= wait.nanos {
            self.max
        } else {
            Duration { nanos: wait.nanos + wait.nanos }
        };
        wait
    }
}

/// What a supervisor has gone through.
pub enum Mark {
    /// A session was begun.
    Session,
    /// The tracker was told to re-arm.
    Reset,
}

/// `n` sessions, each followed by one reset.
pub open spec fn rounds(n: nat) -> Seq<Mark>
    decreases n,
{
    if n == 0 {
        Seq::empty()
    } else {
        rounds((n - 1) as nat).push(Mark::Session).push(Mark::Reset)
    }
}

/// In a history of rounds every session is followed by one reset, and every
/// reset follows a session.
pub proof fn lemma_rounds_alternate(n: nat, i: int)
    requires
        0 <= i < rounds(n).len(),
    ensures
        rounds(n).len() == 2 * n,
        rounds(n)[i] == if i % 2 == 0 {
            Mark::Session
        } else {
            Mark::Reset
        },
    decreases n,
{
    let k = (n - 1) as nat;
    lemma_rounds_len(k);
    if i < rounds(k).len() {
        lemma_rounds_alternate(k, i);
    }
}

proof fn lemma_rounds_len(n: nat)
    ensures
        rounds(n).len() == 2 * n,
    decreases n,
{
    if n > 0 {
        lemma_rounds_len((n - 1) as nat);
    }
}

/// What is sent down the stream once a session has ended: the reset that is
/// owed for it, unless the bridge is shutting down.
pub open spec fn owed(cancelled: bool) -> Option<ItemView> {
    if cancelled {
        None
    } else {
        Some(ItemView::Reset)
    }
}

/// The supervisor between sessions. A session can only be begun from here, and
/// the way back leads through [`InSession::ended`] and [`Ended::rearm`].
pub struct Supervisor {
    backoff: Backoff,
    log: Ghost<Seq<Mark>>,
}

/// The supervisor during a session.
pub struct InSession {
    backoff: Backoff,
    log: Ghost<Seq<Mark>>,
}

/// The supervisor after a session, with the reset still owed.
pub struct Ended {
    backoff: Backoff,
    log: Ghost<Seq<Mark>>,
}

/// The supervisor once the reset is on its way.
pub struct Rearmed {
    backoff: Backoff,
    log: Ghost<Seq<Mark>>,
}

impl Supervisor {
    pub closed spec fn backoff(&self) -> BackoffView {
        self.backoff@
    }

    pub closed spec fn log(&self) -> Seq<Mark> {
        self.log@
    }

    /// Every session so far was followed by exactly one reset, before the next
    /// was begun.
    pub open spec fn wf(&self) -> bool {
        exists|n: nat| self.log() == #[trigger] rounds(n)
    }

    pub fn new(initial: Duration, max: Duration) -> (s: Self)
        ensures
            s.wf(),
            s.log() == Seq::<Mark>::empty(),
            s.backoff() == (BackoffView {
                initial: initial.nanos as int,
                max: max.nanos as int,
                delay: initial.nanos as int,
            }),
    {
        assert(rounds(0) == Seq::<Mark>::empty());
        Supervisor { backoff: Backoff::new(initial, max), log: Ghost(Seq::empty()) }
    }

    /// Begin a session, unless the bridge is shutting down.
    pub fn connect(self, cancelled: bool) -> (r: Option<InSession>)
        requires
            self.wf(),
        ensures
            r is None <==> cancelled,
            r matches Some(session) ==> {
                &&& session.wf()
                &&& session.log() == self.log().push(Mark::Session)
                &&& session.backoff() == self.backoff()
            },
    {
        if cancelled {
            None
        } else {
            let Supervisor { backoff, log } = self;
            Some(InSession { backoff, log: Ghost(log@.push(Mark::Session)) })
        }
    }
}

impl InSession {
    pub closed spec fn backoff(&self) -> BackoffView {
        self.backoff@
    }

    pub closed spec fn log(&self) -> Seq<Mark> {
        self.log@
    }

    /// Every session but the last was followed by exactly one reset.
    pub open spec fn wf(&self) -> bool {
        exists|n: nat| self.log() == (#[trigger] rounds(n)).push(Mark::Session)
    }

    /// The session has ended with `result`, clean or not. Gives what went
    /// wrong, fit for logs and `/status`: error chains embed the full request
    /// URL, so the camera's address is redacted.
    pub fn ended(self, cfg: &Config, result: Result<(), String>) -> (r: (Ended, Option<String>))
        requires
            self.wf(),
        ensures
            r.0.wf(),
            r.0.log() == self.log(),
            r.0.backoff() == self.backoff(),
            match result {
                Ok(()) => r.1 is None,
                Err(e) => r.1 matches Some(told) && told@ == redacted(e@, cfg.hik_url@),
            },
    {
        let error = match result {
            Ok(()) => None,
            Err(e) => Some(redact(e.as_str(), cfg)),
        };
        let InSession { backoff, log } = self;
        (Ended { backoff, log }, error)
    }
}

impl Ended {
    pub closed spec fn backoff(&self) -> BackoffView {
        self.backoff@
    }

    pub closed spec fn log(&self) -> Seq<Mark> {
        self.log@
    }

    /// Every session but the last was followed by exactly one reset.
    pub open spec fn wf(&self) -> bool {
        exists|n: nat| self.log() == (#[trigger] rounds(n)).push(Mark::Session)
    }

    /// Hand out the reset that is owed for the session, unless the bridge is
    /// shutting down: any gap can swallow an `inactive` notification.
    pub fn rearm(self, cancelled: bool) -> (r: Option<(StreamItem, Rearmed)>)
        requires
            self.wf(),
        ensures
            match r {
                None => owed(cancelled) is None,
                Some((item, next)) => {
                    &&& owed(cancelled) == Some(item@)
                    &&& next.wf()
                    &&& next.log() == self.log().push(Mark::Reset)
                    &&& next.backoff() == self.backoff()
                },
            },
            r is None <==> cancelled,
            r matches Some(next) ==> next.0 is Reset,
    {
        if cancelled {
            None
        } else {
            let Ended { backoff, log } = self;
            proof {
                let n = choose|n: nat| log@ == (#[trigger] rounds(n)).push(Mark::Session);
                assert(rounds(n + 1) == log@.push(Mark::Reset));
            }
            Some((StreamItem::Reset, Rearmed { backoff, log: Ghost(log@.push(Mark::Reset)) }))
        }
    }
}

impl Rearmed {
    pub closed spec fn backoff(&self) -> BackoffView {
        self.backoff@
    }

    pub closed spec fn log(&self) -> Seq<Mark> {
        self.log@
    }

    /// Every session so far was followed by exactly one reset, before the next
    /// was begun.
    pub open spec fn wf(&self) -> bool {
        exists|n: nat| self.log() == #[trigger] rounds(n)
    }

    /// The session lived for `lived`; how long to wait before the next.
    pub fn wait(self, lived: Duration) -> (r: (Duration, Supervisor))
        requires
            self.wf(),
        ensures
            r.0.nanos == wait_after(self.backoff(), lived.nanos as int),
            r.1.wf(),
            r.1.log() == self.log(),
            r.1.backoff() == backoff_after(self.backoff(), lived.nanos as int),
            lived.nanos >= 60_000_000_000 ==> r.0.nanos == self.backoff().initial,
            lived.nanos < 60_000_000_000 ==> r.0.nanos == self.backoff().delay,
            2 * r.0.nanos <= self.backoff().max ==> r.1.backoff().delay == 2 * r.0.nanos,
            2 * r.0.nanos > self.backoff().max ==> r.1.backoff().delay == self.backoff().max,
            r.1.backoff().initial == self.backoff().initial,
            r.1.backoff().max == self.backoff().max,
    {
        let Rearmed { mut backoff, log } = self;
        let wait = backoff.session_ended(lived);
        (wait, Supervisor { backoff, log })
    }
}

/// The waits after sessions that lived so long, one after the other.
pub open spec fn waits(b: BackoffView, lived: Seq<int>) -> Seq<int>
    decreases lived.len(),
{
    if lived.len() == 0 {
        Seq::empty()
    } else {
        seq![wait_after(b, lived[0])] + waits(backoff_after(b, lived[0]), lived.drop_first())
    }
}

proof fn lemma_one_wait_per_session(b: BackoffView, lived: Seq<int>)
    ensures
        waits(b, lived).len() == lived.len(),
    decreases lived.len(),
{
    if lived.len() > 0 {
        lemma_one_wait_per_session(backoff_after(b, lived[0]), lived.drop_first());
    }
}

/// The waits stay between the initial delay and the maximum.
pub proof fn lemma_waits_are_bounded(b: BackoffView, lived: Seq<int>)
    requires
        0 < b.initial <= b.delay <= b.max,
    ensures
        waits(b, lived).len() == lived.len(),
        forall|i: int|
            0 <= i < lived.len() ==> b.initial <= #[trigger] waits(b, lived)[i] <= b.max,
    decreases lived.len(),
{
    if lived.len() > 0 {
        let next = backoff_after(b, lived[0]);
        lemma_waits_are_bounded(next, lived.drop_first());
        assert forall|i: int| 0 <= i < lived.len() implies b.initial <= #[trigger] waits(
            b,
            lived,
        )[i] <= b.max by {
            if i > 0 {
                assert(waits(b, lived)[i] == waits(next, lived.drop_first())[i - 1]);
            }
        }
    }
}

/// The waits grow exponentially: after sessions that all failed early, the
/// wait doubles each time, up to the maximum.
pub proof fn lemma_waits_double(initial: int, max: int, lived: Seq<int>, k: nat)
    requires
        0 < initial <= max,
        k < lived.len(),
        forall|i: int|
            0 <= i < lived.len() ==> #[trigger] lived[i] < Duration::of_secs(
                HEALTHY_SESSION_SECS as nat,
            ),
    ensures
        waits(BackoffView { initial, max, delay: initial }, lived)[k as int] == smaller(
            initial * pow2(k) as int,
            max,
        ),
{
    vstd::arithmetic::power2::lemma2_to64();
    lemma_waits_double_from(initial, max, lived, k, 0);
}

proof fn lemma_waits_double_from(initial: int, max: int, lived: Seq<int>, k: nat, from: nat)
    requires
        0 < initial <= max,
        k < lived.len(),
        forall|i: int|
            0 <= i < lived.len() ==> #[trigger] lived[i] < Duration::of_secs(
                HEALTHY_SESSION_SECS as nat,
            ),
    ensures
        waits(
            BackoffView { initial, max, delay: smaller(initial * pow2(from) as int, max) },
            lived,
        )[k as int] == smaller(initial * pow2(from + k) as int, max),
    decreases k,
{
    let b = BackoffView { initial, max, delay: smaller(initial * pow2(from) as int, max) };
    if k > 0 {
        let rest = lived.drop_first();
        assert(lived[0] < Duration::of_secs(HEALTHY_SESSION_SECS as nat));
        assert forall|i: int| 0 <= i < rest.len() implies #[trigger] rest[i] < Duration::of_secs(
            HEALTHY_SESSION_SECS as nat,
        ) by {
            assert(lived[i + 1] == rest[i]);
        }
        lemma_pow2_unfold(from + 1);
        let p = pow2(from) as int;
        assert(pow2(from + 1) == 2 * p);
        assert(2 * (initial * p) == initial * (2 * p)) by (nonlinear_arith);
        lemma_pow2_pos(from);
        assert(initial * p > 0) by (nonlinear_arith)
            requires
                initial > 0,
                p > 0,
        ;
        assert(backoff_after(b, lived[0]).delay == smaller(initial * pow2(from + 1) as int, max));
        lemma_waits_double_from(initial, max, rest, (k - 1) as nat, from + 1);
        lemma_one_wait_per_session(backoff_after(b, lived[0]), rest);
        assert(waits(b, lived)[k as int] == waits(backoff_after(b, lived[0]), rest)[k - 1]);
    }
}

/// A session that stayed healthy resets the backoff, whatever came before.
pub proof fn lemma_healthy_session_resets(b: BackoffView, lived: int)
    requires
        lived >= Duration::of_secs(HEALTHY_SESSION_SECS as nat),
    ensures
        wait_after(b, lived) == b.initial,
        backoff_after(b, lived) == backoff_after(
            BackoffView { delay: b.initial, ..b },
            0,
        ),
{
}

/// A frame is an event exactly where the reading of it gives one, whatever the
/// event says; it is none exactly where the reading gives none, and malformed
/// exactly where the reading fails, with that error.
pub proof fn lemma_frame_is_what_was_read(bytes: Seq<u8>, event: EventView, e: Seq<char>)
    ensures
        frame_in(bytes) == FrameView::Event(event) <==> event_in(xml_steps(bytes)) == Ok::<
            Option<EventView>,
            Seq<char>,
        >(Some(event)),
        frame_in(bytes) is NotAnEvent <==> event_in(xml_steps(bytes)) == Ok::<
            Option<EventView>,
            Seq<char>,
        >(None),
        frame_in(bytes) == FrameView::Malformed(e) <==> event_in(xml_steps(bytes)) == Err::<
            Option<EventView>,
            Seq<char>,
        >(e),
{
}

/// A session of a minute or more is followed by the initial wait, a shorter one
/// by the wait that has grown; the next wait is twice the last one, and at most
/// the maximum.
pub proof fn lemma_wait_rule(b: BackoffView, lived: int)
    ensures
        ({
            let wait = wait_after(b, lived);
            let after = backoff_after(b, lived);
            &&& lived >= 60_000_000_000 ==> wait == b.initial
            &&& lived < 60_000_000_000 ==> wait == b.delay
            &&& 2 * wait <= b.max ==> after.delay == 2 * wait
            &&& 2 * wait > b.max ==> after.delay == b.max
            &&& after.initial == b.initial
            &&& after.max == b.max
        }),
{
}

/// The first occurrence of the camera's host goes, and what stands before it is
/// kept, in a message that does not hold the URL.
pub proof fn lemma_redaction_replaces_the_host(
    before: Seq<char>,
    after: Seq<char>,
    camera: UrlView,
)
    requires
        camera.host_text is Some,
        camera.host_text->0.len() > 0,
        camera.text.len() > 0,
        forall|a: Seq<char>, b: Seq<char>|
            before + camera.host_text->0 + after != #[trigger] (a + camera.text + b),
        forall|i: int, j: int|
            #![trigger (before + camera.host_text->0 + after).subrange(i, j)]
            0 <= i < before.len() && j == i + camera.host_text->0.len() ==> (before
                + camera.host_text->0 + after).subrange(i, j) != camera.host_text->0,
    ensures
        redacted(before + camera.host_text->0 + after, camera) == before + "<camera-host>"@
            + replaced(after, camera.host_text->0, "<camera-host>"@),
{
    let host = camera.host_text->0;
    lemma_nothing_to_replace(before + host + after, camera.text, "<camera>"@);
    lemma_first_occurrence_is_replaced(before, host, after, "<camera-host>"@);
}

/// A message that holds neither the camera's URL nor its host is not changed.
pub proof fn lemma_redaction_leaves_the_rest(message: Seq<char>, camera: UrlView)
    requires
        camera.text.len() > 0,
        forall|a: Seq<char>, b: Seq<char>| message != #[trigger] (a + camera.text + b),
        camera.host_text matches Some(host) ==> host.len() > 0 && forall|
            a: Seq<char>,
            b: Seq<char>,
        | message != #[trigger] (a + host + b),
    ensures
        redacted(message, camera) == message,
{
    lemma_nothing_to_replace(message, camera.text, "<camera>"@);
    if let Some(host) = camera.host_text {
        lemma_nothing_to_replace(message, host, "<camera-host>"@);
    }
}

/// What a frame and a stream item show are what they hold.
pub proof fn lemma_items_show_what_they_hold(event: CameraEvent, e: String)
    ensures
        StreamItem::Event(event)@ == ItemView::Event(event@),
        StreamItem::Reset@ == ItemView::Reset,
        Frame::Event(event)@ == FrameView::Event(event@),
        Frame::NotAnEvent@ == FrameView::NotAnEvent,
        Frame::Malformed(e)@ == FrameView::Malformed(e@),
{
}

/// Of a silent stream it is said how many whole seconds were allowed.
pub proof fn lemma_silence_is_told_in_seconds(stream_idle: Duration, secs: nat)
    requires
        secs * 1_000_000_000 <= stream_idle.nanos < (secs + 1) * 1_000_000_000,
    ensures
        idle_text(stream_idle) == "camera stream idle for more than "@ + decimal(secs) + "s"@,
{
    assert(stream_idle.nanos / NANOS_PER_SEC == secs);
}

} // verus!
