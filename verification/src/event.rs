//! Structural parsing of a single `EventNotificationAlert` XML document.
//!
//! Hikvision firmwares vary: namespaces may or may not be present, element
//! prefixes differ, and values carry stray whitespace. Matching is therefore
//! done on namespace-local element names against decoded text content, never
//! on substrings of the raw document.

use vstd::prelude::*;
use vstd::slice::slice_subrange;
use vstd::slice::slice_to_vec;
use vstd::string::StringSliceAdditionalSpecFns;
use vstd::utf8::encode_utf8;

use crate::text::chars_of;
use crate::text::is_control;
use crate::text::is_control_char;
use crate::text::lowered;
use crate::text::same;
use crate::text::same_bytes;
use crate::text::to_lower;
use crate::text::trim;
use crate::text::trimmed;
use crate::xml::lossy_utf8;
use crate::xml::open_reader;
use crate::xml::read_token;
use crate::xml::steps_ahead;
use crate::xml::utf8_lossy;
use crate::xml::xml_steps;
use crate::xml::XmlStep;
use crate::xml::XmlToken;

verus! {

/// Normalised `eventState` value.
#[derive(Debug, Clone, PartialEq, Eq)]
pub enum EventState {
    Active,
    Inactive,
    /// The document had an `eventType` but no `eventState` element. Some
    /// firmwares emit presence-based events where the document existing *is*
    /// the alarm: the processor treats a fire-matching type without state as
    /// active (fail toward alert, never silent drop).
    Missing,
    Unknown(String),
}

/// What an `EventState` holds.
pub enum StateView {
    Active,
    Inactive,
    Missing,
    Unknown(Seq<char>),
}

impl View for EventState {
    type V = StateView;

    open spec fn view(&self) -> StateView {
        match *self {
            EventState::Active => StateView::Active,
            EventState::Inactive => StateView::Inactive,
            EventState::Missing => StateView::Missing,
            EventState::Unknown(raw) => StateView::Unknown(raw@),
        }
    }
}

/// The state that an `eventState` text means, letter case and surrounding
/// white space aside.
pub open spec fn state_named(raw: Seq<char>) -> StateView {
    let name = lowered(trimmed(raw));
    if name == "active"@ || name == "true"@ || name == "1"@ {
        StateView::Active
    } else if name == "inactive"@ || name == "false"@ || name == "0"@ {
        StateView::Inactive
    } else {
        StateView::Unknown(name)
    }
}

impl EventState {
    pub fn parse(raw: &str) -> (state: Self)
        ensures
            state@ == state_named(raw@),
            ({
                let name = lowered(trimmed(raw@));
                &&& state is Active <==> name == "active"@ || name == "true"@ || name == "1"@
                &&& state is Inactive <==> name == "inactive"@ || name == "false"@ || name == "0"@
                &&& !(state is Missing)
                &&& state matches EventState::Unknown(other) ==> other@ == name
            }),
    {
        proof {
            lemma_state_names_differ();
        }
        let name = to_lower(trim(raw).as_str());
        if same(name.as_str(), "active") || same(name.as_str(), "true") || same(name.as_str(), "1") {
            EventState::Active
        } else if same(name.as_str(), "inactive") || same(name.as_str(), "false") || same(
            name.as_str(),
            "0",
        ) {
            EventState::Inactive
        } else {
            EventState::Unknown(name)
        }
    }
}

#[derive(Debug, Clone, PartialEq, Eq)]
pub struct CameraEvent {
    pub event_type: String,
    pub state: EventState,
    /// `channelID` (or `dynChannelID`) when present; identifies the source on
    /// multi-channel devices.
    pub channel: Option<String>,
}

/// What a `CameraEvent` holds.
pub struct EventView {
    pub event_type: Seq<char>,
    pub state: StateView,
    pub channel: Option<Seq<char>>,
}

pub open spec fn optional_text(s: Option<String>) -> Option<Seq<char>> {
    match s {
        Some(s) => Some(s@),
        None => None,
    }
}

impl View for CameraEvent {
    type V = EventView;

    open spec fn view(&self) -> EventView {
        EventView {
            event_type: self.event_type@,
            state: self.state@,
            channel: optional_text(self.channel),
        }
    }
}

/// What a name is once its namespace prefix is gone: what follows its last
/// colon.
pub open spec fn local_part(name: Seq<u8>) -> Seq<u8>
    decreases name.len(),
{
    if name.contains(COLON) && name.len() > 0 {
        local_part(name.drop_first())
    } else {
        name
    }
}

pub const COLON: u8 = 58;

/// A prefix is stripped: `ns:eventType` is `eventType`.
pub proof fn lemma_prefix_is_stripped(prefix: Seq<u8>, name: Seq<u8>)
    requires
        !name.contains(COLON),
    ensures
        local_part(prefix.push(COLON) + name) == name,
    decreases prefix.len(),
{
    let whole = prefix.push(COLON) + name;
    assert(whole[prefix.len() as int] == COLON);
    if prefix.len() == 0 {
        assert(whole.drop_first() =~= name);
        assert(local_part(name) == name);
    } else {
        assert(whole.drop_first() =~= prefix.drop_first().push(COLON) + name);
        lemma_prefix_is_stripped(prefix.drop_first(), name);
    }
}

/// Strip any namespace prefix: `ns:eventType` -> `eventType`.
pub fn local_name(name: &[u8]) -> (local: &[u8])
    ensures
        local@ == local_part(name@),
{
    let mut i: usize = name.len();
    while i > 0
        invariant
            i <= name@.len(),
            forall|j: int| i <= j < name@.len() ==> name@[j] != COLON,
        decreases i,
    {
        if name[i - 1] == COLON {
            proof {
                let prefix = name@.take(i - 1);
                let rest = name@.skip(i as int);
                assert(!rest.contains(COLON)) by {
                    if rest.contains(COLON) {
                        let j = choose|j: int| 0 <= j < rest.len() && rest[j] == COLON;
                        assert(name@[i + j] == COLON);
                    }
                }
                assert(prefix.push(COLON) + rest =~= name@);
                lemma_prefix_is_stripped(prefix, rest);
                assert(name@.subrange(i as int, name@.len() as int) =~= rest);
            }
            return slice_subrange(name, i, name.len());
        }
        i -= 1;
    }
    name
}

/// The longest channel that is kept, in characters.
pub const CHANNEL_MAX: usize = 64;

/// `s` without its control characters.
pub open spec fn printable(s: Seq<char>) -> Seq<char> {
    s.filter(|c: char| !is_control(c))
}

pub open spec fn clipped(s: Seq<char>) -> Seq<char> {
    if s.len() > CHANNEL_MAX {
        s.take(CHANNEL_MAX as int)
    } else {
        s
    }
}

/// A channel fit for logs: no surrounding white space, no control characters,
/// and a bounded length.
pub open spec fn sanitized(raw: Seq<char>) -> Seq<char> {
    clipped(printable(trimmed(raw)))
}

/// A sanitised channel cannot forge log lines: it holds no control character
/// and is short, whatever the camera sent.
pub proof fn lemma_channel_is_safe(raw: Seq<char>)
    ensures
        sanitized(raw).len() <= CHANNEL_MAX,
        forall|i: int| 0 <= i < sanitized(raw).len() ==> !is_control(#[trigger] sanitized(raw)[i]),
{
    let s = trimmed(raw);
    let keep = |c: char| !is_control(c);
    assert forall|i: int| 0 <= i < sanitized(raw).len() implies !is_control(
        #[trigger] sanitized(raw)[i],
    ) by {
        assert(sanitized(raw)[i] == s.filter(keep)[i]);
        s.lemma_filter_pred(keep, i);
    }
}

/// The channel value is attacker-influenced (a compromised camera chooses
/// it) and flows into structured logs and the webhook payload. Strip control
/// characters (log forging via embedded newlines/escapes) and cap the length.
pub fn sanitize_channel(raw: &str) -> (out: String)
    ensures
        out@ == sanitized(raw@),
{
    let chars = chars_of(trim(raw).as_str());
    let mut out = String::new();
    let mut kept: usize = 0;
    let mut i: usize = 0;
    assert(chars@.take(0) =~= Seq::empty());
    while i < chars.len()
        invariant
            i <= chars@.len(),
            kept == out@.len(),
            out@ == clipped(printable(chars@.take(i as int))),
        decreases chars@.len() - i,
    {
        let c = chars[i];
        proof {
            assert(chars@.take(i + 1).drop_last() =~= chars@.take(i as int));
            reveal_with_fuel(Seq::filter, 2);
        }
        if !is_control_char(c) && kept < CHANNEL_MAX {
            out.push(c);
            kept += 1;
        }
        i += 1;
        assert(out@ =~= clipped(printable(chars@.take(i as int))));
    }
    assert(chars@.take(i as int) =~= chars@);
    out
}

/// The fields of a document, as far as it has been read, and the element that
/// is open.
pub struct EventFields {
    current: Vec<u8>,
    event_type: Option<String>,
    event_state: Option<String>,
    channel: Option<String>,
}

/// What an `EventFields` holds.
pub struct FieldsView {
    pub current: Seq<u8>,
    pub event_type: Option<Seq<char>>,
    pub event_state: Option<Seq<char>>,
    pub channel: Option<Seq<char>>,
}

impl View for EventFields {
    type V = FieldsView;

    closed spec fn view(&self) -> FieldsView {
        FieldsView {
            current: self.current@,
            event_type: optional_text(self.event_type),
            event_state: optional_text(self.event_state),
            channel: optional_text(self.channel),
        }
    }
}

/// Nothing has been read yet.
pub open spec fn nothing_read() -> FieldsView {
    FieldsView { current: Seq::empty(), event_type: None, event_state: None, channel: None }
}

/// The element is one that names the channel.
pub open spec fn is_channel(element: Seq<u8>) -> bool {
    element == encode_utf8("channelID"@) || element == encode_utf8("dynChannelID"@)
}

/// The fields once the open element has the content `value`. The first
/// occurrence wins: top-level fields precede any nested repetition.
pub open spec fn assigned(f: FieldsView, value: Seq<char>) -> FieldsView {
    if f.current == encode_utf8("eventType"@) && f.event_type is None {
        FieldsView { event_type: Some(value), ..f }
    } else if f.current == encode_utf8("eventState"@) && f.event_state is None {
        FieldsView { event_state: Some(value), ..f }
    } else if is_channel(f.current) && f.channel is None {
        FieldsView { channel: Some(sanitized(value)), ..f }
    } else {
        f
    }
}

/// The fields after one step through the document, or the error that ends the
/// reading.
pub open spec fn stepped(f: FieldsView, step: XmlStep) -> Result<FieldsView, Seq<char>> {
    match step {
        XmlStep::Start(name) => Ok(FieldsView { current: local_part(name), ..f }),
        XmlStep::Text(value) => Ok(assigned(f, value)),
        XmlStep::CData(bytes) => Ok(assigned(f, lossy_utf8(bytes))),
        XmlStep::End => Ok(FieldsView { current: Seq::empty(), ..f }),
        XmlStep::Other | XmlStep::Eof => Ok(f),
        XmlStep::Undecodable(e) | XmlStep::Failed(e) => Err(e),
    }
}

/// The fields after all the steps.
pub open spec fn read_through(f: FieldsView, steps: Seq<XmlStep>) -> Result<FieldsView, Seq<char>>
    decreases steps.len(),
{
    if steps.len() == 0 {
        Ok(f)
    } else {
        match stepped(f, steps[0]) {
            Ok(next) => read_through(next, steps.drop_first()),
            Err(e) => Err(e),
        }
    }
}

/// The event that the fields make: none without a type, and one with a missing
/// state without a state.
pub open spec fn event_of(f: FieldsView) -> Option<EventView> {
    match f.event_type {
        None => None,
        Some(event_type) => Some(
            EventView {
                event_type,
                state: match f.event_state {
                    Some(raw) => state_named(raw),
                    None => StateView::Missing,
                },
                channel: f.channel,
            },
        ),
    }
}

/// What a document with these steps says.
pub open spec fn event_in(steps: Seq<XmlStep>) -> Result<Option<EventView>, Seq<char>> {
    match read_through(nothing_read(), steps) {
        Ok(f) => Ok(event_of(f)),
        Err(e) => Err(e),
    }
}

pub open spec fn optional_event(e: Option<CameraEvent>) -> Option<EventView> {
    match e {
        Some(e) => Some(e@),
        None => None,
    }
}

impl EventFields {
    pub fn new() -> (f: Self)
        ensures
            f@ == nothing_read(),
    {
        EventFields { current: Vec::new(), event_type: None, event_state: None, channel: None }
    }

    /// Take the content of the open element.
    fn assign(&mut self, value: String)
        ensures
            final(self)@ == assigned(old(self)@, value@),
    {
        // First occurrence wins: top-level fields precede any nested repetition.
        let element = self.current.as_slice();
        if same_bytes(element, "eventType".as_bytes()) && self.event_type.is_none() {
            self.event_type = Some(value);
        } else if same_bytes(element, "eventState".as_bytes()) && self.event_state.is_none() {
            self.event_state = Some(value);
        } else if (same_bytes(element, "channelID".as_bytes()) || same_bytes(
            element,
            "dynChannelID".as_bytes(),
        )) && self.channel.is_none() {
            self.channel = Some(sanitize_channel(value.as_str()));
        }
    }

    /// Take one step through the document.
    pub fn apply(&mut self, token: XmlToken) -> (r: Result<(), String>)
        ensures
            match r {
                Ok(()) => stepped(old(self)@, token@) == Ok::<FieldsView, Seq<char>>(
                    final(self)@,
                ),
                Err(e) => stepped(old(self)@, token@) == Err::<FieldsView, Seq<char>>(e@)
                    && final(self)@ == old(self)@,
            },
    {
        match token {
            XmlToken::Start(name) => {
                self.current = slice_to_vec(local_name(name.as_slice()));
            },
            XmlToken::Text(value) => self.assign(value),
            XmlToken::CData(bytes) => self.assign(utf8_lossy(bytes.as_slice())),
            XmlToken::End => {
                self.current = Vec::new();
            },
            XmlToken::Other | XmlToken::Eof => {},
            XmlToken::Undecodable(e) => return Err(e),
            XmlToken::Failed(e) => return Err(e),
        }
        Ok(())
    }

    /// The event that the fields make.
    pub fn finish(self) -> (event: Option<CameraEvent>)
        ensures
            optional_event(event) == event_of(self@),
            event is Some <==> self@.event_type is Some,
            event matches Some(e) ==> {
                &&& self@.event_type == Some(e.event_type@)
                &&& optional_text(e.channel) == self@.channel
                &&& e.state is Missing <==> self@.event_state is None
                &&& self@.event_state matches Some(raw) ==> {
                    let name = lowered(trimmed(raw));
                    &&& e.state is Active <==> name == "active"@ || name == "true"@ || name == "1"@
                    &&& e.state is Inactive <==> name == "inactive"@ || name == "false"@ || name
                        == "0"@
                    &&& e.state matches EventState::Unknown(other) ==> other@ == name
                }
            },
    {
        match self.event_type {
            None => None,
            Some(event_type) => {
                let state = match self.event_state {
                    Some(raw) => EventState::parse(raw.as_str()),
                    None => EventState::Missing,
                };
                Some(CameraEvent { event_type, state, channel: self.channel })
            },
        }
    }
}

/// Parse one complete XML document. Returns `Ok(None)` when the document is
/// well-formed but is not an event notification (no `eventType` at all). A
/// missing `eventState` yields [`EventState::Missing`] rather than dropping
/// the document: the caller decides how to fail safe.
pub fn parse_event(xml: &[u8]) -> (r: Result<Option<CameraEvent>, String>)
    ensures
        match r {
            Ok(event) => event_in(xml_steps(xml@)) == Ok::<Option<EventView>, Seq<char>>(
                optional_event(event),
            ),
            Err(e) => event_in(xml_steps(xml@)) == Err::<Option<EventView>, Seq<char>>(e@),
        },
        match event_in(xml_steps(xml@)) {
            Ok(Some(event)) => r matches Ok(Some(e)) && e@ == event,
            Ok(None) => r matches Ok(None),
            Err(m) => r matches Err(e) && e@ == m,
        },
{
    let mut reader = open_reader(xml);
    let mut fields = EventFields::new();
    loop
        invariant
            read_through(fields@, steps_ahead(reader)) == read_through(
                nothing_read(),
                xml_steps(xml@),
            ),
        decreases steps_ahead(reader).len(),
    {
        let ghost ahead = steps_ahead(reader);
        let token = read_token(&mut reader);
        if matches!(token, XmlToken::Eof) {
            return Ok(fields.finish());
        }
        proof {
            assert(ahead.len() > 0 && ahead[0] == token@);
            if !(token is Failed) {
                assert(ahead.drop_first() =~= steps_ahead(reader));
            }
        }
        if let Err(e) = fields.apply(token) {
            return Err(e);
        }
    }
}

/// The first occurrence of a field wins: once it has a value, no step changes
/// it.
pub proof fn lemma_first_occurrence_wins(f: FieldsView, steps: Seq<XmlStep>)
    requires
        read_through(f, steps) is Ok,
    ensures
        ({
            let g = read_through(f, steps)->Ok_0;
            &&& f.event_type is Some ==> g.event_type == f.event_type
            &&& f.event_state is Some ==> g.event_state == f.event_state
            &&& f.channel is Some ==> g.channel == f.channel
        }),
    decreases steps.len(),
{
    if steps.len() > 0 {
        lemma_first_occurrence_wins(stepped(f, steps[0])->Ok_0, steps.drop_first());
    }
}

/// A channel that is there is short and holds no control character.
pub open spec fn is_safe_channel(channel: Option<Seq<char>>) -> bool {
    channel matches Some(channel) ==> {
        &&& channel.len() <= CHANNEL_MAX
        &&& forall|i: int| 0 <= i < channel.len() ==> !is_control(#[trigger] channel[i])
    }
}

/// The channel of an event is safe to log, whatever the document holds.
pub proof fn lemma_event_channel_is_safe(steps: Seq<XmlStep>)
    ensures
        event_in(steps) matches Ok(Some(event)) ==> is_safe_channel(event.channel),
{
    lemma_channel_stays_safe(nothing_read(), steps);
}

proof fn lemma_channel_stays_safe(f: FieldsView, steps: Seq<XmlStep>)
    requires
        is_safe_channel(f.channel),
    ensures
        read_through(f, steps) matches Ok(g) ==> is_safe_channel(g.channel),
    decreases steps.len(),
{
    if steps.len() > 0 {
        match steps[0] {
            XmlStep::Text(value) => lemma_channel_is_safe(value),
            XmlStep::CData(bytes) => lemma_channel_is_safe(lossy_utf8(bytes)),
            _ => {},
        }
        if stepped(f, steps[0]) is Ok {
            lemma_channel_stays_safe(stepped(f, steps[0])->Ok_0, steps.drop_first());
        }
    }
}

/// An event is never dropped for want of a state: with a type it is an event,
/// whose state is missing exactly where no state was read.
pub proof fn lemma_missing_state_is_no_drop(steps: Seq<XmlStep>)
    requires
        read_through(nothing_read(), steps) is Ok,
        read_through(nothing_read(), steps)->Ok_0.event_type is Some,
    ensures
        event_in(steps) matches Ok(Some(event)) && (event.state is Missing <==> read_through(
            nothing_read(),
            steps,
        )->Ok_0.event_state is None),
{
}

proof fn lemma_state_names_differ()
    ensures
        "active"@ != "inactive"@ && "active"@ != "false"@ && "active"@ != "0"@,
        "true"@ != "inactive"@ && "true"@ != "false"@ && "true"@ != "0"@,
        "1"@ != "inactive"@ && "1"@ != "false"@ && "1"@ != "0"@,
{
    reveal_strlit("active");
    reveal_strlit("inactive");
    reveal_strlit("true");
    reveal_strlit("false");
    reveal_strlit("1");
    reveal_strlit("0");
    assert("active"@.len() == 6 && "inactive"@.len() == 8 && "true"@.len() == 4);
    assert("false"@.len() == 5 && "1"@.len() == 1 && "0"@.len() == 1);
    assert("1"@[0] != "0"@[0]);
}

/// A name without a prefix is its own local part.
pub proof fn lemma_plain_name_is_local(name: Seq<u8>)
    requires
        forall|i: int| 0 <= i < name.len() ==> name[i] != 58,
    ensures
        local_part(name) == name,
{
}

/// A state is named in one of three ways each, letter case and surrounding
/// white space aside, and any other text is kept, lowered and trimmed.
pub proof fn lemma_state_by_name(raw: Seq<char>)
    ensures
        ({
            let name = lowered(trimmed(raw));
            &&& state_named(raw) is Active <==> name == "active"@ || name == "true"@ || name
                == "1"@
            &&& state_named(raw) is Inactive <==> name == "inactive"@ || name == "false"@ || name
                == "0"@
            &&& state_named(raw) != StateView::Missing
            &&& state_named(raw) matches StateView::Unknown(other) ==> other == name
        }),
{
    lemma_state_names_differ();
}

/// Sanitising treats each character on its own: a control character anywhere
/// makes no difference, and any other is kept in its place, up to the 64th.
pub proof fn lemma_sanitized_by_character(before: Seq<char>, c: char, after: Seq<char>)
    ensures
        (c as u32) < 32 || 127 <= (c as u32) < 160 ==> printable(before.push(c) + after)
            == printable(before + after),
        !((c as u32) < 32 || 127 <= (c as u32) < 160) ==> printable(before.push(c) + after)
            == printable(before).push(c) + printable(after),
    decreases after.len(),
{
    let keep = |c: char| !is_control(c);
    if after.len() == 0 {
        assert(before.push(c) + after =~= before.push(c));
        assert(before + after =~= before);
        assert(before.push(c).drop_last() =~= before);
        reveal_with_fuel(Seq::filter, 2);
        assert(printable(before).push(c) + printable(after) =~= printable(before).push(c));
    } else {
        let rest = after.drop_last();
        lemma_sanitized_by_character(before, c, rest);
        assert((before.push(c) + after).drop_last() =~= before.push(c) + rest);
        assert((before + after).drop_last() =~= before + rest);
        reveal_with_fuel(Seq::filter, 2);
        assert((before.push(c) + after).last() == after.last());
        assert((before + after).last() == after.last());
        if keep(after.last()) {
            assert((printable(before).push(c) + printable(rest)).push(after.last())
                =~= printable(before).push(c) + printable(rest).push(after.last()));
        }
    }
}

/// A short channel of printable characters is kept as it is once trimmed, and
/// of a longer one the first 64 characters.
pub proof fn lemma_printable_channel_is_kept(raw: Seq<char>)
    requires
        forall|i: int|
            0 <= i < trimmed(raw).len() ==> !((#[trigger] trimmed(raw)[i] as int) < 32 || 127 <= (
            trimmed(raw)[i] as int) < 160),
    ensures
        trimmed(raw).len() <= 64 ==> sanitized(raw) == trimmed(raw),
        trimmed(raw).len() > 64 ==> sanitized(raw) == trimmed(raw).take(64),
        sanitized(raw).len() <= 64,
{
    assert forall|i: int| 0 <= i < trimmed(raw).len() implies !is_control(
        #[trigger] trimmed(raw)[i],
    ) by {
        assert(!((trimmed(raw)[i] as int) < 32 || 127 <= (trimmed(raw)[i] as int) < 160));
    }
    lemma_printable_keeps_all(trimmed(raw));
}

proof fn lemma_printable_keeps_all(s: Seq<char>)
    requires
        forall|i: int| 0 <= i < s.len() ==> !is_control(#[trigger] s[i]),
    ensures
        printable(s) == s,
    decreases s.len(),
{
    reveal_with_fuel(Seq::filter, 2);
    if s.len() > 0 {
        let rest = s.drop_last();
        assert forall|i: int| 0 <= i < rest.len() implies !is_control(#[trigger] rest[i]) by {
            assert(s[i] == rest[i]);
        }
        lemma_printable_keeps_all(rest);
        assert(!is_control(s[s.len() - 1]));
        assert(rest.push(s.last()) =~= s);
    } else {
        assert(printable(s) =~= s);
    }
}

/// What a channel becomes is the first 64 of its printable characters.
pub proof fn lemma_sanitized_is_clipped(raw: Seq<char>)
    ensures
        printable(trimmed(raw)).len() <= 64 ==> sanitized(raw) == printable(trimmed(raw)),
        printable(trimmed(raw)).len() > 64 ==> sanitized(raw) == printable(trimmed(raw)).take(64),
        printable(Seq::<char>::empty()) == Seq::<char>::empty(),
{
    reveal_with_fuel(Seq::filter, 1);
    assert(printable(Seq::<char>::empty()) =~= Seq::<char>::empty());
}

/// Step `j` is content, character data or CDATA, that says `value`, directly
/// inside an element whose opening tag is step `i`.
pub open spec fn is_content(steps: Seq<XmlStep>, i: int, j: int, value: Seq<char>) -> bool {
    &&& 0 <= i < j < steps.len()
    &&& steps[i] is Start
    &&& forall|k: int|
        i < k < j ==> !(#[trigger] steps[k] is Start) && !(steps[k] is End)
    &&& steps[j] == XmlStep::Text(value) || (steps[j] is CData && value == lossy_utf8(
        steps[j]->CData_0,
    ))
}

/// The element opened by step `i` is called `name`, its prefix aside.
pub open spec fn is_called(steps: Seq<XmlStep>, i: int, name: Seq<char>) -> bool {
    local_part(steps[i]->Start_0) == encode_utf8(name)
}

/// The fields after the first `n` steps.
spec fn read_first(steps: Seq<XmlStep>, n: int) -> Result<FieldsView, Seq<char>> {
    read_through(nothing_read(), steps.take(n))
}

proof fn lemma_read_one_more(f: FieldsView, steps: Seq<XmlStep>, step: XmlStep)
    ensures
        read_through(f, steps.push(step)) == match read_through(f, steps) {
            Ok(g) => stepped(g, step),
            Err(e) => Err::<FieldsView, Seq<char>>(e),
        },
    decreases steps.len(),
{
    let all = steps.push(step);
    if steps.len() == 0 {
        assert(all.drop_first() =~= Seq::<XmlStep>::empty());
        assert(all[0] == step);
        if let Ok(g) = stepped(f, step) {
            assert(read_through(g, Seq::<XmlStep>::empty()) == Ok::<FieldsView, Seq<char>>(g));
        }
    } else {
        assert(all[0] == steps[0]);
        assert(all.drop_first() =~= steps.drop_first().push(step));
        if let Ok(g) = stepped(f, steps[0]) {
            lemma_read_one_more(g, steps.drop_first(), step);
        }
    }
}

proof fn lemma_reading_goes_on(steps: Seq<XmlStep>, n: int)
    requires
        0 <= n < steps.len(),
    ensures
        read_first(steps, n + 1) == match read_first(steps, n) {
            Ok(f) => stepped(f, steps[n]),
            Err(e) => Err::<FieldsView, Seq<char>>(e),
        },
{
    assert(steps.take(n + 1) =~= steps.take(n).push(steps[n]));
    lemma_read_one_more(nothing_read(), steps.take(n), steps[n]);
}

proof fn lemma_readable_before(steps: Seq<XmlStep>, n: int, m: int)
    requires
        0 <= n <= m <= steps.len(),
        read_first(steps, m) is Ok,
    ensures
        read_first(steps, n) is Ok,
    decreases m - n,
{
    if n < m {
        lemma_reading_goes_on(steps, m - 1);
        lemma_readable_before(steps, n, m - 1);
    }
}

/// The element that is open after the first steps is the one whose opening tag
/// came last, unless a tag was closed since.
proof fn lemma_open_element(steps: Seq<XmlStep>, i: int, n: int)
    requires
        0 <= i < n <= steps.len(),
        steps[i] is Start,
        forall|k: int| i < k < n ==> !(#[trigger] steps[k] is Start) && !(steps[k] is End),
        read_first(steps, n) is Ok,
    ensures
        read_first(steps, n)->Ok_0.current == local_part(steps[i]->Start_0),
    decreases n - i,
{
    lemma_reading_goes_on(steps, n - 1);
    if n - 1 > i {
        lemma_readable_before(steps, n - 1, n);
        lemma_open_element(steps, i, n - 1);
    }
}

/// Where some element is open, its opening tag is among the steps.
proof fn lemma_open_element_was_opened(steps: Seq<XmlStep>, n: int) -> (i: int)
    requires
        0 <= n <= steps.len(),
        read_first(steps, n) is Ok,
        read_first(steps, n)->Ok_0.current.len() > 0,
    ensures
        0 <= i < n,
        steps[i] is Start,
        forall|k: int| i < k < n ==> !(#[trigger] steps[k] is Start) && !(steps[k] is End),
        read_first(steps, n)->Ok_0.current == local_part(steps[i]->Start_0),
    decreases n,
{
    if n == 0 {
        assert(steps.take(0) =~= Seq::<XmlStep>::empty());
        assert(false);
        0
    } else {
        lemma_reading_goes_on(steps, n - 1);
        lemma_readable_before(steps, n - 1, n);
        if steps[n - 1] is Start {
            n - 1
        } else {
            lemma_open_element_was_opened(steps, n - 1)
        }
    }
}

/// The fields that a document is read for.
pub enum Field {
    Type,
    State,
    Channel,
}

/// The names that the element of a field can have.
pub open spec fn names_field(steps: Seq<XmlStep>, i: int, field: Field) -> bool {
    match field {
        Field::Type => is_called(steps, i, "eventType"@),
        Field::State => is_called(steps, i, "eventState"@),
        Field::Channel => is_called(steps, i, "channelID"@) || is_called(
            steps,
            i,
            "dynChannelID"@,
        ),
    }
}

/// Some element of the field has content before step `n`.
pub open spec fn field_content_before(steps: Seq<XmlStep>, field: Field, n: int) -> bool {
    exists|i: int, j: int, v: Seq<char>| #[trigger]
        is_content(steps, i, j, v) && j < n && names_field(steps, i, field)
}

spec fn field_of(f: FieldsView, field: Field) -> Option<Seq<char>> {
    match field {
        Field::Type => f.event_type,
        Field::State => f.event_state,
        Field::Channel => f.channel,
    }
}

spec fn as_kept(field: Field, v: Seq<char>) -> Seq<char> {
    if field is Channel {
        sanitized(v)
    } else {
        v
    }
}

proof fn lemma_field_names_differ()
    ensures
        encode_utf8("eventType"@).len() == 9,
        encode_utf8("eventState"@).len() == 10,
        encode_utf8("channelID"@).len() == 9,
        encode_utf8("dynChannelID"@).len() == 12,
        encode_utf8("eventType"@) != encode_utf8("channelID"@),
{
    reveal_strlit("eventType");
    reveal_strlit("eventState");
    reveal_strlit("channelID");
    reveal_strlit("dynChannelID");
    vstd::string::is_ascii_spec_bytes("eventType");
    vstd::string::is_ascii_spec_bytes("eventState");
    vstd::string::is_ascii_spec_bytes("channelID");
    vstd::string::is_ascii_spec_bytes("dynChannelID");
    assert(encode_utf8("eventType"@) == "eventType".spec_bytes());
    assert(encode_utf8("eventState"@) == "eventState".spec_bytes());
    assert(encode_utf8("channelID"@) == "channelID".spec_bytes());
    assert(encode_utf8("dynChannelID"@) == "dynChannelID".spec_bytes());
    assert(encode_utf8("eventType"@)[0] != encode_utf8("channelID"@)[0]);
}

/// One step gives a field its value exactly where it is content of the field's
/// element and the field has none.
proof fn lemma_field_after_step(steps: Seq<XmlStep>, field: Field, n: int)
    requires
        0 <= n < steps.len(),
        read_first(steps, n + 1) is Ok,
    ensures
        ({
            let before = field_of(read_first(steps, n)->Ok_0, field);
            let after = field_of(read_first(steps, n + 1)->Ok_0, field);
            &&& read_first(steps, n) is Ok
            &&& before is Some ==> after == before
            &&& forall|i: int, v: Seq<char>| #[trigger]
                is_content(steps, i, n, v) && names_field(steps, i, field) && before is None
                    ==> after == Some(as_kept(field, v))
            &&& before is None && after is Some ==> exists|i: int, v: Seq<char>| #[trigger]
                is_content(steps, i, n, v) && names_field(steps, i, field)
        }),
{
    lemma_field_names_differ();
    lemma_reading_goes_on(steps, n);
    lemma_readable_before(steps, n, n + 1);
    let f = read_first(steps, n)->Ok_0;
    let before = field_of(f, field);
    let after = field_of(read_first(steps, n + 1)->Ok_0, field);
    assert forall|i: int, v: Seq<char>| #[trigger]
        is_content(steps, i, n, v) && names_field(steps, i, field) && before is None implies after
        == Some(as_kept(field, v)) by {
        lemma_open_element(steps, i, n);
    }
    if before is None && after is Some {
        let v = match steps[n] {
            XmlStep::Text(v) => v,
            XmlStep::CData(bytes) => lossy_utf8(bytes),
            _ => Seq::empty(),
        };
        assert(f.current.len() > 0);
        let i = lemma_open_element_was_opened(steps, n);
        assert(is_content(steps, i, n, v));
    }
}

/// A field has a value after the first steps exactly where its element has had
/// content, and then the value is that of the first.
proof fn lemma_field_after_steps(steps: Seq<XmlStep>, field: Field, n: int)
    requires
        0 <= n <= steps.len(),
        read_first(steps, n) is Ok,
    ensures
        field_of(read_first(steps, n)->Ok_0, field) is Some <==> field_content_before(
            steps,
            field,
            n,
        ),
    decreases n,
{
    if n == 0 {
        assert(steps.take(0) =~= Seq::<XmlStep>::empty());
    } else {
        lemma_readable_before(steps, n - 1, n);
        lemma_field_after_steps(steps, field, n - 1);
        lemma_field_after_step(steps, field, n - 1);
        let before = field_of(read_first(steps, n - 1)->Ok_0, field);
        let after = field_of(read_first(steps, n)->Ok_0, field);
        if field_content_before(steps, field, n) && before is None {
            let (i, j, v) = choose|i: int, j: int, v: Seq<char>| #[trigger]
                is_content(steps, i, j, v) && j < n && names_field(steps, i, field);
            if j < n - 1 {
                assert(field_content_before(steps, field, n - 1));
            }
            assert(is_content(steps, i, n - 1, v));
        }
        if before is Some {
            let (i, j, v) = choose|i: int, j: int, v: Seq<char>| #[trigger]
                is_content(steps, i, j, v) && j < n - 1 && names_field(steps, i, field);
            assert(is_content(steps, i, j, v) && j < n);
        } else if after is Some {
            let (i, v) = choose|i: int, v: Seq<char>| #[trigger]
                is_content(steps, i, n - 1, v) && names_field(steps, i, field);
            assert(is_content(steps, i, n - 1, v) && n - 1 < n);
        }
    }
}

proof fn lemma_field_stays(steps: Seq<XmlStep>, field: Field, n: int, m: int)
    requires
        0 <= n <= m <= steps.len(),
        read_first(steps, m) is Ok,
        field_of(read_first(steps, n)->Ok_0, field) is Some,
    ensures
        field_of(read_first(steps, m)->Ok_0, field) == field_of(read_first(steps, n)->Ok_0, field),
    decreases m - n,
{
    if n < m {
        lemma_readable_before(steps, m - 1, m);
        lemma_field_stays(steps, field, n, m - 1);
        lemma_field_after_step(steps, field, m - 1);
    }
}

proof fn lemma_first_content_is_the_field(
    steps: Seq<XmlStep>,
    field: Field,
    i: int,
    j: int,
    v: Seq<char>,
)
    requires
        read_through(nothing_read(), steps) is Ok,
        is_content(steps, i, j, v),
        names_field(steps, i, field),
        !field_content_before(steps, field, j),
    ensures
        field_of(read_through(nothing_read(), steps)->Ok_0, field) == Some(as_kept(field, v)),
{
    assert(steps.take(steps.len() as int) =~= steps);
    lemma_readable_before(steps, j + 1, steps.len() as int);
    lemma_readable_before(steps, j, steps.len() as int);
    lemma_field_after_steps(steps, field, j);
    lemma_field_after_step(steps, field, j);
    lemma_field_stays(steps, field, j + 1, steps.len() as int);
}

/// What an event says is what the document's elements hold: its type, its state
/// and its channel are each the content of the first element of that name, the
/// state by name and the channel sanitised, whatever the others say.
pub proof fn lemma_event_is_the_first_content(
    steps: Seq<XmlStep>,
    field: Field,
    i: int,
    j: int,
    v: Seq<char>,
)
    requires
        event_in(steps) is Ok,
        is_content(steps, i, j, v),
        names_field(steps, i, field),
        !field_content_before(steps, field, j),
    ensures
        field is Type ==> event_in(steps)->Ok_0 is Some && event_in(steps)->Ok_0->0.event_type == v,
        field is State && event_in(steps)->Ok_0 is Some ==> {
            let state = event_in(steps)->Ok_0->0.state;
            let name = lowered(trimmed(v));
            &&& state is Active <==> name == "active"@ || name == "true"@ || name == "1"@
            &&& state is Inactive <==> name == "inactive"@ || name == "false"@ || name == "0"@
            &&& !(state is Missing)
            &&& state matches StateView::Unknown(other) ==> other == name
        },
        field is Channel && event_in(steps)->Ok_0 is Some ==> event_in(steps)->Ok_0->0.channel
            == Some(sanitized(v)),
{
    lemma_first_content_is_the_field(steps, field, i, j, v);
    lemma_state_by_name(v);
}

/// What the document does not hold the event does not say: without content of
/// an `eventType` element there is no event, without that of an `eventState`
/// element the state is missing, without that of a channel element there is no
/// channel; and only then.
pub proof fn lemma_event_says_no_more(steps: Seq<XmlStep>)
    requires
        event_in(steps) is Ok,
    ensures
        event_in(steps)->Ok_0 is Some <==> field_content_before(
            steps,
            Field::Type,
            steps.len() as int,
        ),
        event_in(steps)->Ok_0 matches Some(event) ==> {
            &&& event.state is Missing <==> !field_content_before(
                steps,
                Field::State,
                steps.len() as int,
            )
            &&& event.channel is Some <==> field_content_before(
                steps,
                Field::Channel,
                steps.len() as int,
            )
        },
{
    assert(steps.take(steps.len() as int) =~= steps);
    lemma_field_after_steps(steps, Field::Type, steps.len() as int);
    lemma_field_after_steps(steps, Field::State, steps.len() as int);
    lemma_field_after_steps(steps, Field::Channel, steps.len() as int);
    if let Some(raw) = read_through(nothing_read(), steps)->Ok_0.event_state {
        lemma_state_by_name(raw);
    }
}

/// A document is refused exactly where a step fails or cannot be decoded, and
/// with the error of the first.
pub proof fn lemma_first_failure_is_the_error(steps: Seq<XmlStep>, n: int)
    requires
        0 <= n < steps.len(),
        forall|k: int|
            0 <= k < n ==> !(#[trigger] steps[k] is Failed) && !(steps[k] is Undecodable),
    ensures
        steps[n] matches XmlStep::Failed(e) ==> event_in(steps) == Err::<
            Option<EventView>,
            Seq<char>,
        >(e),
        steps[n] matches XmlStep::Undecodable(e) ==> event_in(steps) == Err::<
            Option<EventView>,
            Seq<char>,
        >(e),
        n == steps.len() - 1 && !(steps[n] is Failed) && !(steps[n] is Undecodable) ==> event_in(
            steps,
        ) is Ok,
{
    lemma_failure_from(nothing_read(), steps, n);
}

proof fn lemma_failure_from(f: FieldsView, steps: Seq<XmlStep>, n: int)
    requires
        0 <= n < steps.len(),
        forall|k: int|
            0 <= k < n ==> !(#[trigger] steps[k] is Failed) && !(steps[k] is Undecodable),
    ensures
        steps[n] matches XmlStep::Failed(e) ==> read_through(f, steps) == Err::<
            FieldsView,
            Seq<char>,
        >(e),
        steps[n] matches XmlStep::Undecodable(e) ==> read_through(f, steps) == Err::<
            FieldsView,
            Seq<char>,
        >(e),
        n == steps.len() - 1 && !(steps[n] is Failed) && !(steps[n] is Undecodable)
            ==> read_through(f, steps) is Ok,
    decreases n,
{
    if n > 0 {
        assert(!(steps[0] is Failed) && !(steps[0] is Undecodable));
        let rest = steps.drop_first();
        assert forall|k: int| 0 <= k < n - 1 implies !(#[trigger] rest[k] is Failed) && !(rest[k]
            is Undecodable) by {
            assert(steps[k + 1] == rest[k]);
        }
        assert(rest[n - 1] == steps[n]);
        lemma_failure_from(stepped(f, steps[0])->Ok_0, rest, n - 1);
    } else if stepped(f, steps[0]) is Ok && steps.len() == 1 {
        assert(steps.drop_first() =~= Seq::<XmlStep>::empty());
        assert(read_through(stepped(f, steps[0])->Ok_0, Seq::<XmlStep>::empty()) is Ok);
    }
}

/// What an event shows is what it holds.
pub proof fn lemma_event_shows_what_it_holds(event: CameraEvent)
    ensures
        event@.event_type == event.event_type@,
        event.channel is None <==> event@.channel is None,
        event.channel matches Some(channel) ==> event@.channel == Some(channel@),
        event.state is Active <==> event@.state is Active,
        event.state is Inactive <==> event@.state is Inactive,
        event.state is Missing <==> event@.state is Missing,
        event.state matches EventState::Unknown(raw) ==> event@.state == StateView::Unknown(raw@),
{
}

/// A channel is told whatever the state is: where a channel element is opened
/// and then has the content `v`, and none had content before, every event that
/// the document makes is of the channel that `v` names, sanitised.
pub proof fn lemma_channel_whatever_the_state(
    before: Seq<XmlStep>,
    name: Seq<u8>,
    v: Seq<char>,
    after: Seq<XmlStep>,
    steps: Seq<XmlStep>,
)
    requires
        steps == before.push(XmlStep::Start(name)).push(XmlStep::Text(v)) + after,
        local_part(name) == encode_utf8("channelID"@) || local_part(name) == encode_utf8(
            "dynChannelID"@,
        ),
        !field_content_before(steps, Field::Channel, (before.len() + 1) as int),
    ensures
        event_in(steps) matches Ok(Some(event)) ==> event.channel == Some(sanitized(v)),
        event_in(steps) is Ok && field_content_before(steps, Field::Type, steps.len() as int)
            ==> event_in(steps)->Ok_0 is Some,
{
    if event_in(steps) is Ok {
        let i = before.len() as int;
        assert(steps[i] == XmlStep::Start(name));
        assert(steps[i + 1] == XmlStep::Text(v));
        assert(is_content(steps, i, i + 1, v));
        lemma_event_is_the_first_content(steps, Field::Channel, i, i + 1, v);
        lemma_event_says_no_more(steps);
    }
}

} // verus!
