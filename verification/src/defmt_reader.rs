//! The streaming driver: from decoded frames to the events that are sent,
//! each held back by one event so that the event after it can ask for its
//! nonce to be shown.

use crate::attributes::{integer_value, AttrVal, AttrValue, Attributes, TimelineId};
use crate::builder::{decimal, push_decimal, record_of};
use crate::config::{optional_text, PluginConfig};
use crate::context_manager::{ContextEvent, ContextManager, TimelineAttributes, TimelineMeta};
use crate::context_model::{
    has_timeline, step, timeline_of, EventSpec, ManagerState, Step, TimelineState,
};
use crate::error::Error;
use crate::event_record::{lemma_promote_moves_nonce, pair_values, promoted, EventRecord};
use crate::frame::{format_guarded, parsed_format, Frame, Location};
use crate::keys::{event_key, internal_event_key, internal_timeline_key, timeline_key};
use crate::text::{chars_of, parse_signed_decimal, signed_decimal_value, string_of};
use crate::time::Rate;
use vstd::prelude::*;
use vstd::string::*;

verus! {

/// What became of an attempt to read bytes.
#[derive(Copy, Clone, PartialEq, Eq, Structural, Debug)]
pub enum ReadOutcome {
    /// The interruptor was set before the read.
    Interrupted,
    /// The read failed.
    Failed,
    /// The read gave this many bytes.
    Read(usize),
}

/// What the read loop does next.
#[derive(Copy, Clone, PartialEq, Eq, Structural, Debug)]
pub enum ReadStep {
    /// Hand the bytes to the decoder and decode frames.
    Decode,
    /// Leave the loop and send what is buffered.
    Finish,
}

/// What the decoder made of the bytes it holds.
#[derive(Copy, Clone, PartialEq, Eq, Structural, Debug)]
pub enum DecodeOutcome {
    Frame,
    NeedMoreBytes,
    Malformed,
}

/// What the decode loop does next.
#[derive(Copy, Clone, PartialEq, Eq, Structural, Debug)]
pub enum DecodeStep {
    /// Build the event of the frame, then decode again.
    Process,
    /// Drop what was malformed and decode again.
    Skip,
    /// Go back to reading.
    ReadMore,
}

/// How far the source locations of an ELF file cover its format strings.
#[derive(Copy, Clone, PartialEq, Eq, Structural, Debug)]
pub enum LocationCoverage {
    /// Every format string has a location: events get their source
    /// attributes.
    Complete,
    /// There are format strings and no location at all: the program was
    /// built without the debug information that locations are read from.
    Insufficient,
    /// Some format string has no location: the locations are left out of
    /// every event.
    Incomplete,
}

/// The coverage of the table indices `indices` by the indices `located`
/// that have a location.
pub open spec fn coverage_of(indices: Seq<u64>, located: Seq<u64>) -> LocationCoverage {
    if indices.len() > 0 && located.len() == 0 {
        LocationCoverage::Insufficient
    } else if forall|i: int| 0 <= i < indices.len() ==> located.contains(#[trigger] indices[i]) {
        LocationCoverage::Complete
    } else {
        LocationCoverage::Incomplete
    }
}

/// Whether `v` holds `x`.
fn holds(v: &Vec<u64>, x: u64) -> (r: bool)
    ensures
        r == v@.contains(x),
{
    let mut i: usize = 0;
    while i < v.len()
        invariant
            i <= v.len(),
            forall|j: int| 0 <= j < i ==> v@[j] != x,
        decreases v.len() - i,
    {
        if v[i] == x {
            return true;
        }
        i = i + 1;
    }
    false
}

/// Decides whether the locations read from an ELF file can be used: they
/// are used only where every format string of the table has one.
pub fn location_coverage(indices: &Vec<u64>, located: &Vec<u64>) -> (r: LocationCoverage)
    ensures
        r == coverage_of(indices@, located@),
{
    if indices.len() > 0 && located.len() == 0 {
        return LocationCoverage::Insufficient;
    }
    let mut i: usize = 0;
    while i < indices.len()
        invariant
            i <= indices.len(),
            !(indices.len() > 0 && located.len() == 0),
            forall|j: int| 0 <= j < i ==> located@.contains(#[trigger] indices@[j]),
        decreases indices.len() - i,
    {
        if !holds(located, indices[i]) {
            assert(!located@.contains(indices@[i as int]));
            return LocationCoverage::Incomplete;
        }
        i = i + 1;
    }
    LocationCoverage::Complete
}

/// What a reader that polls a channel does after one poll.
#[derive(Copy, Clone, PartialEq, Eq, Structural, Debug)]
pub enum PollStep {
    /// Hand the bytes on, after a pause of this many milliseconds.
    Deliver { bytes: usize, pause_ms: u64 },
    /// Poll again, after a pause of this many milliseconds.
    Retry { pause_ms: u64 },
}

/// The pause after a poll that gave bytes, in milliseconds: bytes are
/// flowing, and the channel is polled a thousand times a second.
pub const BUSY_POLL_PAUSE_MS: u64 = 1;

/// The pause after a poll that gave nothing, in milliseconds: the channel
/// is idle, and is polled ten times a second.
pub const IDLE_POLL_PAUSE_MS: u64 = 100;

/// After a poll: bytes are handed on after the short pause, and an idle
/// channel is polled again after the long one.
pub fn after_poll(bytes_read: usize) -> (step: PollStep)
    ensures
        step == (if bytes_read != 0 {
            PollStep::Deliver { bytes: bytes_read, pause_ms: BUSY_POLL_PAUSE_MS }
        } else {
            PollStep::Retry { pause_ms: IDLE_POLL_PAUSE_MS }
        }),
{
    if bytes_read != 0 {
        PollStep::Deliver { bytes: bytes_read, pause_ms: BUSY_POLL_PAUSE_MS }
    } else {
        PollStep::Retry { pause_ms: IDLE_POLL_PAUSE_MS }
    }
}

/// After a read: bytes are decoded; no bytes are the end of the input, and
/// so is a failure or an interruption.
pub fn after_read(outcome: ReadOutcome) -> (step: ReadStep)
    ensures
        step == ReadStep::Decode <==> (outcome matches ReadOutcome::Read(n) && n > 0),
        step == ReadStep::Finish <==> !(outcome matches ReadOutcome::Read(n) && n > 0),
{
    match outcome {
        ReadOutcome::Read(n) => if n > 0 {
            ReadStep::Decode
        } else {
            ReadStep::Finish
        },
        _ => ReadStep::Finish,
    }
}

/// After a decode: a frame is processed, a malformed frame is dropped, and
/// a frame that is not complete waits for more bytes.
pub fn after_decode(outcome: DecodeOutcome) -> (step: DecodeStep)
    ensures
        step == (match outcome {
            DecodeOutcome::Frame => DecodeStep::Process,
            DecodeOutcome::Malformed => DecodeStep::Skip,
            DecodeOutcome::NeedMoreBytes => DecodeStep::ReadMore,
        }),
{
    match outcome {
        DecodeOutcome::Frame => DecodeStep::Process,
        DecodeOutcome::Malformed => DecodeStep::Skip,
        DecodeOutcome::NeedMoreBytes => DecodeStep::ReadMore,
    }
}

/// One event as it is sent: the timeline to switch to, the attributes of
/// the timeline where it has not been sent before, and the event.
#[derive(Debug)]
pub struct Dispatch {
    pub timeline_id: TimelineId,
    pub new_timeline_attrs: Option<TimelineAttributes>,
    pub global_ordering: u128,
    pub record: EventRecord,
}

/// What a `Dispatch` stands for.
pub struct DispatchSpec {
    pub timeline_id: TimelineId,
    pub new_timeline_attrs: Option<Map<Seq<char>, AttrValue>>,
    pub global_ordering: u128,
    pub record: Map<Seq<char>, AttrValue>,
}

impl View for Dispatch {
    type V = DispatchSpec;

    open spec fn view(&self) -> DispatchSpec {
        DispatchSpec {
            timeline_id: self.timeline_id,
            new_timeline_attrs: match self.new_timeline_attrs {
                Some(a) => Some(a@),
                None => None,
            },
            global_ordering: self.global_ordering,
            record: self.record@,
        }
    }
}

/// What a list of dispatches stands for.
pub open spec fn dispatch_values(v: Seq<Dispatch>) -> Seq<DispatchSpec> {
    Seq::new(v.len(), |i: int| v[i]@)
}

/// The buffered event as it leaves the buffer when the event `next`
/// arrives: with its nonce promoted where `next` asks for that.
pub open spec fn released(buffered: EventSpec, next: EventSpec) -> EventSpec {
    EventSpec {
        record: if next.add_previous_event_nonce {
            promoted(buffered.record)
        } else {
            buffered.record
        },
        ..buffered
    }
}

/// The dispatch of an event: on the timeline of its context, with the
/// timeline's attributes where the timeline has not been seen before.
pub open spec fn dispatch_of(
    ts: Seq<TimelineState>,
    observed: Set<TimelineId>,
    e: EventSpec,
) -> DispatchSpec {
    DispatchSpec {
        timeline_id: timeline_of(ts, e.context).id,
        new_timeline_attrs: if observed.contains(timeline_of(ts, e.context).id) {
            None
        } else {
            Some(timeline_of(ts, e.context).attrs)
        },
        global_ordering: e.global_ordering,
        record: e.record,
    }
}

/// The buffer, the timelines seen and the dispatches sent.
pub struct Relay {
    pub buffered: Option<EventSpec>,
    pub observed: Set<TimelineId>,
    pub sent: Seq<DispatchSpec>,
}

/// The relay after the event `next` arrives: the buffered event, if there
/// is one, is sent, and `next` takes its place.
pub open spec fn relay_one(ts: Seq<TimelineState>, relay: Relay, next: EventSpec) -> Relay {
    match relay.buffered {
        Some(prev) => Relay {
            buffered: Some(next),
            observed: relay.observed.insert(timeline_of(ts, prev.context).id),
            sent: relay.sent.push(dispatch_of(ts, relay.observed, released(prev, next))),
        },
        None => Relay { buffered: Some(next), ..relay },
    }
}

/// The relay after the events from position `i` on arrive in turn.
pub open spec fn relay_all(
    ts: Seq<TimelineState>,
    relay: Relay,
    events: Seq<EventSpec>,
    i: int,
) -> Relay
    decreases events.len() - i,
{
    if i < 0 || i >= events.len() {
        relay
    } else {
        relay_all(ts, relay_one(ts, relay, events[i]), events, i + 1)
    }
}

/// The nonce of an event that leaves the buffer for an event that asks for
/// it is visible: it stands on the visible key with the value that the
/// internal key had.
pub proof fn lemma_released_nonce(buffered: EventSpec, next: EventSpec)
    requires
        next.add_previous_event_nonce,
        buffered.record.dom().contains(internal_event_key("nonce"@)),
    ensures
        released(buffered, next).record.dom().contains(event_key("nonce"@)),
        released(buffered, next).record[event_key("nonce"@)] == buffered.record[internal_event_key(
            "nonce"@,
        )],
        released(buffered, next).context == buffered.context,
        released(buffered, next).global_ordering == buffered.global_ordering,
{
    lemma_promote_moves_nonce(buffered.record);
}

/// The driver's state: the context manager, the one event held back, and
/// the timelines whose attributes have been sent.
#[derive(Debug)]
pub struct Pipeline {
    manager: ContextManager,
    buffered_event: Option<ContextEvent>,
    observed_timelines: Vec<TimelineId>,
}

impl Pipeline {
    /// The state of the context manager.
    pub closed spec fn manager(&self) -> ManagerState {
        self.manager@
    }

    /// The event that is held back.
    pub closed spec fn buffered(&self) -> Option<EventSpec> {
        match self.buffered_event {
            Some(e) => Some(e@),
            None => None,
        }
    }

    /// The timelines whose attributes have been sent.
    pub closed spec fn observed(&self) -> Set<TimelineId> {
        Set::new(|t: TimelineId| self.observed_timelines@.contains(t))
    }

    /// Whether the pipeline is in a state it can be in: the manager is, and
    /// the context of the event held back has a timeline.
    pub closed spec fn wf(&self) -> bool {
        &&& self.manager.wf()
        &&& match self.buffered_event {
            Some(e) => has_timeline(self.manager@.timelines, e.context),
            None => true,
        }
    }

    /// A pipeline that has seen no frame.
    pub fn new(cfg: PluginConfig, common_timeline_attrs: TimelineAttributes) -> (r: Self)
        ensures
            r.wf(),
            r.buffered().is_none(),
            r.observed() == Set::<TimelineId>::empty(),
    {
        let r = Pipeline {
            manager: ContextManager::new(cfg, common_timeline_attrs),
            buffered_event: None,
            observed_timelines: Vec::new(),
        };
        assert(r.observed() =~= Set::<TimelineId>::empty());
        r
    }

    /// The context manager.
    pub fn context_manager(&self) -> (m: &ContextManager)
        ensures
            m@ == self.manager(),
    {
        &self.manager
    }

    /// Notes that the attributes of a timeline are sent, and says whether
    /// they had not been sent before.
    fn observe(&mut self, id: TimelineId) -> (first: bool)
        ensures
            first == !old(self).observed().contains(id),
            final(self).observed() == old(self).observed().insert(id),
            final(self).manager == old(self).manager,
            final(self).buffered_event == old(self).buffered_event,
    {
        let mut i: usize = 0;
        while i < self.observed_timelines.len()
            invariant
                i <= self.observed_timelines.len(),
                forall|j: int| 0 <= j < i ==> self.observed_timelines@[j] != id,
            decreases self.observed_timelines.len() - i,
        {
            if self.observed_timelines[i] == id {
                assert(self.observed() =~= self.observed().insert(id));
                return false;
            }
            i = i + 1;
        }
        let ghost before = self.observed_timelines@;
        self.observed_timelines.push(id);
        assert(self.observed() =~= old(self).observed().insert(id)) by {
            assert forall|t: TimelineId|
                self.observed().contains(t) == old(self).observed().insert(id).contains(t) by {
                if before.contains(t) {
                    let j = choose|j: int| 0 <= j < before.len() && before[j] == t;
                    assert(self.observed_timelines@[j] == t);
                }
                if t == id {
                    assert(self.observed_timelines@[before.len() as int] == t);
                }
            }
        }
        true
    }

    /// Makes the dispatch of an event that leaves the buffer.
    fn dispatch(&mut self, event: ContextEvent) -> (r: Dispatch)
        requires
            old(self).manager.wf(),
            has_timeline(old(self).manager@.timelines, event.context),
        ensures
            r@ == dispatch_of(old(self).manager@.timelines, old(self).observed(), event@),
            final(self).observed() == old(self).observed().insert(
                timeline_of(old(self).manager@.timelines, event.context).id,
            ),
            final(self).manager == old(self).manager,
            final(self).buffered_event == old(self).buffered_event,
    {
        let (timeline_id, attrs) = match self.manager.timeline_meta(event.context) {
            Ok(timeline) => (timeline.id(), timeline.attributes().clone()),
            Err(_) => {
                assert(false);
                (TimelineId(0), Attributes::new())
            },
        };
        let first: bool = self.observe(timeline_id);
        Dispatch {
            timeline_id,
            new_timeline_attrs: if first {
                Some(attrs)
            } else {
                None
            },
            global_ordering: event.global_ordering,
            record: event.record,
        }
    }

    /// Takes the record of one frame: the context manager gives its events,
    /// and each event pushes the event held back out to be sent, with its
    /// nonce promoted where the new event asks for that.
    pub fn on_record(&mut self, record: EventRecord) -> (sent: Vec<Dispatch>)
        requires
            old(self).wf(),
        ensures
            final(self).wf(),
            final(self).buffered().is_some(),
            exists|fresh: TimelineId|
                {
                    &&& (#[trigger] step(old(self).manager(), record@, fresh)).state
                        == final(self).manager()
                    &&& relay_all(
                        final(self).manager().timelines,
                        Relay {
                            buffered: old(self).buffered(),
                            observed: old(self).observed(),
                            sent: Seq::empty(),
                        },
                        step(old(self).manager(), record@, fresh).events,
                        0,
                    ) == (Relay {
                        buffered: final(self).buffered(),
                        observed: final(self).observed(),
                        sent: dispatch_values(sent@),
                    })
                },
    {
        let ghost before = self.manager@;
        let ghost start = Relay {
            buffered: self.buffered(),
            observed: self.observed(),
            sent: Seq::empty(),
        };
        let mut events: Vec<ContextEvent> = match self.manager.process_record(record) {
            Ok(ctx) => ctx.events,
            Err(_) => Vec::new(),
        };
        let ghost fresh = choose|fresh: TimelineId| #[trigger]
            step(before, record@, fresh) == (Step {
                state: self.manager@,
                events: Seq::new(events@.len(), |i: int| events@[i]@),
            });
        let ghost all = step(before, record@, fresh).events;
        let ghost after = self.manager@;
        let ghost ts = self.manager@.timelines;
        let mut sent: Vec<Dispatch> = Vec::new();
        assert(dispatch_values(sent@) =~= start.sent);
        let n: usize = events.len();
        let mut i: usize = 0;
        while i < n
            invariant
                i <= n,
                n == all.len(),
                1 <= n <= 2,
                events@.len() == n - i,
                forall|k: int| 0 <= k < events@.len() ==> (#[trigger] events@[k])@ == all[i + k],
                ts == after.timelines,
                after == self.manager@,
                self.manager.wf(),
                self.wf(),
                i > 0 ==> self.buffered().is_some(),
                forall|k: int| 0 <= k < all.len() ==> has_timeline(ts, (#[trigger] all[k]).context),
                relay_all(ts, start, all, 0) == relay_all(
                    ts,
                    Relay {
                        buffered: self.buffered(),
                        observed: self.observed(),
                        sent: dispatch_values(sent@),
                    },
                    all,
                    i as int,
                ),
            decreases n - i,
        {
            let ghost relay = Relay {
                buffered: self.buffered(),
                observed: self.observed(),
                sent: dispatch_values(sent@),
            };
            let ev: ContextEvent = events.remove(0);
            assert(ev@ == all[i as int]);
            let mut previous: Option<ContextEvent> = None;
            core::mem::swap(&mut self.buffered_event, &mut previous);
            match previous {
                Some(prev) => {
                    let mut prev_event: ContextEvent = prev;
                    if ev.add_previous_event_nonce {
                        prev_event.record.promote_internal_nonce();
                    }
                    assert(prev_event@ == released(relay.buffered.unwrap(), ev@));
                    let d: Dispatch = self.dispatch(prev_event);
                    let ghost before_sent = sent@;
                    sent.push(d);
                    assert(dispatch_values(sent@) =~= dispatch_values(before_sent).push(d@));
                },
                None => {},
            }
            self.buffered_event = Some(ev);
            assert((Relay {
                buffered: self.buffered(),
                observed: self.observed(),
                sent: dispatch_values(sent@),
            }) == relay_one(ts, relay, all[i as int]));
            i = i + 1;
        }
        assert(step(before, record@, fresh).state == self.manager());
        assert(relay_all(ts, start, step(before, record@, fresh).events, 0) == (Relay {
            buffered: self.buffered(),
            observed: self.observed(),
            sent: dispatch_values(sent@),
        }));
        sent
    }

    /// Takes one frame: builds its record and hands it on. A frame whose
    /// format string cannot be read is an error, and leaves everything as
    /// it was.
    pub fn on_frame(&mut self, frame: Frame, location: Option<&Location>) -> (r: Result<
        Vec<Dispatch>,
        Error,
    >)
        requires
            old(self).wf(),
        ensures
            final(self).wf(),
            match r {
                Ok(sent) => {
                    &&& format_guarded(frame.format@)
                    &&& parsed_format(frame.format@).is_some()
                    &&& final(self).buffered().is_some()
                    &&& exists|fresh: TimelineId|
                        {
                            &&& (#[trigger] step(
                                old(self).manager(),
                                record_of(frame, location, parsed_format(frame.format@).unwrap()),
                                fresh,
                            )).state == final(self).manager()
                            &&& relay_all(
                                final(self).manager().timelines,
                                Relay {
                                    buffered: old(self).buffered(),
                                    observed: old(self).observed(),
                                    sent: Seq::empty(),
                                },
                                step(
                                    old(self).manager(),
                                    record_of(
                                        frame,
                                        location,
                                        parsed_format(frame.format@).unwrap(),
                                    ),
                                    fresh,
                                ).events,
                                0,
                            ) == (Relay {
                                buffered: final(self).buffered(),
                                observed: final(self).observed(),
                                sent: dispatch_values(sent@),
                            })
                        }
                },
                Err(e) => {
                    &&& e is DefmtParser
                    &&& !format_guarded(frame.format@) || parsed_format(frame.format@).is_none()
                    &&& final(self).manager() == old(self).manager()
                    &&& final(self).buffered() == old(self).buffered()
                    &&& final(self).observed() == old(self).observed()
                },
            },
    {
        match EventRecord::from_frame(frame, location) {
            Ok(record) => Ok(self.on_record(record)),
            Err(e) => Err(e),
        }
    }

    /// At the end of the input: the event held back, if there is one, is
    /// sent as it is.
    pub fn finish(&mut self) -> (last: Option<Dispatch>)
        requires
            old(self).wf(),
        ensures
            final(self).wf(),
            final(self).buffered().is_none(),
            final(self).manager() == old(self).manager(),
            match old(self).buffered() {
                Some(e) => last.is_some() && last.unwrap()@ == dispatch_of(
                    old(self).manager().timelines,
                    old(self).observed(),
                    e,
                ) && final(self).observed() == old(self).observed().insert(
                    timeline_of(old(self).manager().timelines, e.context).id,
                ),
                None => last.is_none() && final(self).observed() == old(self).observed(),
            },
    {
        let mut previous: Option<ContextEvent> = None;
        core::mem::swap(&mut self.buffered_event, &mut previous);
        match previous {
            Some(event) => Some(self.dispatch(event)),
            None => None,
        }
    }
}

/// `m` with the pairs of `s` from position `i` on set in turn under the
/// keys they have.
pub open spec fn with_given_attrs(
    m: Map<Seq<char>, AttrValue>,
    s: Seq<(Seq<char>, AttrValue)>,
    i: int,
) -> Map<Seq<char>, AttrValue>
    decreases s.len() - i,
{
    if i < 0 || i >= s.len() {
        m
    } else {
        with_given_attrs(m.insert(s[i].0, s[i].1), s, i + 1)
    }
}

/// The value of the run identifier: the configured one, as an integer
/// where it is the decimal form of one, or else a fresh one.
pub open spec fn run_id_value(configured: Option<Seq<char>>, fresh: Seq<char>) -> AttrValue {
    match configured {
        Some(id) => match signed_decimal_value(id) {
            Some(i) => AttrValue::Integer(i),
            None => AttrValue::String(id),
        },
        None => AttrValue::String(fresh),
    }
}

/// `m` with the attributes of a clock rate: the rate as a fraction, its
/// numerator and its denominator.
pub open spec fn with_clock_rate(m: Map<Seq<char>, AttrValue>, rate: Rate) -> Map<
    Seq<char>,
    AttrValue,
> {
    m.insert(
        timeline_key("clock_rate"@),
        AttrValue::String(
            decimal(rate.spec_numerator() as nat) + seq!['/'] + decimal(
                rate.spec_denominator() as nat,
            ),
        ),
    ).insert(
        timeline_key("clock_rate.numerator"@),
        integer_value(rate.spec_numerator() as int),
    ).insert(
        timeline_key("clock_rate.denominator"@),
        integer_value(rate.spec_denominator() as int),
    )
}

/// The attributes that every timeline gets: the additional attributes of
/// the configuration first, then the run, the table encoding, the clock and
/// its rate, and the overriding attributes of the configuration last.
pub open spec fn common_attrs(
    cfg: PluginConfig,
    additional: Seq<(Seq<char>, AttrValue)>,
    overrides: Seq<(Seq<char>, AttrValue)>,
    table_encoding: Seq<char>,
    fresh_run_id: Seq<char>,
    fresh_clock_id: Seq<char>,
) -> Map<Seq<char>, AttrValue> {
    let base = with_given_attrs(Map::empty(), additional, 0).insert(
        timeline_key("run_id"@),
        run_id_value(optional_text(cfg.run_id), fresh_run_id),
    ).insert(
        internal_timeline_key("table.encoding"@),
        AttrValue::String(table_encoding),
    ).insert(
        timeline_key("clock_id"@),
        AttrValue::String(
            match cfg.clock_id {
                Some(id) => id@,
                None => fresh_clock_id,
            },
        ),
    ).insert(timeline_key("clock_style"@), AttrValue::String("relative"@));
    with_given_attrs(
        match cfg.clock_rate {
            Some(rate) => with_clock_rate(base, rate),
            None => base,
        },
        overrides,
        0,
    )
}

/// Sets the given pairs in turn under the keys they have.
fn insert_given(attrs: &mut Attributes, given: &Vec<(String, AttrVal)>)
    ensures
        final(attrs)@ == with_given_attrs(old(attrs)@, pair_values(given@), 0),
{
    let mut i: usize = 0;
    while i < given.len()
        invariant
            i <= given.len(),
            with_given_attrs(old(attrs)@, pair_values(given@), 0) == with_given_attrs(
                attrs@,
                pair_values(given@),
                i as int,
            ),
        decreases given.len() - i,
    {
        let k: String = given[i].0.clone();
        let v: AttrVal = given[i].1.clone();
        attrs.insert(k, v);
        i = i + 1;
    }
}

/// Collects the attributes that every timeline gets. The fresh identifiers
/// are used where the configuration gives none.
pub fn common_timeline_attrs(
    cfg: &PluginConfig,
    additional: &Vec<(String, AttrVal)>,
    overrides: &Vec<(String, AttrVal)>,
    table_encoding: &str,
    fresh_run_id: &str,
    fresh_clock_id: &str,
) -> (r: TimelineAttributes)
    ensures
        r@ == common_attrs(
            *cfg,
            pair_values(additional@),
            pair_values(overrides@),
            table_encoding@,
            fresh_run_id@,
            fresh_clock_id@,
        ),
{
    let mut attrs: Attributes = Attributes::new();
    insert_given(&mut attrs, additional);
    let run_id: AttrVal = match &cfg.run_id {
        Some(id) => {
            let chars: Vec<char> = chars_of(id.as_str());
            match parse_signed_decimal(&chars) {
                Some(i) => AttrVal::Integer(i),
                None => AttrVal::from_str(id.as_str()),
            }
        },
        None => AttrVal::from_str(fresh_run_id),
    };
    attrs.insert(TimelineMeta::attr_key("run_id"), run_id);
    attrs.insert(
        TimelineMeta::internal_attr_key("table.encoding"),
        AttrVal::from_str(table_encoding),
    );
    let clock_id: AttrVal = match &cfg.clock_id {
        Some(id) => AttrVal::from_str(id.as_str()),
        None => AttrVal::from_str(fresh_clock_id),
    };
    attrs.insert(TimelineMeta::attr_key("clock_id"), clock_id);
    attrs.insert(TimelineMeta::attr_key("clock_style"), AttrVal::from_str("relative"));
    match &cfg.clock_rate {
        Some(rate) => {
            let mut text: Vec<char> = Vec::new();
            push_decimal(&mut text, rate.numerator());
            text.push('/');
            push_decimal(&mut text, rate.denominator());
            let rendered: String = string_of(&text, 0, text.len());
            assert(text@.subrange(0, text.len() as int) =~= text@);
            assert(text@ =~= decimal(rate.spec_numerator() as nat) + seq!['/'] + decimal(
                rate.spec_denominator() as nat,
            ));
            attrs.insert(TimelineMeta::attr_key("clock_rate"), AttrVal::String(rendered));
            attrs.insert(
                TimelineMeta::attr_key("clock_rate.numerator"),
                AttrVal::from_u64(rate.numerator()),
            );
            attrs.insert(
                TimelineMeta::attr_key("clock_rate.denominator"),
                AttrVal::from_u64(rate.denominator()),
            );
        },
        None => {},
    }
    insert_given(&mut attrs, overrides);
    attrs
}

/// Makes the text of a random UUID with `Uuid::new_v4`: nothing is
/// promised of it.
#[verifier::external_body]
fn fresh_uuid_text() -> String {
    modality_api::Uuid::new_v4().to_string()
}

/// Collects the attributes that every timeline gets, with a fresh random
/// identifier for the run and for the clock where the configuration gives
/// none.
pub fn fresh_common_timeline_attrs(
    cfg: &PluginConfig,
    additional: &Vec<(String, AttrVal)>,
    overrides: &Vec<(String, AttrVal)>,
    table_encoding: &str,
) -> (r: TimelineAttributes)
    ensures
        exists|run: Seq<char>, clock: Seq<char>|
            r@ == #[trigger] common_attrs(
                *cfg,
                pair_values(additional@),
                pair_values(overrides@),
                table_encoding@,
                run,
                clock,
            ),
{
    let run: String = match &cfg.run_id {
        Some(_) => String::new(),
        None => fresh_uuid_text(),
    };
    let clock: String = match &cfg.clock_id {
        Some(_) => String::new(),
        None => fresh_uuid_text(),
    };
    common_timeline_attrs(
        cfg,
        additional,
        overrides,
        table_encoding,
        run.as_str(),
        clock.as_str(),
    )
}

} // verus!
