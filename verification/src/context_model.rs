//! The context manager as a state machine: what each record does to the
//! context stack, the timelines and the counters, and which events come out.

use crate::attributes::{integer_value, AttrValue, TimelineId};
use crate::event_record::{integer_at, raw_timestamp_at, string_at, with_interaction};
use crate::keys::{
    event_key, internal_event_key, internal_timeline_key, normalized_timeline_key, timeline_key,
};
use crate::opts::RtosMode;
use std::hash::{DefaultHasher, Hash, Hasher};
use vstd::prelude::*;
use vstd::string::*;

verus! {

/// A task or interrupt, identified by the hash of its name.
pub type ContextId = u64;

/// The hash of a context's name: what `DefaultHasher`, made by its `new`,
/// gives for the name hashed as a `str`.
pub uninterp spec fn context_hash(name: Seq<char>) -> u64;

/// Hashes a name with `DefaultHasher`: a hasher made by
/// `DefaultHasher::new` is the same each time, so one name always has one
/// hash.
#[verifier::external_body]
fn hash_name(name: &str) -> (h: u64)
    ensures
        h == context_hash(name@),
{
    let mut h = DefaultHasher::new();
    name.hash(&mut h);
    h.finish()
}

/// The identifier of the context with the name `ctx_name`.
pub fn context_id(ctx_name: &str) -> (id: ContextId)
    ensures
        id == context_hash(ctx_name@),
{
    hash_name(ctx_name)
}

/// The source of an interaction: an event on a timeline, given by its
/// nonce.
#[derive(Copy, Clone, PartialEq, Eq, Structural, Debug)]
pub struct Interaction {
    pub context: ContextId,
    pub timeline: TimelineId,
    pub nonce: i64,
}

/// What is known of one timeline.
pub struct TimelineState {
    pub id: TimelineId,
    pub ctx_id: ContextId,
    pub attrs: Map<Seq<char>, AttrValue>,
    /// The nonce of the last event on the timeline.
    pub nonce: i64,
    /// Whether a context switch has returned to this timeline and no event
    /// has been put on it since.
    pub needs_synthetic: bool,
}

/// An event as it leaves the manager.
pub struct EventSpec {
    pub context: ContextId,
    pub global_ordering: u128,
    pub record: Map<Seq<char>, AttrValue>,
    pub add_previous_event_nonce: bool,
}

/// The state of the manager between two records.
pub struct ManagerState {
    pub mode: RtosMode,
    pub init_task_name: Option<Seq<char>>,
    /// Whether interactions are drawn on the visible keys.
    pub interactions: bool,
    /// The attributes that every timeline gets, in the order they are set.
    pub common: Seq<(Seq<char>, AttrValue)>,
    pub global_ordering: u128,
    pub event_counter: u64,
    pub last_timestamp: Option<u64>,
    pub integration_version: Option<u16>,
    pub pending: Option<Interaction>,
    /// The active contexts, the root first and the active one last.
    pub stack: Seq<ContextId>,
    /// The timelines in the order in which their contexts were first seen.
    pub timelines: Seq<TimelineState>,
}

/// What one record does: the state after it and the events it gives.
pub struct Step {
    pub state: ManagerState,
    pub events: Seq<EventSpec>,
}

/// The successor of a nonce: one more, wrapping from the largest value to
/// the smallest.
pub open spec fn wrapping_next(n: i64) -> i64 {
    if n == i64::MAX {
        i64::MIN
    } else {
        (n + 1) as i64
    }
}

/// One more than `n`, staying at the largest value.
pub open spec fn saturating_next(n: u128) -> u128 {
    if n == u128::MAX {
        n
    } else {
        (n + 1) as u128
    }
}

/// One more than `n`, staying at the largest value.
pub open spec fn saturating_next_u64(n: u64) -> u64 {
    if n == u64::MAX {
        n
    } else {
        (n + 1) as u64
    }
}

/// The first position at or after `i` of a timeline of the context `ctx`,
/// or the number of timelines where there is none.
pub open spec fn timeline_index(ts: Seq<TimelineState>, ctx: ContextId, i: int) -> int
    decreases ts.len() - i,
{
    if i < 0 || i >= ts.len() {
        ts.len() as int
    } else if ts[i].ctx_id == ctx {
        i
    } else {
        timeline_index(ts, ctx, i + 1)
    }
}

/// Whether the context `ctx` has a timeline.
pub open spec fn has_timeline(ts: Seq<TimelineState>, ctx: ContextId) -> bool {
    timeline_index(ts, ctx, 0) < ts.len()
}

/// The timeline of the context `ctx`.
pub open spec fn timeline_of(ts: Seq<TimelineState>, ctx: ContextId) -> TimelineState {
    ts[timeline_index(ts, ctx, 0)]
}

/// The timelines with that of the context `ctx` replaced by `t`.
pub open spec fn with_timeline(ts: Seq<TimelineState>, ctx: ContextId, t: TimelineState) -> Seq<
    TimelineState,
> {
    if has_timeline(ts, ctx) {
        ts.update(timeline_index(ts, ctx, 0), t)
    } else {
        ts
    }
}

/// `m` with the pairs of `s` from position `i` on set in turn, each key
/// normalized to a timeline key.
pub open spec fn with_timeline_attrs(
    m: Map<Seq<char>, AttrValue>,
    s: Seq<(Seq<char>, AttrValue)>,
    i: int,
) -> Map<Seq<char>, AttrValue>
    decreases s.len() - i,
{
    if i < 0 || i >= s.len() {
        m
    } else {
        with_timeline_attrs(m.insert(normalized_timeline_key(s[i].0), s[i].1), s, i + 1)
    }
}

/// The attributes that the timeline of a context is made with.
pub open spec fn first_timeline_attrs(name: Seq<char>, ctx: ContextId) -> Map<
    Seq<char>,
    AttrValue,
> {
    Map::empty().insert(timeline_key("name"@), AttrValue::String(name)).insert(
        internal_timeline_key("context.id"@),
        integer_value(ctx as int),
    )
}

/// The attributes of a new timeline: its name and context, the integration
/// version where one is known, the mode, and the common attributes.
pub open spec fn new_timeline_attrs(s: ManagerState, name: Seq<char>) -> Map<
    Seq<char>,
    AttrValue,
> {
    let a = first_timeline_attrs(name, context_hash(name));
    let b = match s.integration_version {
        Some(v) => a.insert(
            internal_timeline_key("integration_version"@),
            AttrValue::Integer(v as i64),
        ),
        None => a,
    };
    with_timeline_attrs(
        b.insert(internal_timeline_key("rtos_mode"@), AttrValue::String(s.mode.name())),
        s.common,
        0,
    )
}

/// The state with a timeline for the context named `name`: a new one with
/// the identifier `fresh` where the context had none.
pub open spec fn allocated(s: ManagerState, name: Seq<char>, fresh: TimelineId) -> ManagerState {
    if has_timeline(s.timelines, context_hash(name)) {
        s
    } else {
        ManagerState {
            timelines: s.timelines.push(
                TimelineState {
                    id: fresh,
                    ctx_id: context_hash(name),
                    attrs: new_timeline_attrs(s, name),
                    nonce: 0,
                    needs_synthetic: false,
                },
            ),
            ..s
        }
    }
}

/// The state with the context `ctx` made the active one.
pub open spec fn pushed(s: ManagerState, ctx: ContextId) -> ManagerState {
    ManagerState { stack: s.stack.push(ctx), ..s }
}

/// The record with the event counter stamped on it.
pub open spec fn counted_record(s: ManagerState, record: Map<Seq<char>, AttrValue>) -> Map<
    Seq<char>,
    AttrValue,
> {
    record.insert(
        internal_event_key("event_counter"@),
        integer_value(saturating_next_u64(s.event_counter) as int),
    )
}

/// The state with the record counted: the ordering and the event counter
/// advanced, the record's raw timestamp remembered where it has one.
pub open spec fn counted_state(s: ManagerState, record: Map<Seq<char>, AttrValue>) -> ManagerState {
    ManagerState {
        global_ordering: saturating_next(s.global_ordering),
        event_counter: saturating_next_u64(s.event_counter),
        last_timestamp: match raw_timestamp_at(counted_record(s, record)) {
            Some(t) => Some(t),
            None => s.last_timestamp,
        },
        ..s
    }
}

/// The state after an event is stamped on the timeline of `ctx`: the
/// timeline's nonce advanced, its need for a synthetic event gone.
pub open spec fn stamp_state(s: ManagerState, ctx: ContextId) -> ManagerState {
    let t = timeline_of(s.timelines, ctx);
    ManagerState {
        timelines: with_timeline(
            s.timelines,
            ctx,
            TimelineState { nonce: wrapping_next(t.nonce), needs_synthetic: false, ..t },
        ),
        ..s
    }
}

/// The event that stamping `record` on the timeline of `ctx` gives: the
/// record with the timeline's next nonce, and with the interaction that it
/// carries where it carries one.
pub open spec fn stamp_event(
    s: ManagerState,
    ctx: ContextId,
    record: Map<Seq<char>, AttrValue>,
    carried: Option<Interaction>,
) -> EventSpec {
    let stamped = record.insert(
        internal_event_key("nonce"@),
        AttrValue::Integer(wrapping_next(timeline_of(s.timelines, ctx).nonce)),
    );
    EventSpec {
        context: ctx,
        global_ordering: s.global_ordering,
        record: match carried {
            Some(i) => with_interaction(stamped, s.interactions, i.timeline, i.nonce),
            None => stamped,
        },
        add_previous_event_nonce: carried.is_some() && s.interactions,
    }
}

/// The name of the single context of the mode without an RTOS.
pub open spec fn single_context_name(s: ManagerState) -> Seq<char> {
    match s.init_task_name {
        Some(n) => n,
        None => "main"@,
    }
}

/// A record in the mode without an RTOS: the first record makes the single
/// context, and every record is stamped on it.
pub open spec fn step_plain(
    s: ManagerState,
    record: Map<Seq<char>, AttrValue>,
    fresh: TimelineId,
) -> Step {
    let rooted = if s.event_counter == 1 {
        pushed(
            allocated(s, single_context_name(s), fresh),
            context_hash(single_context_name(s)),
        )
    } else {
        s
    };
    let active = rooted.stack.last();
    Step {
        state: stamp_state(rooted, active),
        events: seq![stamp_event(rooted, active, record, None)],
    }
}

/// Whether `name` is the name of a context enter event.
pub open spec fn is_enter(name: Option<Seq<char>>) -> bool {
    name == Some("AUXON_TASK_ENTER"@) || name == Some("AUXON_INTERRUPT_ENTER"@)
}

/// Whether `name` is the name of a context exit event.
pub open spec fn is_exit(name: Option<Seq<char>>) -> bool {
    name == Some("AUXON_TASK_EXIT"@) || name == Some("AUXON_INTERRUPT_EXIT"@)
}

/// Whether `name` is the name of the start event.
pub open spec fn is_start(name: Option<Seq<char>>) -> bool {
    name == Some("AUXON_TRACE_START"@)
}

/// The name of the event of a record.
pub open spec fn event_name_of(record: Map<Seq<char>, AttrValue>) -> Option<Seq<char>> {
    string_at(record, event_key("name"@))
}

/// The context that a record names: its task, or else its interrupt.
pub open spec fn subject_of(record: Map<Seq<char>, AttrValue>) -> Option<Seq<char>> {
    match string_at(record, event_key("task"@)) {
        Some(t) => Some(t),
        None => string_at(record, event_key("isr"@)),
    }
}

/// The integration version that a record gives.
pub open spec fn version_of(record: Map<Seq<char>, AttrValue>) -> Option<u16> {
    match integer_at(record, event_key("version"@)) {
        Some(v) => Some(v as u16),
        None => None,
    }
}

/// Whether a record is a start event with all it has to carry: its name,
/// a task and a version.
pub open spec fn is_valid_start(record: Map<Seq<char>, AttrValue>) -> bool {
    is_start(event_name_of(record)) && string_at(record, event_key("task"@)).is_some()
        && version_of(record).is_some()
}

/// The first record is not a valid start event: the mode falls back to the
/// one without an RTOS, and the record goes unstamped on the timeline of
/// the unknown context.
pub open spec fn step_fallback(
    s: ManagerState,
    record: Map<Seq<char>, AttrValue>,
    fresh: TimelineId,
) -> Step {
    let plain = ManagerState { mode: RtosMode::NoRtos, ..s };
    let ctx = context_hash("UNKNOWN_CONTEXT"@);
    Step {
        state: pushed(allocated(plain, "UNKNOWN_CONTEXT"@, fresh), ctx),
        events: seq![
            EventSpec {
                context: ctx,
                global_ordering: s.global_ordering,
                record: record,
                add_previous_event_nonce: false,
            },
        ],
    }
}

/// The record of the synthetic event that bridges a return to a timeline
/// and the next switch away from it.
pub open spec fn synthetic_record(
    s: ManagerState,
    record: Map<Seq<char>, AttrValue>,
    nonce: i64,
) -> Map<Seq<char>, AttrValue> {
    let base = Map::empty().insert(
        event_key("name"@),
        AttrValue::String("AUXON_CONTEXT_RETURN"@),
    ).insert(internal_event_key("synthetic"@), AttrValue::Bool(true)).insert(
        internal_event_key("nonce"@),
        AttrValue::Integer(nonce),
    );
    let timed = if record.dom().contains(event_key("timestamp"@)) {
        base.insert(event_key("timestamp"@), record[event_key("timestamp"@)])
    } else {
        base
    };
    match s.pending {
        Some(p) => with_interaction(timed, s.interactions, p.timeline, p.nonce),
        None => timed,
    }
}

/// The synthetic event on the active timeline.
pub open spec fn synthetic_event(s: ManagerState, record: Map<Seq<char>, AttrValue>) -> EventSpec {
    let active = s.stack.last();
    EventSpec {
        context: active,
        global_ordering: s.global_ordering,
        record: synthetic_record(
            s,
            record,
            wrapping_next(timeline_of(s.timelines, active).nonce),
        ),
        add_previous_event_nonce: s.pending.is_some() && s.interactions,
    }
}

/// The state after the synthetic event: the active timeline stamped, the
/// pending interaction spent, one ordering value used.
pub open spec fn synthesized(s: ManagerState) -> ManagerState {
    ManagerState {
        pending: None,
        global_ordering: saturating_next(s.global_ordering),
        ..stamp_state(s, s.stack.last())
    }
}

/// Whether a switch away from the active timeline needs a synthetic event
/// first.
pub open spec fn needs_bridge(s: ManagerState) -> bool {
    timeline_of(s.timelines, s.stack.last()).needs_synthetic
}

/// A context is entered: its timeline is made if it is new, a synthetic
/// event bridges a return that had no event of its own, the context
/// becomes the active one, and the enter event carries the interaction
/// from the timeline that was left.
pub open spec fn step_enter(
    s: ManagerState,
    record: Map<Seq<char>, AttrValue>,
    name: Seq<char>,
    fresh: TimelineId,
) -> Step {
    let known = allocated(s, name, fresh);
    let bridged = if needs_bridge(known) {
        synthesized(known)
    } else {
        known
    };
    let active = bridged.stack.last();
    let left = timeline_of(bridged.timelines, active);
    let source = Interaction { context: active, timeline: left.id, nonce: left.nonce };
    let entered = ManagerState {
        timelines: with_timeline(
            bridged.timelines,
            active,
            TimelineState { needs_synthetic: false, ..left },
        ),
        stack: bridged.stack.push(context_hash(name)),
        pending: None,
        ..bridged
    };
    let event = stamp_event(entered, context_hash(name), record, Some(source));
    Step {
        state: stamp_state(entered, context_hash(name)),
        events: if needs_bridge(known) {
            seq![synthetic_event(known, record), event]
        } else {
            seq![event]
        },
    }
}

/// The state after the active context is left: where it is not the root,
/// it is popped, the interaction from its next event is stashed, and the
/// timeline returned to is marked as in need of a synthetic event. Where
/// it is the root, nothing is popped and nothing is stashed.
pub open spec fn popped(s: ManagerState) -> ManagerState {
    if s.stack.len() <= 1 {
        ManagerState { pending: None, ..s }
    } else {
        let left = timeline_of(s.timelines, s.stack.last());
        let cleared = with_timeline(
            s.timelines,
            s.stack.last(),
            TimelineState { needs_synthetic: false, ..left },
        );
        let top = s.stack.drop_last().last();
        ManagerState {
            stack: s.stack.drop_last(),
            timelines: with_timeline(
                cleared,
                top,
                TimelineState { needs_synthetic: true, ..timeline_of(cleared, top) },
            ),
            pending: Some(
                Interaction {
                    context: s.stack.last(),
                    timeline: left.id,
                    nonce: wrapping_next(left.nonce),
                },
            ),
            ..s
        }
    }
}

/// A context is left: the exit event stays on the context that is left and
/// carries the interaction that was pending.
pub open spec fn step_exit(s: ManagerState, record: Map<Seq<char>, AttrValue>) -> Step {
    let ctx = s.stack.last();
    let after = popped(s);
    Step {
        state: stamp_state(after, ctx),
        events: seq![stamp_event(after, ctx, record, s.pending)],
    }
}

/// The name of the root context after a start event that names the task
/// `task`.
pub open spec fn root_name(s: ManagerState, task: Seq<char>) -> Seq<char> {
    match s.init_task_name {
        Some(n) => n,
        None => task,
    }
}

/// The start event: the integration version is taken from it, and the root
/// context is made and becomes the active one.
pub open spec fn step_start(
    s: ManagerState,
    record: Map<Seq<char>, AttrValue>,
    task: Seq<char>,
    fresh: TimelineId,
) -> Step {
    let versioned = ManagerState { integration_version: version_of(record), ..s };
    let ctx = context_hash(root_name(s, task));
    let rooted = pushed(allocated(versioned, root_name(s, task), fresh), ctx);
    Step { state: stamp_state(rooted, ctx), events: seq![stamp_event(rooted, ctx, record, None)] }
}

/// Any other event goes on the active timeline and carries the pending
/// interaction. An enter event that names no context first makes the mode
/// fall back to the one without an RTOS, with the unknown context active
/// and nothing pending.
pub open spec fn step_other(
    s: ManagerState,
    record: Map<Seq<char>, AttrValue>,
    fresh: TimelineId,
) -> Step {
    let settled = if is_enter(event_name_of(record)) {
        ManagerState {
            pending: None,
            ..pushed(
                allocated(ManagerState { mode: RtosMode::NoRtos, ..s }, "UNKNOWN_CONTEXT"@, fresh),
                context_hash("UNKNOWN_CONTEXT"@),
            )
        }
    } else {
        s
    };
    let active = settled.stack.last();
    let spent = ManagerState { pending: None, ..settled };
    Step {
        state: stamp_state(spent, active),
        events: seq![stamp_event(spent, active, record, settled.pending)],
    }
}

/// A record in the RTIC version 1 mode.
pub open spec fn step_rtic1(
    s: ManagerState,
    record: Map<Seq<char>, AttrValue>,
    fresh: TimelineId,
) -> Step {
    if s.event_counter == 1 && s.integration_version.is_none() && !is_valid_start(record) {
        step_fallback(s, record, fresh)
    } else if is_enter(event_name_of(record)) && subject_of(record).is_some() {
        step_enter(s, record, subject_of(record).unwrap(), fresh)
    } else if is_exit(event_name_of(record)) {
        step_exit(s, record)
    } else if is_start(event_name_of(record)) && subject_of(record).is_some() && s.event_counter
        == 1 {
        step_start(s, record, subject_of(record).unwrap(), fresh)
    } else {
        step_other(s, record, fresh)
    }
}

/// What the record `record` does in the state `s`, where a timeline that
/// has to be made gets the identifier `fresh`.
pub open spec fn step(
    s: ManagerState,
    record: Map<Seq<char>, AttrValue>,
    fresh: TimelineId,
) -> Step {
    let counted = counted_state(s, record);
    if counted.mode == RtosMode::Rtic1 {
        step_rtic1(counted, counted_record(s, record), fresh)
    } else {
        step_plain(counted, counted_record(s, record), fresh)
    }
}

/// Whether a state is one that the manager can be in: before the first
/// record nothing is active and no version is known, after it some context
/// is active, and every active context has a timeline. Before the first
/// record there is no timeline.
pub open spec fn valid_state(s: ManagerState) -> bool {
    &&& s.event_counter == 0 ==> s.stack.len() == 0 && s.integration_version.is_none()
        && s.timelines.len() == 0
    &&& s.event_counter > 0 ==> s.stack.len() > 0
    &&& forall|i: int| 0 <= i < s.stack.len() ==> has_timeline(s.timelines, #[trigger] s.stack[i])
}

/// The state of a manager that has seen no record.
pub open spec fn initial_state(
    mode: RtosMode,
    init_task_name: Option<Seq<char>>,
    interactions: bool,
    common: Seq<(Seq<char>, AttrValue)>,
) -> ManagerState {
    ManagerState {
        mode,
        init_task_name,
        interactions,
        common,
        global_ordering: 0,
        event_counter: 0,
        last_timestamp: None,
        integration_version: None,
        pending: None,
        stack: Seq::empty(),
        timelines: Seq::empty(),
    }
}

/// The position found for a context lies within the timelines, holds a
/// timeline of that context, and is the first that does.
pub proof fn lemma_timeline_index_bounds(ts: Seq<TimelineState>, ctx: ContextId, i: int)
    requires
        0 <= i <= ts.len(),
    ensures
        i <= timeline_index(ts, ctx, i) <= ts.len(),
        timeline_index(ts, ctx, i) < ts.len() ==> ts[timeline_index(ts, ctx, i)].ctx_id == ctx,
        forall|k: int| i <= k < timeline_index(ts, ctx, i) ==> (#[trigger] ts[k]).ctx_id != ctx,
    decreases ts.len() - i,
{
    if i < ts.len() && ts[i].ctx_id != ctx {
        lemma_timeline_index_bounds(ts, ctx, i + 1);
    }
}

/// Replacing a timeline by one of the same context moves no timeline.
pub proof fn lemma_timeline_index_update(
    ts: Seq<TimelineState>,
    j: int,
    t: TimelineState,
    ctx: ContextId,
    i: int,
)
    requires
        0 <= j < ts.len(),
        t.ctx_id == ts[j].ctx_id,
        0 <= i <= ts.len(),
    ensures
        timeline_index(ts.update(j, t), ctx, i) == timeline_index(ts, ctx, i),
    decreases ts.len() - i,
{
    if i < ts.len() && ts[i].ctx_id != ctx {
        lemma_timeline_index_update(ts, j, t, ctx, i + 1);
    }
}

/// A new timeline at the end moves no timeline, and is found for its own
/// context where that context had none.
pub proof fn lemma_timeline_index_push(
    ts: Seq<TimelineState>,
    t: TimelineState,
    ctx: ContextId,
    i: int,
)
    requires
        0 <= i <= ts.len(),
    ensures
        timeline_index(ts, ctx, i) < ts.len() ==> timeline_index(ts.push(t), ctx, i)
            == timeline_index(ts, ctx, i),
        timeline_index(ts, ctx, i) == ts.len() && t.ctx_id == ctx ==> timeline_index(
            ts.push(t),
            ctx,
            i,
        ) == ts.len(),
        timeline_index(ts, ctx, i) == ts.len() && t.ctx_id != ctx ==> timeline_index(
            ts.push(t),
            ctx,
            i,
        ) == ts.len() + 1,
    decreases ts.len() - i,
{
    if i < ts.len() {
        if ts[i].ctx_id != ctx {
            lemma_timeline_index_push(ts, t, ctx, i + 1);
        }
    } else {
        assert(ts.push(t)[i] == t);
        if t.ctx_id != ctx {
            assert(timeline_index(ts.push(t), ctx, i + 1) == ts.len() + 1);
        }
    }
}

/// Replacing the timeline of a context by one of the same context keeps
/// every context's timeline where it was, and keeps the timelines of the
/// other contexts as they were.
pub proof fn lemma_with_timeline(
    ts: Seq<TimelineState>,
    ctx: ContextId,
    t: TimelineState,
    other: ContextId,
)
    requires
        t.ctx_id == ctx,
    ensures
        with_timeline(ts, ctx, t).len() == ts.len(),
        timeline_index(with_timeline(ts, ctx, t), other, 0) == timeline_index(ts, other, 0),
        has_timeline(with_timeline(ts, ctx, t), other) == has_timeline(ts, other),
        has_timeline(ts, ctx) ==> timeline_of(with_timeline(ts, ctx, t), ctx) == t,
        other != ctx && has_timeline(ts, other) ==> timeline_of(with_timeline(ts, ctx, t), other)
            == timeline_of(ts, other),
{
    lemma_timeline_index_bounds(ts, ctx, 0);
    lemma_timeline_index_bounds(ts, other, 0);
    if has_timeline(ts, ctx) {
        lemma_timeline_index_update(ts, timeline_index(ts, ctx, 0), t, other, 0);
        lemma_timeline_index_update(ts, timeline_index(ts, ctx, 0), t, ctx, 0);
    }
}

/// Making a context's timeline keeps every timeline that there was, and
/// the context has one afterwards.
pub proof fn lemma_allocated(s: ManagerState, name: Seq<char>, fresh: TimelineId, other: ContextId)
    ensures
        has_timeline(allocated(s, name, fresh).timelines, context_hash(name)),
        has_timeline(s.timelines, other) ==> has_timeline(
            allocated(s, name, fresh).timelines,
            other,
        ) && timeline_of(allocated(s, name, fresh).timelines, other) == timeline_of(
            s.timelines,
            other,
        ),
        !has_timeline(s.timelines, context_hash(name)) ==> timeline_of(
            allocated(s, name, fresh).timelines,
            context_hash(name),
        ).nonce == 0,
        allocated(s, name, fresh).stack == s.stack,
        allocated(s, name, fresh).event_counter == s.event_counter,
        allocated(s, name, fresh).global_ordering == s.global_ordering,
{
    let ctx = context_hash(name);
    lemma_timeline_index_bounds(s.timelines, ctx, 0);
    lemma_timeline_index_bounds(s.timelines, other, 0);
    if !has_timeline(s.timelines, ctx) {
        let t = allocated(s, name, fresh).timelines.last();
        lemma_timeline_index_push(s.timelines, t, ctx, 0);
        lemma_timeline_index_push(s.timelines, t, other, 0);
    }
}

/// Whether every active context has a timeline.
pub open spec fn covered(s: ManagerState) -> bool {
    forall|i: int| 0 <= i < s.stack.len() ==> has_timeline(s.timelines, #[trigger] s.stack[i])
}

/// The names of the instrumentation events differ from one another.
pub proof fn lemma_event_names_differ(name: Option<Seq<char>>)
    ensures
        is_start(name) ==> !is_enter(name) && !is_exit(name),
        is_enter(name) ==> !is_exit(name),
{
    reveal_strlit("AUXON_TRACE_START");
    reveal_strlit("AUXON_TASK_ENTER");
    reveal_strlit("AUXON_INTERRUPT_ENTER");
    reveal_strlit("AUXON_TASK_EXIT");
    reveal_strlit("AUXON_INTERRUPT_EXIT");
    assert("AUXON_TRACE_START"@.len() == 17);
    assert("AUXON_TASK_ENTER"@.len() == 16);
    assert("AUXON_INTERRUPT_ENTER"@.len() == 21);
    assert("AUXON_TASK_EXIT"@.len() == 15);
    assert("AUXON_INTERRUPT_EXIT"@.len() == 20);
}

/// Replacing a context's timeline by one of the same context leaves every
/// active context with a timeline.
pub proof fn lemma_replaced_covered(s: ManagerState, ctx: ContextId, t: TimelineState)
    requires
        covered(s),
        t.ctx_id == ctx,
    ensures
        covered(ManagerState { timelines: with_timeline(s.timelines, ctx, t), ..s }),
{
    assert forall|i: int| 0 <= i < s.stack.len() implies has_timeline(
        with_timeline(s.timelines, ctx, t),
        #[trigger] s.stack[i],
    ) by {
        lemma_with_timeline(s.timelines, ctx, t, s.stack[i]);
    }
}

/// Stamping an event leaves every active context with a timeline.
pub proof fn lemma_stamp_covered(s: ManagerState, ctx: ContextId)
    requires
        covered(s),
    ensures
        covered(stamp_state(s, ctx)),
        has_timeline(s.timelines, ctx) ==> has_timeline(stamp_state(s, ctx).timelines, ctx),
{
    let t = timeline_of(s.timelines, ctx);
    let u = TimelineState { nonce: wrapping_next(t.nonce), needs_synthetic: false, ..t };
    lemma_timeline_index_bounds(s.timelines, ctx, 0);
    if has_timeline(s.timelines, ctx) {
        lemma_replaced_covered(s, ctx, u);
        lemma_with_timeline(s.timelines, ctx, u, ctx);
    }
}

/// Making a timeline leaves every active context with a timeline, also
/// where the context it is made for becomes the active one.
pub proof fn lemma_allocated_covered(s: ManagerState, name: Seq<char>, fresh: TimelineId)
    requires
        covered(s),
    ensures
        covered(allocated(s, name, fresh)),
        covered(pushed(allocated(s, name, fresh), context_hash(name))),
{
    let a = allocated(s, name, fresh);
    assert forall|i: int| 0 <= i < s.stack.len() implies has_timeline(
        a.timelines,
        #[trigger] s.stack[i],
    ) by {
        lemma_allocated(s, name, fresh, s.stack[i]);
    }
    lemma_allocated(s, name, fresh, context_hash(name));
    let p = pushed(a, context_hash(name));
    assert forall|i: int| 0 <= i < p.stack.len() implies has_timeline(
        p.timelines,
        #[trigger] p.stack[i],
    ) by {
        if i < s.stack.len() {
            assert(p.stack[i] == s.stack[i]);
        }
    }
}

/// Leaving a context leaves every active context with a timeline, and
/// some context active.
pub proof fn lemma_popped_covered(s: ManagerState)
    requires
        covered(s),
        s.stack.len() > 0,
    ensures
        covered(popped(s)),
        popped(s).stack.len() > 0,
        has_timeline(popped(s).timelines, s.stack.last()),
{
    assert(has_timeline(s.timelines, s.stack[s.stack.len() - 1]));
    if s.stack.len() > 1 {
        let ctx = s.stack.last();
        let left = timeline_of(s.timelines, ctx);
        let t1 = TimelineState { needs_synthetic: false, ..left };
        lemma_timeline_index_bounds(s.timelines, ctx, 0);
        lemma_replaced_covered(s, ctx, t1);
        let mid = ManagerState { timelines: with_timeline(s.timelines, ctx, t1), ..s };
        let top = s.stack.drop_last().last();
        assert(top == s.stack[s.stack.len() - 2]);
        assert(has_timeline(mid.timelines, mid.stack[s.stack.len() - 2]));
        assert(has_timeline(mid.timelines, mid.stack[s.stack.len() - 1]));
        let t2 = TimelineState { needs_synthetic: true, ..timeline_of(mid.timelines, top) };
        lemma_timeline_index_bounds(mid.timelines, top, 0);
        lemma_replaced_covered(mid, top, t2);
        lemma_with_timeline(mid.timelines, top, t2, ctx);
        let fin = popped(s);
        assert forall|i: int| 0 <= i < fin.stack.len() implies has_timeline(
            fin.timelines,
            #[trigger] fin.stack[i],
        ) by {
            assert(fin.stack[i] == s.stack[i]);
            lemma_with_timeline(mid.timelines, top, t2, s.stack[i]);
            assert(has_timeline(mid.timelines, mid.stack[i]));
        }
    }
}

/// Entering a context leaves every active context with a timeline.
pub proof fn lemma_enter_covered(
    s: ManagerState,
    record: Map<Seq<char>, AttrValue>,
    name: Seq<char>,
    fresh: TimelineId,
)
    requires
        covered(s),
        s.stack.len() > 0,
    ensures
        covered(step_enter(s, record, name, fresh).state),
        step_enter(s, record, name, fresh).state.stack.len() > 0,
        step_enter(s, record, name, fresh).state.event_counter == s.event_counter,
{
    let ctx = context_hash(name);
    let known = allocated(s, name, fresh);
    lemma_allocated_covered(s, name, fresh);
    lemma_allocated(s, name, fresh, ctx);
    let bridged = if needs_bridge(known) {
        synthesized(known)
    } else {
        known
    };
    if needs_bridge(known) {
        lemma_stamp_covered(known, known.stack.last());
    }
    assert(covered(bridged)) by {
        assert forall|i: int| 0 <= i < bridged.stack.len() implies has_timeline(
            bridged.timelines,
            #[trigger] bridged.stack[i],
        ) by {
            if needs_bridge(known) {
                assert(stamp_state(known, known.stack.last()).stack[i] == bridged.stack[i]);
            } else {
                assert(known.stack[i] == bridged.stack[i]);
            }
        }
    }
    assert(has_timeline(bridged.timelines, ctx)) by {
        if needs_bridge(known) {
            let a = known.stack.last();
            let t = timeline_of(known.timelines, a);
            lemma_timeline_index_bounds(known.timelines, a, 0);
            assert(has_timeline(known.timelines, known.stack[known.stack.len() - 1]));
            lemma_with_timeline(
                known.timelines,
                a,
                TimelineState { nonce: wrapping_next(t.nonce), needs_synthetic: false, ..t },
                ctx,
            );
        }
    }
    let active = bridged.stack.last();
    assert(has_timeline(bridged.timelines, bridged.stack[bridged.stack.len() - 1]));
    let left = timeline_of(bridged.timelines, active);
    let t1 = TimelineState { needs_synthetic: false, ..left };
    lemma_timeline_index_bounds(bridged.timelines, active, 0);
    lemma_replaced_covered(bridged, active, t1);
    lemma_with_timeline(bridged.timelines, active, t1, ctx);
    let marked = ManagerState {
        timelines: with_timeline(bridged.timelines, active, t1),
        ..bridged
    };
    let entered = ManagerState {
        timelines: with_timeline(bridged.timelines, active, t1),
        stack: bridged.stack.push(ctx),
        pending: None,
        ..bridged
    };
    assert(covered(entered)) by {
        assert forall|i: int| 0 <= i < entered.stack.len() implies has_timeline(
            entered.timelines,
            #[trigger] entered.stack[i],
        ) by {
            if i < bridged.stack.len() {
                assert(entered.stack[i] == marked.stack[i]);
            }
        }
    }
    lemma_stamp_covered(entered, ctx);
}

/// A record leaves the manager in a state it can be in, with some context
/// active.
pub proof fn lemma_step_valid(s: ManagerState, record: Map<Seq<char>, AttrValue>, fresh: TimelineId)
    requires
        valid_state(s),
    ensures
        valid_state(step(s, record, fresh).state),
        step(s, record, fresh).state.stack.len() > 0,
        step(s, record, fresh).state.event_counter == saturating_next_u64(s.event_counter),
{
    let c = counted_state(s, record);
    let r = counted_record(s, record);
    lemma_event_names_differ(event_name_of(r));
    assert(covered(c));
    if c.mode == RtosMode::Rtic1 {
        if c.event_counter == 1 && c.integration_version.is_none() && !is_valid_start(r) {
            lemma_allocated_covered(
                ManagerState { mode: RtosMode::NoRtos, ..c },
                "UNKNOWN_CONTEXT"@,
                fresh,
            );
        } else if is_enter(event_name_of(r)) && subject_of(r).is_some() {
            lemma_enter_covered(c, r, subject_of(r).unwrap(), fresh);
        } else if is_exit(event_name_of(r)) {
            lemma_popped_covered(c);
            lemma_stamp_covered(popped(c), c.stack.last());
        } else if is_start(event_name_of(r)) && subject_of(r).is_some() && c.event_counter == 1 {
            let v = ManagerState { integration_version: version_of(r), ..c };
            let name = root_name(c, subject_of(r).unwrap());
            lemma_allocated_covered(v, name, fresh);
            lemma_stamp_covered(
                pushed(allocated(v, name, fresh), context_hash(name)),
                context_hash(name),
            );
        } else {
            if is_enter(event_name_of(r)) {
                let plain = ManagerState { mode: RtosMode::NoRtos, ..c };
                lemma_allocated_covered(plain, "UNKNOWN_CONTEXT"@, fresh);
                let settled = ManagerState {
                    pending: None,
                    ..pushed(
                        allocated(plain, "UNKNOWN_CONTEXT"@, fresh),
                        context_hash("UNKNOWN_CONTEXT"@),
                    )
                };
                let spent = ManagerState { pending: None, ..settled };
                assert(covered(spent));
                lemma_stamp_covered(spent, spent.stack.last());
            } else {
                let spent = ManagerState { pending: None, ..c };
                assert(covered(spent));
                lemma_stamp_covered(spent, spent.stack.last());
            }
        }
    } else {
        if c.event_counter == 1 {
            let name = single_context_name(c);
            lemma_allocated_covered(c, name, fresh);
            lemma_stamp_covered(
                pushed(allocated(c, name, fresh), context_hash(name)),
                context_hash(name),
            );
        } else {
            lemma_stamp_covered(c, c.stack.last());
        }
    }
}

} // verus!
