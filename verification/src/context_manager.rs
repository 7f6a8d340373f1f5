//! The context manager: puts every event on the timeline of the context it
//! belongs to, and draws the interactions between timelines at context
//! switches.

use crate::attributes::{AttrVal, Attributes, TimelineId};
use crate::config::{optional_text, PluginConfig};
use crate::context_laws::{
    lemma_events_have_timelines, lemma_same_replaced, lemma_same_stamped,
    lemma_timelines_persist, same_timelines,
};
use crate::context_model::{
    allocated, context_hash, context_id, counted_state, event_name_of, first_timeline_attrs,
    has_timeline, initial_state, is_enter, lemma_allocated, lemma_event_names_differ,
    lemma_popped_covered, lemma_step_valid, lemma_timeline_index_bounds, lemma_with_timeline,
    new_timeline_attrs, popped, stamp_event, stamp_state, step, step_enter, step_exit,
    step_fallback, step_other, step_plain, step_rtic1, step_start, synthesized, synthetic_event,
    timeline_index, timeline_of, valid_state, with_timeline, with_timeline_attrs, wrapping_next,
    ContextId, EventSpec, Interaction, ManagerState, Step, TimelineState,
};
use crate::error::Error;
use crate::event_record::{raw_timestamp_at, EventRecord};
use crate::keys::{
    internal_timeline_key, is_timeline_key, lemma_key_prefixes, normalize_timeline_key,
    normalized_timeline_key, timeline_key,
};
use crate::opts::RtosMode;
use crate::text::concat;
use vstd::prelude::*;
use vstd::string::*;

verus! {

/// An event with the context it belongs to and its place in the global
/// order.
#[derive(Debug)]
pub struct ContextEvent {
    pub context: ContextId,
    pub global_ordering: u128,
    pub record: EventRecord,
    /// Whether this event carries an interaction from the event before it,
    /// whose nonce then has to be visible.
    pub add_previous_event_nonce: bool,
}

impl View for ContextEvent {
    type V = EventSpec;

    open spec fn view(&self) -> EventSpec {
        EventSpec {
            context: self.context,
            global_ordering: self.global_ordering,
            record: self.record@,
            add_previous_event_nonce: self.add_previous_event_nonce,
        }
    }
}

/// The events that one record gives: a synthetic event first where one is
/// needed, then the event of the record.
#[derive(Debug)]
pub struct ActiveContext {
    pub events: Vec<ContextEvent>,
}

impl View for ActiveContext {
    type V = Seq<EventSpec>;

    open spec fn view(&self) -> Seq<EventSpec> {
        Seq::new(self.events@.len(), |i: int| self.events@[i]@)
    }
}

pub type TimelineAttributes = Attributes;

/// Makes a timeline identifier with `TimelineId::allocate`, which draws a
/// random UUID: nothing is promised of it.
#[verifier::external_body]
fn allocate_timeline_id() -> TimelineId {
    TimelineId(modality_api::TimelineId::allocate().get_raw().as_u128())
}

/// What is kept of the timeline of one context.
///
/// Every key of its attributes begins with `timeline.`.
#[derive(Debug)]
pub struct TimelineMeta {
    id: TimelineId,
    ctx_id: ContextId,
    attributes: TimelineAttributes,
    nonce: i64,
    requires_synthetic_interaction_event: bool,
}

impl View for TimelineMeta {
    type V = TimelineState;

    closed spec fn view(&self) -> TimelineState {
        TimelineState {
            id: self.id,
            ctx_id: self.ctx_id,
            attrs: self.attributes@,
            nonce: self.nonce,
            needs_synthetic: self.requires_synthetic_interaction_event,
        }
    }
}

impl TimelineMeta {
    #[verifier::type_invariant]
    spec fn well_formed(&self) -> bool {
        forall|k: Seq<char>| self.attributes@.dom().contains(k) ==> is_timeline_key(k)
    }

    /// The key of the timeline attribute `k`.
    pub fn attr_key(k: &str) -> (r: String)
        ensures
            r@ == timeline_key(k@),
    {
        concat("timeline.", k)
    }

    /// The key of the internal timeline attribute `k`.
    pub fn internal_attr_key(k: &str) -> (r: String)
        ensures
            r@ == internal_timeline_key(k@),
    {
        concat("timeline.internal.defmt.", k)
    }

    /// The timeline of a context that is seen for the first time, under a
    /// fresh identifier.
    fn new(ctx_name: &str, ctx_id: ContextId) -> (r: Self)
        ensures
            r@.ctx_id == ctx_id,
            r@.attrs == first_timeline_attrs(ctx_name@, ctx_id),
            r@.nonce == 0,
            !r@.needs_synthetic,
    {
        let mut tlm = TimelineMeta {
            id: allocate_timeline_id(),
            ctx_id,
            attributes: Attributes::new(),
            nonce: 0,
            requires_synthetic_interaction_event: false,
        };
        proof {
            lemma_key_prefixes("name"@);
            lemma_key_prefixes("context.id"@);
        }
        tlm.insert_attr(Self::attr_key("name"), AttrVal::from_str(ctx_name));
        tlm.insert_attr(Self::internal_attr_key("context.id"), AttrVal::from_u64(ctx_id));
        tlm
    }

    /// Sets the attribute `k`, normalized to a timeline key, to `v`.
    fn insert_attr(&mut self, k: String, v: AttrVal)
        ensures
            final(self)@ == (TimelineState {
                attrs: old(self)@.attrs.insert(normalized_timeline_key(k@), v@),
                ..old(self)@
            }),
    {
        proof {
            use_type_invariant(&*self);
            lemma_key_prefixes(k@);
        }
        let key: String = normalize_timeline_key(k.as_str());
        let mut attributes: Attributes = Attributes::new();
        core::mem::swap(&mut self.attributes, &mut attributes);
        attributes.insert(key, v);
        core::mem::swap(&mut self.attributes, &mut attributes);
    }

    /// Advances the nonce for the next event, wrapping at the largest value.
    fn increment_nonce(&mut self)
        ensures
            final(self)@ == (TimelineState {
                nonce: wrapping_next(old(self)@.nonce),
                ..old(self)@
            }),
    {
        proof {
            use_type_invariant(&*self);
        }
        self.nonce = self.nonce.wrapping_add(1);
    }

    /// Sets whether the timeline needs a synthetic event.
    fn set_requires_synthetic(&mut self, needed: bool)
        ensures
            final(self)@ == (TimelineState { needs_synthetic: needed, ..old(self)@ }),
    {
        proof {
            use_type_invariant(&*self);
        }
        self.requires_synthetic_interaction_event = needed;
    }

    /// The source of an interaction from the last event on this timeline.
    fn interaction_source(&self) -> (r: Interaction)
        ensures
            r == (Interaction {
                context: self@.ctx_id,
                timeline: self@.id,
                nonce: self@.nonce,
            }),
    {
        Interaction { context: self.ctx_id, timeline: self.id, nonce: self.nonce }
    }

    /// The source of an interaction from the event that comes next on this
    /// timeline.
    fn next_interaction_source(&self) -> (r: Interaction)
        ensures
            r == (Interaction {
                context: self@.ctx_id,
                timeline: self@.id,
                nonce: wrapping_next(self@.nonce),
            }),
    {
        Interaction { context: self.ctx_id, timeline: self.id, nonce: self.nonce.wrapping_add(1) }
    }

    /// The identifier of the timeline.
    pub fn id(&self) -> (id: TimelineId)
        ensures
            id == self@.id,
    {
        self.id
    }

    /// The attributes of the timeline: every key begins with `timeline.`.
    pub fn attributes(&self) -> (a: &TimelineAttributes)
        ensures
            a@ == self@.attrs,
            forall|k: Seq<char>| a@.dom().contains(k) ==> is_timeline_key(k),
    {
        proof {
            use_type_invariant(self);
        }
        &self.attributes
    }
}

/// What is odd about the timestamp of a record, given the last timestamp
/// seen.
#[derive(Copy, Clone, PartialEq, Eq, Structural, Debug)]
pub enum TimestampIssue {
    /// The record has a timestamp below the last one: the target's clock
    /// may have rolled over.
    Backwards,
    /// The record has no timestamp though an earlier record had one.
    Missing,
}

/// What is odd about the timestamp `current` after the timestamp `last`.
pub open spec fn timestamp_issue_of(last: Option<u64>, current: Option<u64>) -> Option<
    TimestampIssue,
> {
    match (last, current) {
        (Some(l), Some(c)) => if c < l {
            Some(TimestampIssue::Backwards)
        } else {
            None
        },
        (Some(_), None) => Some(TimestampIssue::Missing),
        _ => None,
    }
}

/// What a list of timelines stands for.
pub open spec fn timeline_states(v: Seq<TimelineMeta>) -> Seq<TimelineState> {
    Seq::new(v.len(), |i: int| v[i]@)
}

/// Whether two texts are the same.
fn str_eq(a: &str, b: &str) -> (r: bool)
    ensures
        r == (a@ == b@),
{
    String::from_str(a) == String::from_str(b)
}

/// An owned copy of an optional text.
fn owned(o: Option<&str>) -> (r: Option<String>)
    ensures
        match (o, r) {
            (Some(a), Some(b)) => a@ == b@,
            (None, None) => true,
            _ => false,
        },
{
    match o {
        Some(s) => Some(String::from_str(s)),
        None => None,
    }
}

/// The manager of contexts and their timelines.
#[derive(Debug)]
pub struct ContextManager {
    cfg: PluginConfig,
    common_timeline_attrs: TimelineAttributes,
    global_ordering: u128,
    event_counter: u64,
    last_timestamp: Option<u64>,
    integration_version: Option<u16>,
    pending_context_switch_interaction: Option<Interaction>,
    context_stack: Vec<ContextId>,
    timelines: Vec<TimelineMeta>,
}

impl View for ContextManager {
    type V = ManagerState;

    closed spec fn view(&self) -> ManagerState {
        ManagerState {
            mode: self.cfg.rtos_mode,
            init_task_name: optional_text(self.cfg.init_task_name),
            interactions: !self.cfg.disable_interactions,
            common: self.common_timeline_attrs.pairs(),
            global_ordering: self.global_ordering,
            event_counter: self.event_counter,
            last_timestamp: self.last_timestamp,
            integration_version: self.integration_version,
            pending: self.pending_context_switch_interaction,
            stack: self.context_stack@,
            timelines: timeline_states(self.timelines@),
        }
    }
}

impl ContextManager {
    /// Whether the manager is in a state it can be in.
    pub open spec fn wf(&self) -> bool {
        valid_state(self@)
    }

    /// A manager that has seen no record.
    pub fn new(cfg: PluginConfig, common_timeline_attrs: TimelineAttributes) -> (r: Self)
        ensures
            r.wf(),
            r@ == initial_state(
                cfg.rtos_mode,
                optional_text(cfg.init_task_name),
                !cfg.disable_interactions,
                common_timeline_attrs.pairs(),
            ),
    {
        let r = ContextManager {
            cfg,
            common_timeline_attrs,
            global_ordering: 0,
            event_counter: 0,
            last_timestamp: None,
            integration_version: None,
            pending_context_switch_interaction: None,
            context_stack: Vec::new(),
            timelines: Vec::new(),
        };
        assert(r@.timelines =~= Seq::empty());
        assert(r@.stack =~= Seq::empty());
        r
    }

    /// The position of the timeline of `ctx`, or the number of timelines
    /// where it has none.
    fn find_timeline(&self, ctx: ContextId) -> (r: usize)
        ensures
            r == timeline_index(self@.timelines, ctx, 0),
            r <= self.timelines.len(),
            r < self.timelines.len() ==> self.timelines[r as int]@ == timeline_of(
                self@.timelines,
                ctx,
            ),
    {
        let mut i: usize = 0;
        while i < self.timelines.len() && self.timelines[i].ctx_id != ctx
            invariant
                i <= self.timelines.len(),
                timeline_index(self@.timelines, ctx, 0) == timeline_index(
                    self@.timelines,
                    ctx,
                    i as int,
                ),
            decreases self.timelines.len() - i,
        {
            i = i + 1;
        }
        i
    }

    /// The timeline of a context.
    pub fn timeline_meta(&self, context_id: ContextId) -> (r: Result<&TimelineMeta, Error>)
        ensures
            match r {
                Ok(t) => has_timeline(self@.timelines, context_id) && t@ == timeline_of(
                    self@.timelines,
                    context_id,
                ),
                Err(e) => !has_timeline(self@.timelines, context_id) && e
                    is ContextManagerInternalState,
            },
    {
        let i: usize = self.find_timeline(context_id);
        if i < self.timelines.len() {
            Ok(&self.timelines[i])
        } else {
            Err(Error::ContextManagerInternalState)
        }
    }

    /// The active context: the last of the stack.
    pub fn active_context(&self) -> (r: Result<ContextId, Error>)
        ensures
            match r {
                Ok(c) => self@.stack.len() > 0 && c == self@.stack.last(),
                Err(e) => self@.stack.len() == 0 && e is ContextManagerInternalState,
            },
    {
        if self.context_stack.len() == 0 {
            Err(Error::ContextManagerInternalState)
        } else {
            Ok(self.context_stack[self.context_stack.len() - 1])
        }
    }

    /// The number of records processed so far.
    pub fn event_counter(&self) -> (n: u64)
        ensures
            n == self@.event_counter,
    {
        self.event_counter
    }

    /// The raw timestamp of the last record that had one.
    pub fn last_timestamp(&self) -> (t: Option<u64>)
        ensures
            t == self@.last_timestamp,
    {
        self.last_timestamp
    }

    /// What is odd about the timestamp of a record that is about to be
    /// processed: worth a warning, and no reason to stop.
    pub fn timestamp_issue(&self, ev: &EventRecord) -> (r: Option<TimestampIssue>)
        ensures
            r == timestamp_issue_of(self@.last_timestamp, raw_timestamp_at(ev@)),
    {
        match (self.last_timestamp, ev.timestamp_raw()) {
            (Some(l), Some(c)) => if c < l {
                Some(TimestampIssue::Backwards)
            } else {
                None
            },
            (Some(_), None) => Some(TimestampIssue::Missing),
            _ => None,
        }
    }

    /// The integration version that the start event gave.
    pub fn integration_version(&self) -> (v: Option<u16>)
        ensures
            v == self@.integration_version,
    {
        self.integration_version
    }

    /// The mode that the manager is in.
    pub fn rtos_mode(&self) -> (m: RtosMode)
        ensures
            m == self@.mode,
    {
        self.cfg.rtos_mode
    }

    /// Makes the timeline of the context named `ctx_name` unless there is
    /// one, and gives the context's identifier.
    fn alloc_context(&mut self, ctx_name: &str) -> (r: (ContextId, Ghost<TimelineId>))
        ensures
            final(self)@ == allocated(old(self)@, ctx_name@, r.1@),
            r.0 == context_hash(ctx_name@),
    {
        let ctx_id: ContextId = context_id(ctx_name);
        let i: usize = self.find_timeline(ctx_id);
        if i < self.timelines.len() {
            return (ctx_id, Ghost(TimelineId(0)));
        }
        let mut tl_meta: TimelineMeta = TimelineMeta::new(ctx_name, ctx_id);
        proof {
            lemma_key_prefixes("integration_version"@);
            lemma_key_prefixes("rtos_mode"@);
        }
        match self.integration_version {
            Some(v) => {
                tl_meta.insert_attr(
                    TimelineMeta::internal_attr_key("integration_version"),
                    AttrVal::Integer(v as i64),
                );
            },
            None => {},
        }
        tl_meta.insert_attr(
            TimelineMeta::internal_attr_key("rtos_mode"),
            AttrVal::String(self.cfg.rtos_mode.to_string()),
        );
        let n: usize = self.common_timeline_attrs.len();
        let ghost common = self.common_timeline_attrs.pairs();
        let ghost target = new_timeline_attrs(self@, ctx_name@);
        let mut j: usize = 0;
        while j < n
            invariant
                j <= n,
                n == common.len(),
                common == self.common_timeline_attrs.pairs(),
                tl_meta@.ctx_id == ctx_id,
                tl_meta@.nonce == 0,
                !tl_meta@.needs_synthetic,
                target == with_timeline_attrs(tl_meta@.attrs, common, j as int),
            decreases n - j,
        {
            let k: String = self.common_timeline_attrs.key_at(j).clone();
            let v: AttrVal = self.common_timeline_attrs.value_at(j).clone();
            tl_meta.insert_attr(k, v);
            j = j + 1;
        }
        let ghost fresh = tl_meta@.id;
        let ghost before = self@;
        let ghost added = tl_meta@;
        self.timelines.push(tl_meta);
        assert(self@.timelines =~= before.timelines.push(added));
        (ctx_id, Ghost(fresh))
    }

    /// Marks the timeline of `ctx` as in need of a synthetic event, or as
    /// in need of none.
    fn mark(&mut self, ctx: ContextId, needed: bool)
        requires
            has_timeline(old(self)@.timelines, ctx),
        ensures
            final(self)@ == (ManagerState {
                timelines: with_timeline(
                    old(self)@.timelines,
                    ctx,
                    TimelineState {
                        needs_synthetic: needed,
                        ..timeline_of(old(self)@.timelines, ctx)
                    },
                ),
                ..old(self)@
            }),
    {
        let i: usize = self.find_timeline(ctx);
        let ghost before = self@;
        let t = &mut self.timelines[i];
        t.set_requires_synthetic(needed);
        assert(self@.timelines =~= before.timelines.update(
            i as int,
            TimelineState { needs_synthetic: needed, ..before.timelines[i as int] },
        ));
    }

    /// Advances the nonce of the timeline of `ctx` for an event on it.
    fn advance(&mut self, ctx: ContextId) -> (n: i64)
        requires
            has_timeline(old(self)@.timelines, ctx),
        ensures
            final(self)@ == stamp_state(old(self)@, ctx),
            n == wrapping_next(timeline_of(old(self)@.timelines, ctx).nonce),
    {
        let i: usize = self.find_timeline(ctx);
        let ghost before = self@;
        let t = &mut self.timelines[i];
        t.increment_nonce();
        t.set_requires_synthetic(false);
        let n: i64 = t.nonce;
        assert(self@.timelines =~= before.timelines.update(
            i as int,
            TimelineState {
                nonce: wrapping_next(before.timelines[i as int].nonce),
                needs_synthetic: false,
                ..before.timelines[i as int]
            },
        ));
        n
    }

    /// Stamps the record of an event on the timeline of `ctx`.
    fn stamp(&mut self, ctx: ContextId, ev: EventRecord, carried: Option<Interaction>) -> (r:
        ContextEvent)
        requires
            has_timeline(old(self)@.timelines, ctx),
        ensures
            final(self)@ == stamp_state(old(self)@, ctx),
            r@ == stamp_event(old(self)@, ctx, ev@, carried),
    {
        let mut record = ev;
        let global_ordering: u128 = self.global_ordering;
        let interactions: bool = !self.cfg.disable_interactions;
        let n: i64 = self.advance(ctx);
        record.add_internal_nonce(n);
        let add_previous_event_nonce: bool = match carried {
            Some(i) => {
                record.add_interaction(interactions, i.timeline, i.nonce);
                interactions
            },
            None => false,
        };
        ContextEvent { context: ctx, global_ordering, record, add_previous_event_nonce }
    }

    /// Makes the synthetic event on the active timeline.
    fn synthesize(&mut self, ev: &EventRecord) -> (r: ContextEvent)
        requires
            old(self)@.stack.len() > 0,
            has_timeline(old(self)@.timelines, old(self)@.stack.last()),
        ensures
            final(self)@ == synthesized(old(self)@),
            r@ == synthetic_event(old(self)@, ev@),
    {
        let active: ContextId = self.context_stack[self.context_stack.len() - 1];
        let global_ordering: u128 = self.global_ordering;
        let interactions: bool = !self.cfg.disable_interactions;
        let mut syn_record: EventRecord = EventRecord::new();
        syn_record.insert_event_attr("name", AttrVal::from_str("AUXON_CONTEXT_RETURN"));
        syn_record.insert_internal_attr("synthetic", AttrVal::Bool(true));
        let n: i64 = self.advance(active);
        syn_record.add_internal_nonce(n);
        let key: String = EventRecord::attr_key("timestamp");
        match ev.get(key.as_str()) {
            Some(ts) => {
                syn_record.insert_event_attr("timestamp", ts.clone());
            },
            None => {},
        }
        let add_previous_event_nonce: bool = match self.pending_context_switch_interaction {
            Some(p) => {
                syn_record.add_interaction(interactions, p.timeline, p.nonce);
                interactions
            },
            None => false,
        };
        self.pending_context_switch_interaction = None;
        self.global_ordering = self.global_ordering.saturating_add(1);
        ContextEvent {
            context: active,
            global_ordering,
            record: syn_record,
            add_previous_event_nonce,
        }
    }

    /// Leaves the active context, unless it is the root.
    fn pop_context(&mut self)
        requires
            valid_state(old(self)@),
            old(self)@.stack.len() > 0,
        ensures
            final(self)@ == popped(old(self)@),
    {
        if self.context_stack.len() <= 1 {
            self.pending_context_switch_interaction = None;
            return ;
        }
        let ghost before = self@;
        let left: ContextId = self.context_stack[self.context_stack.len() - 1];
        let top: ContextId = self.context_stack[self.context_stack.len() - 2];
        assert(has_timeline(before.timelines, before.stack[before.stack.len() - 1]));
        assert(has_timeline(before.timelines, before.stack[before.stack.len() - 2]));
        let i: usize = self.find_timeline(left);
        let source: Interaction = self.timelines[i].next_interaction_source();
        proof {
            lemma_timeline_index_bounds(before.timelines, left, 0);
            lemma_with_timeline(
                before.timelines,
                left,
                TimelineState { needs_synthetic: false, ..timeline_of(before.timelines, left) },
                top,
            );
        }
        self.mark(left, false);
        self.mark(top, true);
        let _ = self.context_stack.pop();
        self.pending_context_switch_interaction = Some(source);
        assert(self@.stack =~= before.stack.drop_last());
        assert(before.stack.drop_last().last() == top);
    }

    /// A record in the mode without an RTOS.
    fn process_plain(&mut self, ev: EventRecord) -> (r: (ActiveContext, Ghost<TimelineId>))
        requires
            old(self)@.event_counter > 0,
            old(self)@.event_counter != 1 ==> valid_state(old(self)@),
        ensures
            step_plain(old(self)@, ev@, r.1@) == (Step { state: final(self)@, events: r.0@ }),
    {
        let ghost before = self@;
        let mut fresh: Ghost<TimelineId> = Ghost(TimelineId(0));
        if self.event_counter == 1 {
            let name: String = match &self.cfg.init_task_name {
                Some(n) => n.clone(),
                None => String::from_str("main"),
            };
            let (ctx_id, id) = self.alloc_context(name.as_str());
            fresh = id;
            self.context_stack.push(ctx_id);
            proof {
                lemma_allocated(before, name@, fresh@, ctx_id);
            }
        }
        let active: ContextId = self.context_stack[self.context_stack.len() - 1];
        assert(has_timeline(self@.timelines, active));
        let event: ContextEvent = self.stamp(active, ev, None);
        let mut events: Vec<ContextEvent> = Vec::new();
        events.push(event);
        let r = ActiveContext { events };
        assert(r@ =~= step_plain(before, ev@, fresh@).events);
        (r, fresh)
    }

    /// A first record that is no valid start event.
    fn process_fallback(&mut self, ev: EventRecord) -> (r: (ActiveContext, Ghost<TimelineId>))
        ensures
            step_fallback(old(self)@, ev@, r.1@) == (Step { state: final(self)@, events: r.0@ }),
    {
        let ghost before = self@;
        self.cfg.rtos_mode = RtosMode::NoRtos;
        let (ctx_id, fresh) = self.alloc_context("UNKNOWN_CONTEXT");
        self.context_stack.push(ctx_id);
        let mut events: Vec<ContextEvent> = Vec::new();
        events.push(
            ContextEvent {
                context: ctx_id,
                global_ordering: self.global_ordering,
                record: ev,
                add_previous_event_nonce: false,
            },
        );
        let r = ActiveContext { events };
        assert(r@ =~= step_fallback(before, ev@, fresh@).events);
        (r, fresh)
    }

    /// A record that enters the context named `name`.
    fn process_enter(&mut self, ev: EventRecord, name: &str) -> (r: (
        ActiveContext,
        Ghost<TimelineId>,
    ))
        requires
            valid_state(old(self)@),
            old(self)@.stack.len() > 0,
        ensures
            step_enter(old(self)@, ev@, name@, r.1@) == (Step {
                state: final(self)@,
                events: r.0@,
            }),
    {
        let ghost before = self@;
        let (ctx_id, fresh) = self.alloc_context(name);
        let ghost known = self@;
        let active: ContextId = self.context_stack[self.context_stack.len() - 1];
        proof {
            assert(has_timeline(before.timelines, before.stack[before.stack.len() - 1]));
            lemma_allocated(before, name@, fresh@, active);
        }
        let mut events: Vec<ContextEvent> = Vec::new();
        let i: usize = self.find_timeline(active);
        if self.timelines[i].requires_synthetic_interaction_event {
            let synthetic: ContextEvent = self.synthesize(&ev);
            events.push(synthetic);
        }
        let ghost bridged = self@;
        proof {
            lemma_same_stamped(known, active);
        }
        let i: usize = self.find_timeline(active);
        let source: Interaction = self.timelines[i].interaction_source();
        self.mark(active, false);
        proof {
            lemma_same_replaced(
                bridged.timelines,
                active,
                TimelineState { needs_synthetic: false, ..timeline_of(bridged.timelines, active) },
            );
        }
        self.context_stack.push(ctx_id);
        self.pending_context_switch_interaction = None;
        let event: ContextEvent = self.stamp(ctx_id, ev, Some(source));
        events.push(event);
        let r = ActiveContext { events };
        assert(r@ =~= step_enter(before, ev@, name@, fresh@).events);
        (r, fresh)
    }

    /// A record that leaves the active context.
    fn process_exit(&mut self, ev: EventRecord) -> (r: ActiveContext)
        requires
            valid_state(old(self)@),
            old(self)@.stack.len() > 0,
        ensures
            step_exit(old(self)@, ev@) == (Step { state: final(self)@, events: r@ }),
    {
        let ghost before = self@;
        let ctx: ContextId = self.context_stack[self.context_stack.len() - 1];
        let carried: Option<Interaction> = self.pending_context_switch_interaction;
        proof {
            lemma_popped_covered(before);
        }
        self.pop_context();
        let event: ContextEvent = self.stamp(ctx, ev, carried);
        let mut events: Vec<ContextEvent> = Vec::new();
        events.push(event);
        let r = ActiveContext { events };
        assert(r@ =~= step_exit(before, ev@).events);
        r
    }

    /// The start event, which names the task `task`.
    fn process_start(&mut self, ev: EventRecord, task: &str) -> (r: (
        ActiveContext,
        Ghost<TimelineId>,
    ))
        ensures
            step_start(old(self)@, ev@, task@, r.1@) == (Step {
                state: final(self)@,
                events: r.0@,
            }),
    {
        let ghost before = self@;
        self.integration_version = ev.integration_version();
        let ghost versioned = self@;
        let name: String = match &self.cfg.init_task_name {
            Some(n) => n.clone(),
            None => String::from_str(task),
        };
        let (ctx_id, fresh) = self.alloc_context(name.as_str());
        self.context_stack.push(ctx_id);
        proof {
            lemma_allocated(versioned, name@, fresh@, ctx_id);
        }
        let event: ContextEvent = self.stamp(ctx_id, ev, None);
        let mut events: Vec<ContextEvent> = Vec::new();
        events.push(event);
        let r = ActiveContext { events };
        assert(r@ =~= step_start(before, ev@, task@, fresh@).events);
        (r, fresh)
    }

    /// Any other record: an event on the active timeline.
    fn process_other(&mut self, ev: EventRecord, nameless_enter: bool) -> (r: (
        ActiveContext,
        Ghost<TimelineId>,
    ))
        requires
            valid_state(old(self)@),
            old(self)@.stack.len() > 0,
            nameless_enter == is_enter(event_name_of(ev@)),
        ensures
            step_other(old(self)@, ev@, r.1@) == (Step { state: final(self)@, events: r.0@ }),
    {
        let ghost before = self@;
        let mut fresh: Ghost<TimelineId> = Ghost(TimelineId(0));
        if nameless_enter {
            self.cfg.rtos_mode = RtosMode::NoRtos;
            let ghost plain = self@;
            let (ctx_id, id) = self.alloc_context("UNKNOWN_CONTEXT");
            fresh = id;
            self.context_stack.push(ctx_id);
            self.pending_context_switch_interaction = None;
            proof {
                lemma_allocated(plain, "UNKNOWN_CONTEXT"@, fresh@, ctx_id);
            }
        } else {
            assert(has_timeline(before.timelines, before.stack[before.stack.len() - 1]));
        }
        let active: ContextId = self.context_stack[self.context_stack.len() - 1];
        let carried: Option<Interaction> = self.pending_context_switch_interaction;
        self.pending_context_switch_interaction = None;
        let event: ContextEvent = self.stamp(active, ev, carried);
        let mut events: Vec<ContextEvent> = Vec::new();
        events.push(event);
        let r = ActiveContext { events };
        assert(r@ =~= step_other(before, ev@, fresh@).events);
        (r, fresh)
    }

    /// A record in the RTIC version 1 mode.
    fn process_rtic1(&mut self, ev: EventRecord) -> (r: (ActiveContext, Ghost<TimelineId>))
        requires
            old(self)@.event_counter > 0,
            old(self)@.event_counter != 1 ==> valid_state(old(self)@),
            old(self)@.event_counter == 1 ==> old(self)@.integration_version.is_none() && old(
                self,
            )@.stack.len() == 0,
        ensures
            step_rtic1(old(self)@, ev@, r.1@) == (Step { state: final(self)@, events: r.0@ }),
    {
        let name_is_start: bool = match ev.event_name() {
            Some(n) => str_eq(n, "AUXON_TRACE_START"),
            None => false,
        };
        let name_is_enter: bool = match ev.event_name() {
            Some(n) => str_eq(n, "AUXON_TASK_ENTER") || str_eq(n, "AUXON_INTERRUPT_ENTER"),
            None => false,
        };
        let name_is_exit: bool = match ev.event_name() {
            Some(n) => str_eq(n, "AUXON_TASK_EXIT") || str_eq(n, "AUXON_INTERRUPT_EXIT"),
            None => false,
        };
        let task: Option<String> = owned(ev.task_name());
        let subject: Option<String> = match &task {
            Some(t) => Some(t.clone()),
            None => owned(ev.isr_name()),
        };
        let version: Option<u16> = ev.integration_version();
        let first: bool = self.event_counter == 1 && self.integration_version.is_none();
        proof {
            lemma_event_names_differ(event_name_of(ev@));
        }
        if first && !(name_is_start && task.is_some() && version.is_some()) {
            return self.process_fallback(ev);
        }
        match subject {
            Some(name) => {
                if name_is_enter {
                    self.process_enter(ev, name.as_str())
                } else if name_is_exit {
                    (self.process_exit(ev), Ghost(TimelineId(0)))
                } else if name_is_start && self.event_counter == 1 {
                    self.process_start(ev, name.as_str())
                } else {
                    self.process_other(ev, false)
                }
            },
            None => {
                if name_is_exit {
                    (self.process_exit(ev), Ghost(TimelineId(0)))
                } else {
                    self.process_other(ev, name_is_enter)
                }
            },
        }
    }

    /// Takes one record: counts it, puts it on the timeline of the context
    /// it belongs to, and gives the events that follow from it.
    pub fn process_record(&mut self, ev: EventRecord) -> (r: Result<ActiveContext, Error>)
        requires
            old(self).wf(),
        ensures
            final(self).wf(),
            r is Ok,
            exists|fresh: TimelineId| #[trigger]
                step(old(self)@, ev@, fresh) == (Step {
                    state: final(self)@,
                    events: r.unwrap()@,
                }),
            final(self)@.stack.len() > 0,
            1 <= r.unwrap()@.len() <= 2,
            same_timelines(old(self)@.timelines, final(self)@.timelines),
            forall|i: int|
                0 <= i < r.unwrap()@.len() ==> has_timeline(
                    final(self)@.timelines,
                    (#[trigger] r.unwrap()@[i]).context,
                ),
    {
        let ghost before = self@;
        let mut record = ev;
        self.global_ordering = self.global_ordering.saturating_add(1);
        self.event_counter = self.event_counter.saturating_add(1);
        record.insert_internal_attr("event_counter", AttrVal::from_u64(self.event_counter));
        match record.timestamp_raw() {
            Some(t) => {
                self.last_timestamp = Some(t);
            },
            None => {},
        }
        assert(self@ == counted_state(before, ev@));
        let (events, fresh) = if self.cfg.rtos_mode == RtosMode::Rtic1 {
            self.process_rtic1(record)
        } else {
            self.process_plain(record)
        };
        proof {
            assert(step(before, ev@, fresh@) == (Step { state: self@, events: events@ }));
            lemma_step_valid(before, ev@, fresh@);
            lemma_timelines_persist(before, ev@, fresh@);
            lemma_events_have_timelines(before, ev@, fresh@);
            assert forall|i: int| 0 <= i < events@.len() implies has_timeline(
                self@.timelines,
                (#[trigger] events@[i]).context,
            ) by {
                assert(step(before, ev@, fresh@).events[i] == events@[i]);
            }
        }
        Ok(events)
    }
}

} // verus!
