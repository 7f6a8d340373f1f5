//! What holds of the context manager whatever the records are.

use crate::attributes::{AttrValue, TimelineId};
use crate::context_model::{
    allocated, context_hash, counted_record, counted_state, covered, event_name_of, has_timeline,
    is_enter, is_exit, is_start, is_valid_start, lemma_allocated, lemma_allocated_covered,
    lemma_enter_covered, lemma_event_names_differ, lemma_popped_covered, lemma_stamp_covered,
    lemma_step_valid, lemma_timeline_index_bounds, lemma_with_timeline, needs_bridge, popped,
    pushed, root_name, single_context_name, stamp_event, stamp_state, step, step_enter,
    subject_of, synthesized, timeline_of, valid_state, version_of, with_timeline, wrapping_next,
    ContextId, Interaction, ManagerState, TimelineState,
};
use crate::event_record::{integer_at, string_at};
use crate::keys::{event_key, internal_event_key};
use crate::opts::RtosMode;
use vstd::prelude::*;

verus! {

/// Whether every context with a timeline in `a` has one in `b`, with the
/// same identifier and the same attributes.
pub open spec fn same_timelines(a: Seq<TimelineState>, b: Seq<TimelineState>) -> bool {
    forall|c: ContextId| #[trigger]
        has_timeline(a, c) ==> has_timeline(b, c) && timeline_of(b, c).id == timeline_of(a, c).id
            && timeline_of(b, c).attrs == timeline_of(a, c).attrs
}

/// Whether `t` is `u` but for its nonce and its need for a synthetic event.
pub open spec fn same_timeline(t: TimelineState, u: TimelineState) -> bool {
    t.id == u.id && t.ctx_id == u.ctx_id && t.attrs == u.attrs
}

/// Replacing a timeline by one with the same identifier, context and
/// attributes keeps every timeline.
pub proof fn lemma_same_replaced(ts: Seq<TimelineState>, ctx: ContextId, t: TimelineState)
    requires
        has_timeline(ts, ctx) ==> same_timeline(t, timeline_of(ts, ctx)),
    ensures
        same_timelines(ts, with_timeline(ts, ctx, t)),
{
    lemma_timeline_index_bounds(ts, ctx, 0);
    assert forall|c: ContextId| #[trigger] has_timeline(ts, c) implies has_timeline(
        with_timeline(ts, ctx, t),
        c,
    ) && timeline_of(with_timeline(ts, ctx, t), c).id == timeline_of(ts, c).id && timeline_of(
        with_timeline(ts, ctx, t),
        c,
    ).attrs == timeline_of(ts, c).attrs by {
        if has_timeline(ts, ctx) {
            lemma_with_timeline(ts, ctx, t, c);
        }
    }
}

/// Stamping an event keeps every timeline.
pub proof fn lemma_same_stamped(s: ManagerState, ctx: ContextId)
    ensures
        same_timelines(s.timelines, stamp_state(s, ctx).timelines),
{
    let t = timeline_of(s.timelines, ctx);
    lemma_same_replaced(
        s.timelines,
        ctx,
        TimelineState { nonce: wrapping_next(t.nonce), needs_synthetic: false, ..t },
    );
}

/// Making a timeline keeps every timeline that there was.
pub proof fn lemma_same_allocated(s: ManagerState, name: Seq<char>, fresh: TimelineId)
    ensures
        same_timelines(s.timelines, allocated(s, name, fresh).timelines),
{
    assert forall|c: ContextId| #[trigger] has_timeline(s.timelines, c) implies has_timeline(
        allocated(s, name, fresh).timelines,
        c,
    ) && timeline_of(allocated(s, name, fresh).timelines, c).id == timeline_of(s.timelines, c).id
        && timeline_of(allocated(s, name, fresh).timelines, c).attrs == timeline_of(
        s.timelines,
        c,
    ).attrs by {
        lemma_allocated(s, name, fresh, c);
    }
}

/// Leaving a context keeps every timeline.
pub proof fn lemma_same_popped(s: ManagerState)
    ensures
        same_timelines(s.timelines, popped(s).timelines),
{
    if s.stack.len() > 1 {
        let left = timeline_of(s.timelines, s.stack.last());
        let t1 = TimelineState { needs_synthetic: false, ..left };
        lemma_same_replaced(s.timelines, s.stack.last(), t1);
        let cleared = with_timeline(s.timelines, s.stack.last(), t1);
        let top = s.stack.drop_last().last();
        lemma_same_replaced(
            cleared,
            top,
            TimelineState { needs_synthetic: true, ..timeline_of(cleared, top) },
        );
    }
}

/// Entering a context keeps every timeline that there was.
pub proof fn lemma_same_entered(
    s: ManagerState,
    record: Map<Seq<char>, AttrValue>,
    name: Seq<char>,
    fresh: TimelineId,
)
    ensures
        same_timelines(s.timelines, step_enter(s, record, name, fresh).state.timelines),
{
    let known = allocated(s, name, fresh);
    lemma_same_allocated(s, name, fresh);
    let bridged = if needs_bridge(known) {
        synthesized(known)
    } else {
        known
    };
    lemma_same_stamped(known, known.stack.last());
    let active = bridged.stack.last();
    let left = timeline_of(bridged.timelines, active);
    let t1 = TimelineState { needs_synthetic: false, ..left };
    lemma_same_replaced(bridged.timelines, active, t1);
    let entered = ManagerState {
        timelines: with_timeline(bridged.timelines, active, t1),
        stack: bridged.stack.push(context_hash(name)),
        pending: None,
        ..bridged
    };
    lemma_same_stamped(entered, context_hash(name));
}

/// A context keeps its timeline: whatever the record, every context that
/// has a timeline has the same timeline afterwards, with the same
/// identifier and attributes.
pub proof fn lemma_timelines_persist(
    s: ManagerState,
    record: Map<Seq<char>, AttrValue>,
    fresh: TimelineId,
)
    ensures
        same_timelines(s.timelines, step(s, record, fresh).state.timelines),
{
    let c = counted_state(s, record);
    let r = counted_record(s, record);
    if c.mode == RtosMode::Rtic1 {
        if c.event_counter == 1 && c.integration_version.is_none() && !is_valid_start(r) {
            lemma_same_allocated(
                ManagerState { mode: RtosMode::NoRtos, ..c },
                "UNKNOWN_CONTEXT"@,
                fresh,
            );
        } else if is_enter(event_name_of(r)) && subject_of(r).is_some() {
            lemma_same_entered(c, r, subject_of(r).unwrap(), fresh);
        } else if is_exit(event_name_of(r)) {
            lemma_same_popped(c);
            lemma_same_stamped(popped(c), c.stack.last());
        } else if is_start(event_name_of(r)) && subject_of(r).is_some() && c.event_counter == 1 {
            let v = ManagerState { integration_version: version_of(r), ..c };
            let name = root_name(c, subject_of(r).unwrap());
            lemma_same_allocated(v, name, fresh);
            lemma_same_stamped(
                pushed(allocated(v, name, fresh), context_hash(name)),
                context_hash(name),
            );
        } else {
            if is_enter(event_name_of(r)) {
                let plain = ManagerState { mode: RtosMode::NoRtos, ..c };
                lemma_same_allocated(plain, "UNKNOWN_CONTEXT"@, fresh);
                let settled = ManagerState {
                    pending: None,
                    ..pushed(
                        allocated(plain, "UNKNOWN_CONTEXT"@, fresh),
                        context_hash("UNKNOWN_CONTEXT"@),
                    )
                };
                let spent = ManagerState { pending: None, ..settled };
                lemma_same_stamped(spent, spent.stack.last());
            } else {
                let spent = ManagerState { pending: None, ..c };
                lemma_same_stamped(spent, spent.stack.last());
            }
        }
    } else {
        if c.event_counter == 1 {
            let name = single_context_name(c);
            lemma_same_allocated(c, name, fresh);
            lemma_same_stamped(
                pushed(allocated(c, name, fresh), context_hash(name)),
                context_hash(name),
            );
        } else {
            lemma_same_stamped(c, c.stack.last());
        }
    }
}

/// Every event that a record gives belongs to a context that has a
/// timeline afterwards.
pub proof fn lemma_events_have_timelines(
    s: ManagerState,
    record: Map<Seq<char>, AttrValue>,
    fresh: TimelineId,
)
    requires
        valid_state(s),
    ensures
        forall|i: int|
            0 <= i < step(s, record, fresh).events.len() ==> has_timeline(
                step(s, record, fresh).state.timelines,
                (#[trigger] step(s, record, fresh).events[i]).context,
            ),
{
    let c = counted_state(s, record);
    let r = counted_record(s, record);
    lemma_event_names_differ(event_name_of(r));
    assert(covered(c));
    if c.mode == RtosMode::Rtic1 {
        if c.event_counter == 1 && c.integration_version.is_none() && !is_valid_start(r) {
            let plain = ManagerState { mode: RtosMode::NoRtos, ..c };
            lemma_allocated(plain, "UNKNOWN_CONTEXT"@, fresh, context_hash("UNKNOWN_CONTEXT"@));
        } else if is_enter(event_name_of(r)) && subject_of(r).is_some() {
            let name = subject_of(r).unwrap();
            let known = allocated(c, name, fresh);
            lemma_allocated_covered(c, name, fresh);
            assert(has_timeline(known.timelines, known.stack[known.stack.len() - 1]));
            lemma_same_entered(c, r, name, fresh);
            lemma_same_allocated(c, name, fresh);
            lemma_enter_covered(c, r, name, fresh);
            let post = step_enter(c, r, name, fresh).state;
            assert(post.stack.last() == context_hash(name));
            assert(has_timeline(post.timelines, post.stack[post.stack.len() - 1]));
            lemma_enter_keeps_known(c, r, name, fresh);
        } else if is_exit(event_name_of(r)) {
            lemma_popped_covered(c);
            lemma_stamp_covered(popped(c), c.stack.last());
        } else if is_start(event_name_of(r)) && subject_of(r).is_some() && c.event_counter == 1 {
            let v = ManagerState { integration_version: version_of(r), ..c };
            let name = root_name(c, subject_of(r).unwrap());
            lemma_allocated_covered(v, name, fresh);
            lemma_allocated(v, name, fresh, context_hash(name));
            lemma_stamp_covered(
                pushed(allocated(v, name, fresh), context_hash(name)),
                context_hash(name),
            );
        } else {
            if is_enter(event_name_of(r)) {
                let plain = ManagerState { mode: RtosMode::NoRtos, ..c };
                lemma_allocated_covered(plain, "UNKNOWN_CONTEXT"@, fresh);
                lemma_allocated(plain, "UNKNOWN_CONTEXT"@, fresh, context_hash("UNKNOWN_CONTEXT"@));
                let settled = ManagerState {
                    pending: None,
                    ..pushed(
                        allocated(plain, "UNKNOWN_CONTEXT"@, fresh),
                        context_hash("UNKNOWN_CONTEXT"@),
                    )
                };
                let spent = ManagerState { pending: None, ..settled };
                assert(covered(spent));
                lemma_stamp_covered(spent, spent.stack.last());
            } else {
                let spent = ManagerState { pending: None, ..c };
                assert(covered(spent));
                assert(has_timeline(spent.timelines, spent.stack[spent.stack.len() - 1]));
                lemma_stamp_covered(spent, spent.stack.last());
            }
        }
    } else {
        if c.event_counter == 1 {
            let name = single_context_name(c);
            lemma_allocated_covered(c, name, fresh);
            lemma_allocated(c, name, fresh, context_hash(name));
            lemma_stamp_covered(
                pushed(allocated(c, name, fresh), context_hash(name)),
                context_hash(name),
            );
        } else {
            assert(has_timeline(c.timelines, c.stack[c.stack.len() - 1]));
            lemma_stamp_covered(c, c.stack.last());
        }
    }
}

/// The timeline that is left when a context is entered still has its
/// timeline afterwards.
pub proof fn lemma_enter_keeps_known(
    s: ManagerState,
    record: Map<Seq<char>, AttrValue>,
    name: Seq<char>,
    fresh: TimelineId,
)
    requires
        covered(s),
        s.stack.len() > 0,
    ensures
        has_timeline(step_enter(s, record, name, fresh).state.timelines, s.stack.last()),
{
    let known = allocated(s, name, fresh);
    lemma_allocated(s, name, fresh, s.stack.last());
    assert(has_timeline(s.timelines, s.stack[s.stack.len() - 1]));
    lemma_same_allocated(s, name, fresh);
    lemma_same_entered(s, record, name, fresh);
}

/// The ordering values of the events of one record follow the manager's
/// counter without a gap: below the largest values, the first event has the
/// counter's successor, a second event the next, and the counter ends at
/// the last event's value. So every event has a larger ordering than every
/// event before it.
pub proof fn lemma_orderings_increase(
    s: ManagerState,
    record: Map<Seq<char>, AttrValue>,
    fresh: TimelineId,
)
    requires
        s.global_ordering < u128::MAX - 1,
    ensures
        1 <= step(s, record, fresh).events.len() <= 2,
        step(s, record, fresh).events[0].global_ordering == s.global_ordering + 1,
        step(s, record, fresh).events.len() == 2 ==> step(
            s,
            record,
            fresh,
        ).events[1].global_ordering == s.global_ordering + 2,
        step(s, record, fresh).state.global_ordering == step(
            s,
            record,
            fresh,
        ).events.last().global_ordering,
{
}

/// Of two records in a row, every event of the second has a larger
/// ordering than every event of the first.
pub proof fn lemma_orderings_increase_across(
    s: ManagerState,
    first: Map<Seq<char>, AttrValue>,
    fresh_first: TimelineId,
    second: Map<Seq<char>, AttrValue>,
    fresh_second: TimelineId,
)
    requires
        s.global_ordering < u128::MAX - 3,
    ensures
        forall|i: int, j: int|
            0 <= i < step(s, first, fresh_first).events.len() && 0 <= j < step(
                step(s, first, fresh_first).state,
                second,
                fresh_second,
            ).events.len() ==> (#[trigger] step(s, first, fresh_first).events[i]).global_ordering
                < (#[trigger] step(
                step(s, first, fresh_first).state,
                second,
                fresh_second,
            ).events[j]).global_ordering,
{
    lemma_orderings_increase(s, first, fresh_first);
    lemma_orderings_increase(step(s, first, fresh_first).state, second, fresh_second);
}

/// The nonce wraps from the largest value to the smallest.
pub proof fn lemma_nonce_wraps()
    ensures
        wrapping_next(i64::MAX) == i64::MIN,
        forall|n: i64| n != i64::MAX ==> #[trigger] wrapping_next(n) == n + 1,
{
}

/// The nonce that the timeline of a context holds: that of its last event,
/// or zero where the context has no timeline yet.
pub open spec fn prior_nonce(s: ManagerState, c: ContextId) -> i64 {
    if has_timeline(s.timelines, c) {
        timeline_of(s.timelines, c).nonce
    } else {
        0
    }
}

/// The nonce stamped on a record.
pub open spec fn nonce_of(record: Map<Seq<char>, AttrValue>) -> Option<i64> {
    integer_at(record, internal_event_key("nonce"@))
}

/// Whether the record is a first record that is no valid start event in the
/// RTIC version 1 mode: the one record that goes unstamped.
pub open spec fn is_fallback(s: ManagerState, record: Map<Seq<char>, AttrValue>) -> bool {
    counted_state(s, record).mode == RtosMode::Rtic1 && counted_state(s, record).event_counter == 1
        && counted_state(s, record).integration_version.is_none() && !is_valid_start(
        counted_record(s, record),
    )
}

/// Whether the record enters a named context in the RTIC version 1 mode.
pub open spec fn is_named_enter(s: ManagerState, record: Map<Seq<char>, AttrValue>) -> bool {
    counted_state(s, record).mode == RtosMode::Rtic1 && !is_fallback(s, record) && is_enter(
        event_name_of(counted_record(s, record)),
    ) && subject_of(counted_record(s, record)).is_some()
}

/// Whether the record leaves a context in the RTIC version 1 mode.
pub open spec fn is_context_exit(s: ManagerState, record: Map<Seq<char>, AttrValue>) -> bool {
    counted_state(s, record).mode == RtosMode::Rtic1 && !is_fallback(s, record) && !is_named_enter(
        s,
        record,
    ) && is_exit(event_name_of(counted_record(s, record)))
}

/// The key of the nonce is none of the keys that are set after it.
pub proof fn lemma_nonce_key_apart()
    ensures
        internal_event_key("nonce"@) != event_key("interaction.remote_timeline_id"@),
        internal_event_key("nonce"@) != event_key("interaction.remote_nonce"@),
        internal_event_key("nonce"@) != internal_event_key("interaction.remote_timeline_id"@),
        internal_event_key("nonce"@) != internal_event_key("interaction.remote_nonce"@),
        internal_event_key("nonce"@) != event_key("timestamp"@),
{
    reveal_strlit("event.");
    reveal_strlit("event.internal.defmt.");
    reveal_strlit("nonce");
    reveal_strlit("timestamp");
    reveal_strlit("interaction.remote_timeline_id");
    reveal_strlit("interaction.remote_nonce");
    assert(internal_event_key("nonce"@).len() == 26);
    assert(event_key("interaction.remote_timeline_id"@).len() == 36);
    assert(event_key("interaction.remote_nonce"@).len() == 30);
    assert(internal_event_key("interaction.remote_timeline_id"@).len() == 51);
    assert(internal_event_key("interaction.remote_nonce"@).len() == 45);
    assert(event_key("timestamp"@).len() == 15);
}

/// A stamped event carries the successor of the nonce that its timeline
/// held, and the timeline holds that nonce afterwards; no other timeline's
/// nonce moves.
pub proof fn lemma_stamp_nonce(
    s: ManagerState,
    ctx: ContextId,
    record: Map<Seq<char>, AttrValue>,
    carried: Option<Interaction>,
)
    requires
        has_timeline(s.timelines, ctx),
    ensures
        nonce_of(stamp_event(s, ctx, record, carried).record) == Some(
            wrapping_next(timeline_of(s.timelines, ctx).nonce),
        ),
        has_timeline(stamp_state(s, ctx).timelines, ctx),
        timeline_of(stamp_state(s, ctx).timelines, ctx).nonce == wrapping_next(
            timeline_of(s.timelines, ctx).nonce,
        ),
        !timeline_of(stamp_state(s, ctx).timelines, ctx).needs_synthetic,
        forall|d: ContextId|
            d != ctx && #[trigger] has_timeline(s.timelines, d) ==> timeline_of(
                stamp_state(s, ctx).timelines,
                d,
            ) == timeline_of(s.timelines, d),
{
    lemma_nonce_key_apart();
    let t = timeline_of(s.timelines, ctx);
    let u = TimelineState { nonce: wrapping_next(t.nonce), needs_synthetic: false, ..t };
    lemma_timeline_index_bounds(s.timelines, ctx, 0);
    lemma_with_timeline(s.timelines, ctx, u, ctx);
    assert forall|d: ContextId|
        d != ctx && #[trigger] has_timeline(s.timelines, d) implies timeline_of(
        stamp_state(s, ctx).timelines,
        d,
    ) == timeline_of(s.timelines, d) by {
        lemma_with_timeline(s.timelines, ctx, u, d);
    }
}

/// Changing only whether a timeline needs a synthetic event moves no
/// nonce.
pub proof fn lemma_marked_nonces(ts: Seq<TimelineState>, ctx: ContextId, needed: bool)
    requires
        has_timeline(ts, ctx),
    ensures
        forall|d: ContextId| #[trigger]
            has_timeline(ts, d) ==> has_timeline(
                with_timeline(
                    ts,
                    ctx,
                    TimelineState { needs_synthetic: needed, ..timeline_of(ts, ctx) },
                ),
                d,
            ) && timeline_of(
                with_timeline(
                    ts,
                    ctx,
                    TimelineState { needs_synthetic: needed, ..timeline_of(ts, ctx) },
                ),
                d,
            ).nonce == timeline_of(ts, d).nonce,
        timeline_of(
            with_timeline(
                ts,
                ctx,
                TimelineState { needs_synthetic: needed, ..timeline_of(ts, ctx) },
            ),
            ctx,
        ).needs_synthetic == needed,
        forall|d: ContextId|
            d != ctx && #[trigger] has_timeline(ts, d) ==> timeline_of(
                with_timeline(
                    ts,
                    ctx,
                    TimelineState { needs_synthetic: needed, ..timeline_of(ts, ctx) },
                ),
                d,
            ) == timeline_of(ts, d),
{
    let u = TimelineState { needs_synthetic: needed, ..timeline_of(ts, ctx) };
    lemma_timeline_index_bounds(ts, ctx, 0);
    lemma_with_timeline(ts, ctx, u, ctx);
    assert forall|d: ContextId| #[trigger] has_timeline(ts, d) implies has_timeline(
        with_timeline(ts, ctx, u),
        d,
    ) && timeline_of(with_timeline(ts, ctx, u), d).nonce == timeline_of(ts, d).nonce && (d != ctx
        ==> timeline_of(with_timeline(ts, ctx, u), d) == timeline_of(ts, d)) by {
        lemma_with_timeline(ts, ctx, u, d);
    }
}

/// Stamping an event after steps that moved no nonce moves the nonce of
/// the stamped timeline alone.
pub proof fn lemma_stamp_after(a: Seq<TimelineState>, m: ManagerState, ctx: ContextId)
    requires
        has_timeline(m.timelines, ctx),
        forall|d: ContextId| #[trigger]
            has_timeline(a, d) ==> has_timeline(m.timelines, d) && timeline_of(m.timelines, d).nonce
                == timeline_of(a, d).nonce,
    ensures
        forall|d: ContextId|
            d != ctx && #[trigger] has_timeline(a, d) ==> timeline_of(
                stamp_state(m, ctx).timelines,
                d,
            ).nonce == timeline_of(a, d).nonce,
{
    lemma_stamp_nonce(m, ctx, Map::empty(), None);
    assert forall|d: ContextId| d != ctx && #[trigger] has_timeline(a, d) implies timeline_of(
        stamp_state(m, ctx).timelines,
        d,
    ).nonce == timeline_of(a, d).nonce by {
        assert(has_timeline(m.timelines, d));
    }
}

/// Making a timeline moves no nonce.
pub proof fn lemma_allocated_nonces(s: ManagerState, name: Seq<char>, fresh: TimelineId)
    ensures
        forall|d: ContextId| #[trigger]
            has_timeline(s.timelines, d) ==> has_timeline(allocated(s, name, fresh).timelines, d)
                && timeline_of(allocated(s, name, fresh).timelines, d).nonce == timeline_of(
                s.timelines,
                d,
            ).nonce,
{
    assert forall|d: ContextId| #[trigger] has_timeline(s.timelines, d) implies has_timeline(
        allocated(s, name, fresh).timelines,
        d,
    ) && timeline_of(allocated(s, name, fresh).timelines, d).nonce == timeline_of(
        s.timelines,
        d,
    ).nonce by {
        lemma_allocated(s, name, fresh, d);
    }
}

/// The nonces of a timeline follow one another: every event but the
/// unstamped first one carries the successor of the nonce that its timeline
/// held before it, the timeline holds the nonce of its last event
/// afterwards, and the nonce of a timeline without an event stays.
pub proof fn lemma_nonces_follow(
    s: ManagerState,
    record: Map<Seq<char>, AttrValue>,
    fresh: TimelineId,
)
    requires
        valid_state(s),
        !is_fallback(s, record),
    ensures
        ({
            let st = step(s, record, fresh);
            let first = st.events[0];
            let last = st.events.last();
            &&& nonce_of(first.record) == Some(wrapping_next(prior_nonce(s, first.context)))
            &&& st.events.len() == 2 ==> nonce_of(last.record) == Some(
                wrapping_next(
                    if last.context == first.context {
                        wrapping_next(prior_nonce(s, first.context))
                    } else {
                        prior_nonce(s, last.context)
                    },
                ),
            )
            &&& nonce_of(last.record) == Some(timeline_of(st.state.timelines, last.context).nonce)
            &&& first.context != last.context ==> nonce_of(first.record) == Some(
                timeline_of(st.state.timelines, first.context).nonce,
            )
            &&& forall|d: ContextId|
                d != first.context && d != last.context && #[trigger] has_timeline(s.timelines, d)
                    ==> timeline_of(st.state.timelines, d).nonce == timeline_of(
                    s.timelines,
                    d,
                ).nonce
        }),
{
    let c = counted_state(s, record);
    let r = counted_record(s, record);
    lemma_event_names_differ(event_name_of(r));
    lemma_nonce_key_apart();
    assert(covered(c));
    if c.mode == RtosMode::Rtic1 {
        if is_enter(event_name_of(r)) && subject_of(r).is_some() {
            lemma_enter_nonces(c, r, subject_of(r).unwrap(), fresh);
        } else if is_exit(event_name_of(r)) {
            let ctx = c.stack.last();
            assert(has_timeline(c.timelines, c.stack[c.stack.len() - 1]));
            lemma_popped_covered(c);
            lemma_popped_nonces(c);
            lemma_stamp_nonce(popped(c), ctx, r, c.pending);
            lemma_stamp_after(c.timelines, popped(c), ctx);
        } else if is_start(event_name_of(r)) && subject_of(r).is_some() && c.event_counter == 1 {
            let v = ManagerState { integration_version: version_of(r), ..c };
            let name = root_name(c, subject_of(r).unwrap());
            lemma_allocated(v, name, fresh, context_hash(name));
            lemma_stamp_nonce(
                pushed(allocated(v, name, fresh), context_hash(name)),
                context_hash(name),
                r,
                None,
            );
            lemma_allocated_nonces(v, name, fresh);
            lemma_stamp_after(
                s.timelines,
                pushed(allocated(v, name, fresh), context_hash(name)),
                context_hash(name),
            );
        } else {
            if is_enter(event_name_of(r)) {
                let plain = ManagerState { mode: RtosMode::NoRtos, ..c };
                let name = "UNKNOWN_CONTEXT"@;
                lemma_allocated(plain, name, fresh, context_hash(name));
                let settled = ManagerState {
                    pending: None,
                    ..pushed(allocated(plain, name, fresh), context_hash(name))
                };
                let spent = ManagerState { pending: None, ..settled };
                lemma_stamp_nonce(spent, context_hash(name), r, settled.pending);
                lemma_allocated_nonces(plain, name, fresh);
                lemma_stamp_after(s.timelines, spent, context_hash(name));
            } else {
                let spent = ManagerState { pending: None, ..c };
                assert(has_timeline(c.timelines, c.stack[c.stack.len() - 1]));
                lemma_stamp_nonce(spent, spent.stack.last(), r, c.pending);
                lemma_stamp_after(s.timelines, spent, spent.stack.last());
            }
        }
    } else {
        if c.event_counter == 1 {
            let name = single_context_name(c);
            lemma_allocated(c, name, fresh, context_hash(name));
            lemma_stamp_nonce(
                pushed(allocated(c, name, fresh), context_hash(name)),
                context_hash(name),
                r,
                None,
            );
            lemma_allocated_nonces(c, name, fresh);
            lemma_stamp_after(
                s.timelines,
                pushed(allocated(c, name, fresh), context_hash(name)),
                context_hash(name),
            );
        } else {
            assert(has_timeline(c.timelines, c.stack[c.stack.len() - 1]));
            lemma_stamp_nonce(c, c.stack.last(), r, None);
            lemma_stamp_after(s.timelines, c, c.stack.last());
        }
    }
}

/// Leaving a context moves no nonce.
pub proof fn lemma_popped_nonces(s: ManagerState)
    requires
        covered(s),
        s.stack.len() > 0,
    ensures
        forall|d: ContextId| #[trigger]
            has_timeline(s.timelines, d) ==> has_timeline(popped(s).timelines, d) && timeline_of(
                popped(s).timelines,
                d,
            ).nonce == timeline_of(s.timelines, d).nonce,
{
    if s.stack.len() > 1 {
        let ctx = s.stack.last();
        assert(has_timeline(s.timelines, s.stack[s.stack.len() - 1]));
        assert(has_timeline(s.timelines, s.stack[s.stack.len() - 2]));
        lemma_marked_nonces(s.timelines, ctx, false);
        let cleared = with_timeline(
            s.timelines,
            ctx,
            TimelineState { needs_synthetic: false, ..timeline_of(s.timelines, ctx) },
        );
        let top = s.stack.drop_last().last();
        assert(top == s.stack[s.stack.len() - 2]);
        lemma_marked_nonces(cleared, top, true);
    }
}

/// The nonces of the events of an enter record.
pub proof fn lemma_enter_nonces(
    s: ManagerState,
    record: Map<Seq<char>, AttrValue>,
    name: Seq<char>,
    fresh: TimelineId,
)
    requires
        covered(s),
        s.stack.len() > 0,
    ensures
        ({
            let st = step_enter(s, record, name, fresh);
            let first = st.events[0];
            let last = st.events.last();
            &&& nonce_of(first.record) == Some(wrapping_next(prior_nonce(s, first.context)))
            &&& st.events.len() == 2 ==> nonce_of(last.record) == Some(
                wrapping_next(
                    if last.context == first.context {
                        wrapping_next(prior_nonce(s, first.context))
                    } else {
                        prior_nonce(s, last.context)
                    },
                ),
            )
            &&& nonce_of(last.record) == Some(timeline_of(st.state.timelines, last.context).nonce)
            &&& first.context != last.context ==> nonce_of(first.record) == Some(
                timeline_of(st.state.timelines, first.context).nonce,
            )
            &&& forall|d: ContextId|
                d != first.context && d != last.context && #[trigger] has_timeline(s.timelines, d)
                    ==> timeline_of(st.state.timelines, d).nonce == timeline_of(
                    s.timelines,
                    d,
                ).nonce
        }),
{
    lemma_nonce_key_apart();
    let ctx = context_hash(name);
    let known = allocated(s, name, fresh);
    lemma_allocated_covered(s, name, fresh);
    lemma_allocated(s, name, fresh, ctx);
    let active = known.stack.last();
    assert(has_timeline(known.timelines, known.stack[known.stack.len() - 1]));
    assert(has_timeline(s.timelines, s.stack[s.stack.len() - 1]));
    lemma_allocated(s, name, fresh, active);
    assert forall|d: ContextId| #[trigger] has_timeline(s.timelines, d) implies has_timeline(
        known.timelines,
        d,
    ) && timeline_of(known.timelines, d) == timeline_of(s.timelines, d) by {
        lemma_allocated(s, name, fresh, d);
    }
    assert(timeline_of(known.timelines, ctx).nonce == prior_nonce(s, ctx));
    let bridged = if needs_bridge(known) {
        synthesized(known)
    } else {
        known
    };
    lemma_stamp_nonce(known, active, record, None);
    assert(has_timeline(bridged.timelines, active));
    assert(has_timeline(bridged.timelines, ctx)) by {
        if needs_bridge(known) && ctx != active {
            assert(timeline_of(stamp_state(known, active).timelines, ctx) == timeline_of(
                known.timelines,
                ctx,
            ));
            lemma_same_stamped(known, active);
        }
    }
    lemma_marked_nonces(bridged.timelines, active, false);
    let left = timeline_of(bridged.timelines, active);
    let entered = ManagerState {
        timelines: with_timeline(
            bridged.timelines,
            active,
            TimelineState { needs_synthetic: false, ..left },
        ),
        stack: bridged.stack.push(ctx),
        pending: None,
        ..bridged
    };
    let source = Interaction { context: active, timeline: left.id, nonce: left.nonce };
    lemma_stamp_nonce(entered, ctx, record, Some(source));
    lemma_same_stamped(known, active);
}

/// A record gives a synthetic event exactly when it enters a named context
/// from a timeline that a context switch has returned to without an event
/// on it since. The synthetic event comes first, on the timeline that is
/// left.
pub proof fn lemma_synthetic_iff_marked(
    s: ManagerState,
    record: Map<Seq<char>, AttrValue>,
    fresh: TimelineId,
)
    ensures
        step(s, record, fresh).events.len() == 2 <==> is_named_enter(s, record) && needs_bridge(
            allocated(
                counted_state(s, record),
                subject_of(counted_record(s, record)).unwrap(),
                fresh,
            ),
        ),
        step(s, record, fresh).events.len() == 2 ==> step(s, record, fresh).events[0].context
            == s.stack.last() && string_at(
            step(s, record, fresh).events[0].record,
            event_key("name"@),
        ) == Some("AUXON_CONTEXT_RETURN"@),
{
    reveal_strlit("event.");
    reveal_strlit("event.internal.defmt.");
    reveal_strlit("name");
    reveal_strlit("nonce");
    reveal_strlit("synthetic");
    reveal_strlit("timestamp");
    reveal_strlit("interaction.remote_timeline_id");
    reveal_strlit("interaction.remote_nonce");
    assert(event_key("name"@).len() == 10);
    assert(internal_event_key("nonce"@).len() == 26);
    assert(internal_event_key("synthetic"@).len() == 30);
    assert(event_key("interaction.remote_timeline_id"@).len() == 36);
    assert(event_key("interaction.remote_nonce"@).len() == 30);
    assert(internal_event_key("interaction.remote_timeline_id"@).len() == 51);
    assert(internal_event_key("interaction.remote_nonce"@).len() == 45);
    assert(event_key("timestamp"@).len() == 15);
}

/// After an event on a timeline, the timeline needs no synthetic event.
pub proof fn lemma_event_clears_mark(
    s: ManagerState,
    record: Map<Seq<char>, AttrValue>,
    fresh: TimelineId,
)
    requires
        valid_state(s),
        !is_fallback(s, record),
    ensures
        !timeline_of(
            step(s, record, fresh).state.timelines,
            step(s, record, fresh).events.last().context,
        ).needs_synthetic,
{
    let c = counted_state(s, record);
    let r = counted_record(s, record);
    lemma_event_names_differ(event_name_of(r));
    assert(covered(c));
    if c.mode == RtosMode::Rtic1 {
        if is_enter(event_name_of(r)) && subject_of(r).is_some() {
            let name = subject_of(r).unwrap();
            let ctx = context_hash(name);
            let known = allocated(c, name, fresh);
            lemma_allocated_covered(c, name, fresh);
            lemma_allocated(c, name, fresh, ctx);
            let bridged = if needs_bridge(known) {
                synthesized(known)
            } else {
                known
            };
            let active = bridged.stack.last();
            assert(has_timeline(known.timelines, known.stack[known.stack.len() - 1]));
            lemma_same_stamped(known, active);
            let left = timeline_of(bridged.timelines, active);
            lemma_same_replaced(
                bridged.timelines,
                active,
                TimelineState { needs_synthetic: false, ..left },
            );
            let entered = ManagerState {
                timelines: with_timeline(
                    bridged.timelines,
                    active,
                    TimelineState { needs_synthetic: false, ..left },
                ),
                stack: bridged.stack.push(ctx),
                pending: None,
                ..bridged
            };
            lemma_stamp_nonce(entered, ctx, r, None);
        } else if is_exit(event_name_of(r)) {
            lemma_popped_covered(c);
            lemma_stamp_nonce(popped(c), c.stack.last(), r, c.pending);
        } else if is_start(event_name_of(r)) && subject_of(r).is_some() && c.event_counter == 1 {
            let v = ManagerState { integration_version: version_of(r), ..c };
            let name = root_name(c, subject_of(r).unwrap());
            lemma_allocated(v, name, fresh, context_hash(name));
            lemma_stamp_nonce(
                pushed(allocated(v, name, fresh), context_hash(name)),
                context_hash(name),
                r,
                None,
            );
        } else {
            if is_enter(event_name_of(r)) {
                let plain = ManagerState { mode: RtosMode::NoRtos, ..c };
                let name = "UNKNOWN_CONTEXT"@;
                lemma_allocated(plain, name, fresh, context_hash(name));
                let settled = ManagerState {
                    pending: None,
                    ..pushed(allocated(plain, name, fresh), context_hash(name))
                };
                let spent = ManagerState { pending: None, ..settled };
                lemma_stamp_nonce(spent, context_hash(name), r, settled.pending);
            } else {
                let spent = ManagerState { pending: None, ..c };
                assert(has_timeline(c.timelines, c.stack[c.stack.len() - 1]));
                lemma_stamp_nonce(spent, spent.stack.last(), r, c.pending);
            }
        }
    } else {
        if c.event_counter == 1 {
            let name = single_context_name(c);
            lemma_allocated(c, name, fresh, context_hash(name));
            lemma_stamp_nonce(
                pushed(allocated(c, name, fresh), context_hash(name)),
                context_hash(name),
                r,
                None,
            );
        } else {
            assert(has_timeline(c.timelines, c.stack[c.stack.len() - 1]));
            lemma_stamp_nonce(c, c.stack.last(), r, None);
        }
    }
}

/// Leaving a context for another one marks the timeline that is returned
/// to as in need of a synthetic event, and makes its context the active
/// one.
pub proof fn lemma_exit_marks_return(
    s: ManagerState,
    record: Map<Seq<char>, AttrValue>,
    fresh: TimelineId,
)
    requires
        valid_state(s),
        is_context_exit(s, record),
        s.stack.len() >= 2,
        s.stack[s.stack.len() - 2] != s.stack.last(),
    ensures
        step(s, record, fresh).state.stack == s.stack.drop_last(),
        step(s, record, fresh).state.mode == RtosMode::Rtic1,
        needs_bridge(step(s, record, fresh).state),
{
    let c = counted_state(s, record);
    let r = counted_record(s, record);
    let ctx = c.stack.last();
    let top = c.stack.drop_last().last();
    assert(top == c.stack[c.stack.len() - 2]);
    assert(has_timeline(c.timelines, c.stack[c.stack.len() - 1]));
    assert(has_timeline(c.timelines, c.stack[c.stack.len() - 2]));
    lemma_marked_nonces(c.timelines, ctx, false);
    let cleared = with_timeline(
        c.timelines,
        ctx,
        TimelineState { needs_synthetic: false, ..timeline_of(c.timelines, ctx) },
    );
    lemma_marked_nonces(cleared, top, true);
    lemma_popped_covered(c);
    lemma_stamp_nonce(popped(c), ctx, r, c.pending);
    assert(has_timeline(popped(c).timelines, top));
}

/// Two context switches that abut give a synthetic event: where a record
/// leaves a context for another one and the next record enters a named
/// context, the second record gives two events, the first of them on the
/// timeline that was returned to.
pub proof fn lemma_abutting_switches_are_bridged(
    s: ManagerState,
    exit: Map<Seq<char>, AttrValue>,
    fresh_exit: TimelineId,
    enter: Map<Seq<char>, AttrValue>,
    fresh_enter: TimelineId,
)
    requires
        valid_state(s),
        is_context_exit(s, exit),
        s.stack.len() >= 2,
        s.stack[s.stack.len() - 2] != s.stack.last(),
        is_named_enter(step(s, exit, fresh_exit).state, enter),
    ensures
        step(step(s, exit, fresh_exit).state, enter, fresh_enter).events.len() == 2,
        step(step(s, exit, fresh_exit).state, enter, fresh_enter).events[0].context
            == s.stack[s.stack.len() - 2],
{
    lemma_exit_marks_return(s, exit, fresh_exit);
    let mid = step(s, exit, fresh_exit).state;
    lemma_step_valid(s, exit, fresh_exit);
    let c = counted_state(mid, enter);
    let r = counted_record(mid, enter);
    assert(has_timeline(c.timelines, c.stack[c.stack.len() - 1]));
    lemma_allocated(c, subject_of(r).unwrap(), fresh_enter, c.stack.last());
    lemma_synthetic_iff_marked(mid, enter, fresh_enter);
}

/// An event between two context switches takes the place of the synthetic
/// event: where a record that enters a named context follows a record with
/// an event on the active timeline, it gives one event.
pub proof fn lemma_event_between_switches(
    s: ManagerState,
    between: Map<Seq<char>, AttrValue>,
    fresh_between: TimelineId,
    enter: Map<Seq<char>, AttrValue>,
    fresh_enter: TimelineId,
)
    requires
        valid_state(s),
        !is_fallback(s, between),
        step(s, between, fresh_between).events.last().context == step(
            s,
            between,
            fresh_between,
        ).state.stack.last(),
        is_named_enter(step(s, between, fresh_between).state, enter),
    ensures
        step(step(s, between, fresh_between).state, enter, fresh_enter).events.len() == 1,
{
    lemma_event_clears_mark(s, between, fresh_between);
    let mid = step(s, between, fresh_between).state;
    lemma_step_valid(s, between, fresh_between);
    let c = counted_state(mid, enter);
    let r = counted_record(mid, enter);
    assert(has_timeline(c.timelines, c.stack[c.stack.len() - 1]));
    lemma_allocated(c, subject_of(r).unwrap(), fresh_enter, c.stack.last());
    lemma_synthetic_iff_marked(mid, enter, fresh_enter);
}

/// An event that asks for the nonce of the event before it follows an
/// event that has one: of two records in a row, where the first event of
/// the second asks, the last event of the first was stamped.
pub proof fn lemma_flagged_follows_stamped(
    s: ManagerState,
    first: Map<Seq<char>, AttrValue>,
    fresh_first: TimelineId,
    second: Map<Seq<char>, AttrValue>,
    fresh_second: TimelineId,
)
    requires
        valid_state(s),
        step(
            step(s, first, fresh_first).state,
            second,
            fresh_second,
        ).events[0].add_previous_event_nonce,
    ensures
        nonce_of(step(s, first, fresh_first).events.last().record).is_some(),
{
    if !is_fallback(s, first) {
        lemma_nonces_follow(s, first, fresh_first);
    }
}

/// The synthetic event of a record is stamped, so the event of the record
/// that follows it can ask for its nonce.
pub proof fn lemma_synthetic_is_stamped(
    s: ManagerState,
    record: Map<Seq<char>, AttrValue>,
    fresh: TimelineId,
)
    requires
        valid_state(s),
        step(s, record, fresh).events.len() == 2,
    ensures
        nonce_of(step(s, record, fresh).events[0].record).is_some(),
{
    lemma_synthetic_iff_marked(s, record, fresh);
    lemma_nonces_follow(s, record, fresh);
}

/// The root context stays: once a record has been processed, the first
/// context of the stack is the same after every further record.
pub proof fn lemma_root_stays(
    s: ManagerState,
    record: Map<Seq<char>, AttrValue>,
    fresh: TimelineId,
)
    requires
        valid_state(s),
        s.event_counter > 0,
    ensures
        step(s, record, fresh).state.stack.len() > 0,
        step(s, record, fresh).state.stack[0] == s.stack[0],
{
    lemma_event_names_differ(event_name_of(counted_record(s, record)));
}

/// The counters never go back: after a record the ordering is no smaller
/// than before, and the event counter is its successor or stays at the
/// largest value.
pub proof fn lemma_counters_never_decrease(
    s: ManagerState,
    record: Map<Seq<char>, AttrValue>,
    fresh: TimelineId,
)
    ensures
        step(s, record, fresh).state.global_ordering >= s.global_ordering,
        step(s, record, fresh).state.event_counter >= s.event_counter,
        s.event_counter < u64::MAX ==> step(s, record, fresh).state.event_counter
            == s.event_counter + 1,
{
}

/// The mode without an RTOS is never left, and it has one timeline: the
/// first record makes it, and no later record makes another.
pub proof fn lemma_plain_mode_has_one_timeline(
    s: ManagerState,
    record: Map<Seq<char>, AttrValue>,
    fresh: TimelineId,
)
    requires
        valid_state(s),
        s.mode == RtosMode::NoRtos,
    ensures
        step(s, record, fresh).state.mode == RtosMode::NoRtos,
        s.event_counter == 0 ==> step(s, record, fresh).state.timelines.len() == 1,
        s.event_counter > 0 ==> step(s, record, fresh).state.timelines.len() == s.timelines.len(),
        step(s, record, fresh).events.len() == 1,
        !step(s, record, fresh).events[0].add_previous_event_nonce,
{
    let c = counted_state(s, record);
    if c.event_counter == 1 {
        let name = single_context_name(c);
        lemma_allocated(c, name, fresh, context_hash(name));
        lemma_timeline_index_bounds(c.timelines, context_hash(name), 0);
        let rooted = pushed(allocated(c, name, fresh), context_hash(name));
        lemma_timeline_index_bounds(rooted.timelines, context_hash(name), 0);
    } else {
        lemma_timeline_index_bounds(c.timelines, c.stack.last(), 0);
    }
}

} // verus!
