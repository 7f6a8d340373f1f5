//! Attribute key conventions: the prefixes that mark event and timeline
//! attributes.

use crate::text::{chars_of, concat};
use vstd::prelude::*;
use vstd::string::*;

verus! {

/// The key of the event attribute `k`.
pub open spec fn event_key(k: Seq<char>) -> Seq<char> {
    "event."@ + k
}

/// The key of the internal event attribute `k`.
pub open spec fn internal_event_key(k: Seq<char>) -> Seq<char> {
    "event.internal.defmt."@ + k
}

/// The key of the timeline attribute `k`.
pub open spec fn timeline_key(k: Seq<char>) -> Seq<char> {
    "timeline."@ + k
}

/// The key of the internal timeline attribute `k`.
pub open spec fn internal_timeline_key(k: Seq<char>) -> Seq<char> {
    "timeline.internal.defmt."@ + k
}

/// Whether `k` begins with `event.`.
pub open spec fn is_event_key(k: Seq<char>) -> bool {
    "event."@.is_prefix_of(k)
}

/// Whether `k` begins with `timeline.`.
pub open spec fn is_timeline_key(k: Seq<char>) -> bool {
    "timeline."@.is_prefix_of(k)
}

/// `k` itself where it is an event key, else the event key of `k`.
pub open spec fn normalized_event_key(k: Seq<char>) -> Seq<char> {
    if is_event_key(k) {
        k
    } else {
        event_key(k)
    }
}

/// `k` itself where it is a timeline key, else the timeline key of `k`.
pub open spec fn normalized_timeline_key(k: Seq<char>) -> Seq<char> {
    if is_timeline_key(k) {
        k
    } else {
        timeline_key(k)
    }
}

/// Event keys, internal ones among them, begin with `event.`; timeline keys
/// begin with `timeline.`; and what is normalized has its prefix.
pub proof fn lemma_key_prefixes(k: Seq<char>)
    ensures
        is_event_key(event_key(k)),
        is_event_key(internal_event_key(k)),
        is_event_key(normalized_event_key(k)),
        is_timeline_key(timeline_key(k)),
        is_timeline_key(internal_timeline_key(k)),
        is_timeline_key(normalized_timeline_key(k)),
{
    reveal_strlit("event.");
    reveal_strlit("event.internal.defmt.");
    reveal_strlit("timeline.");
    reveal_strlit("timeline.internal.defmt.");
    assert(event_key(k).subrange(0, 6) =~= "event."@);
    assert(internal_event_key(k).subrange(0, 6) =~= "event."@);
    assert(timeline_key(k).subrange(0, 9) =~= "timeline."@);
    assert(internal_timeline_key(k).subrange(0, 9) =~= "timeline."@);
}

/// Whether `s` begins with `p`.
pub fn has_prefix(s: &str, p: &str) -> (r: bool)
    ensures
        r == p@.is_prefix_of(s@),
{
    let sv: Vec<char> = chars_of(s);
    let pv: Vec<char> = chars_of(p);
    if pv.len() > sv.len() {
        return false;
    }
    let mut i: usize = 0;
    while i < pv.len()
        invariant
            i <= pv.len() <= sv.len(),
            sv@ == s@,
            pv@ == p@,
            sv@.subrange(0, i as int) == pv@.subrange(0, i as int),
        decreases pv.len() - i,
    {
        if sv[i] != pv[i] {
            assert(sv@.subrange(0, pv.len() as int)[i as int] != pv@[i as int]);
            return false;
        }
        i = i + 1;
        assert(sv@.subrange(0, i as int) =~= sv@.subrange(0, i - 1).push(sv@[i - 1]));
        assert(pv@.subrange(0, i as int) =~= pv@.subrange(0, i - 1).push(pv@[i - 1]));
    }
    assert(pv@.subrange(0, pv.len() as int) =~= pv@);
    true
}

/// The key of the event attribute `k`.
pub fn ev_attr_key(k: &str) -> (r: String)
    ensures
        r@ == event_key(k@),
{
    concat("event.", k)
}

/// The key of the internal event attribute `k`.
pub fn ev_internal_attr_key(k: &str) -> (r: String)
    ensures
        r@ == internal_event_key(k@),
{
    concat("event.internal.defmt.", k)
}

/// `s` itself where it is a timeline key, else the timeline key of `s`.
pub fn normalize_timeline_key(s: &str) -> (r: String)
    ensures
        r@ == normalized_timeline_key(s@),
{
    if has_prefix(s, "timeline.") {
        String::from_str(s)
    } else {
        concat("timeline.", s)
    }
}

/// `s` itself where it is an event key, else the event key of `s`.
pub fn normalize_event_key(s: &str) -> (r: String)
    ensures
        r@ == normalized_event_key(s@),
{
    if has_prefix(s, "event.") {
        String::from_str(s)
    } else {
        concat("event.", s)
    }
}

} // verus!
