//! The attribute bag of one event, and the timestamp and event-name
//! conventions that its builder follows.

use crate::attributes::{AttrVal, AttrValue, Attributes, TimelineId};
use crate::frame::{Arg, Frame};
use crate::keys::{
    ev_attr_key, ev_internal_attr_key, event_key, internal_event_key, is_event_key,
    lemma_key_prefixes, normalize_event_key, normalized_event_key,
};
use crate::text::{
    chars_are, chars_of, last_index_of_char, rfind_char, skip_char_back, skip_char_back_from,
    slice_of,
};
use vstd::prelude::*;
use vstd::string::*;

verus! {

/// The text at key `k` of `m`, where `k` holds a text.
pub open spec fn string_at(m: Map<Seq<char>, AttrValue>, k: Seq<char>) -> Option<Seq<char>> {
    if m.dom().contains(k) {
        match m[k] {
            AttrValue::String(s) => Some(s),
            _ => None,
        }
    } else {
        None
    }
}

/// The 64-bit integer at key `k` of `m`, where `k` holds one.
pub open spec fn integer_at(m: Map<Seq<char>, AttrValue>, k: Seq<char>) -> Option<i64> {
    if m.dom().contains(k) {
        match m[k] {
            AttrValue::Integer(i) => Some(i),
            _ => None,
        }
    } else {
        None
    }
}

/// The raw timestamp of `m`: its internal timestamp attribute cut to 64
/// bits, where that attribute is an integer.
pub open spec fn raw_timestamp_at(m: Map<Seq<char>, AttrValue>) -> Option<u64> {
    let k = internal_event_key("timestamp"@);
    if m.dom().contains(k) {
        match m[k] {
            AttrValue::BigInt(v) => Some(v as u64),
            AttrValue::Integer(v) => Some(v as u64),
            _ => None,
        }
    } else {
        None
    }
}

/// `m` with its internal nonce moved to the visible nonce key; `m` itself
/// where it has no internal nonce.
pub open spec fn promoted(m: Map<Seq<char>, AttrValue>) -> Map<Seq<char>, AttrValue> {
    let k = internal_event_key("nonce"@);
    if m.dom().contains(k) {
        m.remove(k).insert(event_key("nonce"@), m[k])
    } else {
        m
    }
}

/// `m` with the interaction attributes set: on the visible keys where
/// interactions are enabled, on the internal ones where they are not.
pub open spec fn with_interaction(
    m: Map<Seq<char>, AttrValue>,
    enabled: bool,
    remote_timeline: TimelineId,
    remote_nonce: i64,
) -> Map<Seq<char>, AttrValue> {
    if enabled {
        m.insert(
            event_key("interaction.remote_timeline_id"@),
            AttrValue::TimelineId(remote_timeline.0),
        ).insert(event_key("interaction.remote_nonce"@), AttrValue::Integer(remote_nonce))
    } else {
        m.insert(
            internal_event_key("interaction.remote_timeline_id"@),
            AttrValue::TimelineId(remote_timeline.0),
        ).insert(internal_event_key("interaction.remote_nonce"@), AttrValue::Integer(remote_nonce))
    }
}

/// `m` with the pairs of `s` from position `i` on set in turn, each key
/// normalized to an event key.
pub open spec fn with_attrs(
    m: Map<Seq<char>, AttrValue>,
    s: Seq<(Seq<char>, AttrValue)>,
    i: int,
) -> Map<Seq<char>, AttrValue>
    decreases s.len() - i,
{
    if i < 0 || i >= s.len() {
        m
    } else {
        with_attrs(m.insert(normalized_event_key(s[i].0), s[i].1), s, i + 1)
    }
}

/// What a list of keys and values stands for.
pub open spec fn pair_values(v: Seq<(String, AttrVal)>) -> Seq<(Seq<char>, AttrValue)> {
    Seq::new(v.len(), |i: int| (v[i].0@, v[i].1@))
}

/// The visible nonce key is not the internal one.
pub proof fn lemma_nonce_keys_differ()
    ensures
        event_key("nonce"@) != internal_event_key("nonce"@),
{
    reveal_strlit("event.");
    reveal_strlit("event.internal.defmt.");
    reveal_strlit("nonce");
    assert(event_key("nonce"@).len() == 11);
    assert(internal_event_key("nonce"@).len() == 26);
}

/// Promoting the nonce of a record that was promoted changes nothing.
pub proof fn lemma_promote_idempotent(m: Map<Seq<char>, AttrValue>)
    ensures
        promoted(promoted(m)) == promoted(m),
{
    lemma_nonce_keys_differ();
}

/// Promotion puts the internal nonce, where there is one, on the visible
/// key, takes the internal key away and leaves every other key as it was.
pub proof fn lemma_promote_moves_nonce(m: Map<Seq<char>, AttrValue>)
    ensures
        !promoted(m).dom().contains(internal_event_key("nonce"@)),
        m.dom().contains(internal_event_key("nonce"@)) ==> promoted(m).dom().contains(
            event_key("nonce"@),
        ) && promoted(m)[event_key("nonce"@)] == m[internal_event_key("nonce"@)],
        forall|k: Seq<char>|
            k != event_key("nonce"@) && k != internal_event_key("nonce"@) ==> (promoted(
                m,
            ).dom().contains(k) <==> m.dom().contains(k)) && (m.dom().contains(k) ==> promoted(
                m,
            )[k] == m[k]),
{
    lemma_nonce_keys_differ();
}

/// The attributes of one event.
///
/// Every key of a record begins with `event.`.
#[derive(Debug)]
pub struct EventRecord {
    attributes: Attributes,
}

impl View for EventRecord {
    type V = Map<Seq<char>, AttrValue>;

    closed spec fn view(&self) -> Map<Seq<char>, AttrValue> {
        self.attributes@
    }
}

impl EventRecord {
    #[verifier::type_invariant]
    spec fn well_formed(&self) -> bool {
        forall|k: Seq<char>| self.attributes@.dom().contains(k) ==> is_event_key(k)
    }

    /// The key of the event attribute `k`.
    pub fn attr_key(k: &str) -> (r: String)
        ensures
            r@ == event_key(k@),
    {
        ev_attr_key(k)
    }

    /// The key of the internal event attribute `k`.
    pub fn internal_attr_key(k: &str) -> (r: String)
        ensures
            r@ == internal_event_key(k@),
    {
        ev_internal_attr_key(k)
    }

    /// A record without attributes.
    pub fn new() -> (r: Self)
        ensures
            r@ == Map::<Seq<char>, AttrValue>::empty(),
    {
        EventRecord { attributes: Attributes::new() }
    }

    /// A record with the given attributes, set in turn, each key normalized
    /// to an event key.
    pub fn from_iter(attrs: Vec<(String, AttrVal)>) -> (r: Self)
        ensures
            r@ == with_attrs(Map::empty(), pair_values(attrs@), 0),
    {
        let mut r = EventRecord::new();
        let mut i: usize = 0;
        while i < attrs.len()
            invariant
                i <= attrs.len(),
                with_attrs(Map::empty(), pair_values(attrs@), 0) == with_attrs(
                    r@,
                    pair_values(attrs@),
                    i as int,
                ),
            decreases attrs.len() - i,
        {
            let k: String = attrs[i].0.clone();
            let v: AttrVal = attrs[i].1.clone();
            r.insert_attr(k, v);
            i = i + 1;
        }
        r
    }

    /// Sets the attribute `k`, normalized to an event key, to `v`.
    pub fn insert_attr(&mut self, k: String, v: AttrVal)
        ensures
            final(self)@ == old(self)@.insert(normalized_event_key(k@), v@),
    {
        proof {
            use_type_invariant(&*self);
            lemma_key_prefixes(k@);
        }
        let key: String = normalize_event_key(k.as_str());
        let mut attributes: Attributes = Attributes::new();
        core::mem::swap(&mut self.attributes, &mut attributes);
        attributes.insert(key, v);
        core::mem::swap(&mut self.attributes, &mut attributes);
    }

    /// Sets the event attribute `k` to `v`.
    pub fn insert_event_attr(&mut self, k: &str, v: AttrVal)
        ensures
            final(self)@ == old(self)@.insert(event_key(k@), v@),
    {
        proof {
            lemma_key_prefixes(k@);
        }
        self.insert_attr(ev_attr_key(k), v);
    }

    /// Sets the internal event attribute `k` to `v`.
    pub fn insert_internal_attr(&mut self, k: &str, v: AttrVal)
        ensures
            final(self)@ == old(self)@.insert(internal_event_key(k@), v@),
    {
        proof {
            lemma_key_prefixes(k@);
        }
        self.insert_attr(ev_internal_attr_key(k), v);
    }

    /// Sets the interaction attributes: on the visible keys where
    /// interactions are enabled, on the internal ones where they are not.
    pub fn add_interaction(
        &mut self,
        interactions_enabled: bool,
        remote_tid: TimelineId,
        remote_nonce: i64,
    )
        ensures
            final(self)@ == with_interaction(
                old(self)@,
                interactions_enabled,
                remote_tid,
                remote_nonce,
            ),
    {
        if interactions_enabled {
            self.insert_event_attr(
                "interaction.remote_timeline_id",
                AttrVal::TimelineId(remote_tid),
            );
            self.insert_event_attr("interaction.remote_nonce", AttrVal::Integer(remote_nonce));
        } else {
            self.insert_internal_attr(
                "interaction.remote_timeline_id",
                AttrVal::TimelineId(remote_tid),
            );
            self.insert_internal_attr("interaction.remote_nonce", AttrVal::Integer(remote_nonce));
        }
    }

    /// Stamps the nonce on the internal key.
    pub fn add_internal_nonce(&mut self, nonce: i64)
        ensures
            final(self)@ == old(self)@.insert(
                internal_event_key("nonce"@),
                AttrValue::Integer(nonce),
            ),
    {
        self.insert_internal_attr("nonce", AttrVal::Integer(nonce));
    }

    /// Moves the internal nonce, where there is one, to the visible nonce
    /// key.
    pub fn promote_internal_nonce(&mut self)
        ensures
            final(self)@ == promoted(old(self)@),
    {
        proof {
            use_type_invariant(&*self);
        }
        let key: String = ev_internal_attr_key("nonce");
        let mut attributes: Attributes = Attributes::new();
        core::mem::swap(&mut self.attributes, &mut attributes);
        let taken: Option<AttrVal> = attributes.remove(key.as_str());
        core::mem::swap(&mut self.attributes, &mut attributes);
        match taken {
            Some(nonce) => {
                self.insert_event_attr("nonce", nonce);
            },
            None => {
                assert(self@ =~= old(self)@);
            },
        }
    }

    /// The text at the key `key`, where the key holds a text.
    fn string_attr(&self, key: &String) -> (r: Option<&str>)
        ensures
            match r {
                Some(s) => string_at(self@, key@) == Some(s@),
                None => string_at(self@, key@).is_none(),
            },
    {
        match self.attributes.get(key.as_str()) {
            Some(AttrVal::String(s)) => Some(s.as_str()),
            _ => None,
        }
    }

    /// The name of the event, where the record has one.
    pub fn event_name(&self) -> (r: Option<&str>)
        ensures
            match r {
                Some(s) => string_at(self@, event_key("name"@)) == Some(s@),
                None => string_at(self@, event_key("name"@)).is_none(),
            },
    {
        let key: String = ev_attr_key("name");
        self.string_attr(&key)
    }

    /// The task that the record names.
    pub fn task_name(&self) -> (r: Option<&str>)
        ensures
            match r {
                Some(s) => string_at(self@, event_key("task"@)) == Some(s@),
                None => string_at(self@, event_key("task"@)).is_none(),
            },
    {
        let key: String = ev_attr_key("task");
        self.string_attr(&key)
    }

    /// The interrupt that the record names.
    pub fn isr_name(&self) -> (r: Option<&str>)
        ensures
            match r {
                Some(s) => string_at(self@, event_key("isr"@)) == Some(s@),
                None => string_at(self@, event_key("isr"@)).is_none(),
            },
    {
        let key: String = ev_attr_key("isr");
        self.string_attr(&key)
    }

    /// The integration version of a start event: its `version` attribute
    /// cut to 16 bits.
    pub fn integration_version(&self) -> (r: Option<u16>)
        ensures
            r == match integer_at(self@, event_key("version"@)) {
                Some(v) => Some(v as u16),
                None => None,
            },
    {
        let key: String = ev_attr_key("version");
        match self.attributes.get(key.as_str()) {
            Some(AttrVal::Integer(version)) => Some(#[verifier::truncate] (*version as u16)),
            _ => None,
        }
    }

    /// The raw timestamp of the record, cut to 64 bits.
    pub fn timestamp_raw(&self) -> (r: Option<u64>)
        ensures
            r == raw_timestamp_at(self@),
    {
        let key: String = ev_internal_attr_key("timestamp");
        match self.attributes.get(key.as_str()) {
            Some(AttrVal::BigInt(v)) => Some(#[verifier::truncate] (*v as u64)),
            Some(AttrVal::Integer(v)) => Some(#[verifier::truncate] (*v as u64)),
            _ => None,
        }
    }

    /// The nonce on the internal key.
    pub fn internal_nonce(&self) -> (r: Option<i64>)
        ensures
            r == integer_at(self@, internal_event_key("nonce"@)),
    {
        let key: String = ev_internal_attr_key("nonce");
        match self.attributes.get(key.as_str()) {
            Some(AttrVal::Integer(n)) => Some(*n),
            _ => None,
        }
    }

    /// The value of the attribute `k`, if the record has it.
    pub fn get(&self, k: &str) -> (r: Option<&AttrVal>)
        ensures
            match r {
                Some(v) => self@.dom().contains(k@) && self@[k@] == v@,
                None => !self@.dom().contains(k@),
            },
    {
        self.attributes.get(k)
    }

    /// The attributes of the record: every key begins with `event.`.
    pub fn attributes(&self) -> (a: &Attributes)
        ensures
            a@ == self@,
            forall|k: Seq<char>| a@.dom().contains(k) ==> is_event_key(k),
    {
        proof {
            use_type_invariant(self);
        }
        &self.attributes
    }
}

impl Clone for EventRecord {
    fn clone(&self) -> (r: Self)
        ensures
            r@ == self@,
    {
        proof {
            use_type_invariant(self);
        }
        EventRecord { attributes: self.attributes.clone() }
    }
}

/// A frame's timestamp with its unit.
#[derive(Copy, Clone, PartialEq, Eq, Structural, Debug)]
pub enum Timestamp {
    Micros(u64),
    Millis(u64),
    Seconds(u64),
    Ticks(u64),
}

/// The count that a timestamp argument holds, where it is an integer that
/// fits in 64 bits without a sign.
pub open spec fn ticks_of_arg(arg: Arg) -> Option<u64> {
    match arg {
        Arg::Uxx(v) => if v <= u64::MAX {
            Some(v as u64)
        } else {
            None
        },
        Arg::Ixx(v) => if 0 <= v <= u64::MAX {
            Some(v as u64)
        } else {
            None
        },
        _ => None,
    }
}

/// The unit hint of a timestamp format: what stands behind its last `:`,
/// the closing braces at the end set aside.
pub open spec fn unit_hint(fmt: Seq<char>) -> Option<Seq<char>> {
    let e = skip_char_back(fmt, '}', fmt.len() as int);
    let r = rfind_char(fmt, ':', e);
    if r < 0 {
        None
    } else {
        Some(fmt.subrange(r + 1, e))
    }
}

/// The timestamp of a count under a unit hint, where the hint is known.
pub open spec fn timestamp_with_hint(ts: u64, hint: Option<Seq<char>>) -> Option<Timestamp> {
    match hint {
        None => Some(Timestamp::Ticks(ts)),
        Some(h) => if h == "us"@ || h == "tus"@ {
            Some(Timestamp::Micros(ts))
        } else if h == "ms"@ || h == "tms"@ {
            Some(Timestamp::Millis(ts))
        } else if h == "ts"@ {
            Some(Timestamp::Seconds(ts))
        } else {
            None
        },
    }
}

/// The timestamp of a frame: there is one where the frame has a timestamp
/// format with a known unit hint or none, and one argument that is a count.
pub open spec fn timestamp_of(f: Frame) -> Option<Timestamp> {
    match f.timestamp_format {
        None => None,
        Some(fmt) => if f.timestamp_args.len() != 1 {
            None
        } else {
            match ticks_of_arg(f.timestamp_args[0]) {
                None => None,
                Some(ts) => timestamp_with_hint(ts, unit_hint(fmt@)),
            }
        },
    }
}

/// The count that a timestamp argument holds, where it is an integer that
/// fits in 64 bits without a sign.
pub fn ts_from_arg(arg: &Arg) -> (r: Option<u64>)
    ensures
        r == ticks_of_arg(*arg),
{
    match arg {
        Arg::Uxx(v) => if *v <= 0xffff_ffff_ffff_ffffu128 {
            Some(*v as u64)
        } else {
            None
        },
        Arg::Ixx(v) => if 0 <= *v && *v <= 0xffff_ffff_ffff_ffffi128 {
            Some(*v as u64)
        } else {
            None
        },
        _ => None,
    }
}

impl Timestamp {
    /// The count, whatever the unit.
    pub open spec fn raw(self) -> u64 {
        match self {
            Timestamp::Micros(v) => v,
            Timestamp::Millis(v) => v,
            Timestamp::Seconds(v) => v,
            Timestamp::Ticks(v) => v,
        }
    }

    /// The nanoseconds in one unit; zero for ticks, which have no unit.
    pub open spec fn unit_nanos(self) -> int {
        match self {
            Timestamp::Micros(_) => 1_000,
            Timestamp::Millis(_) => 1_000_000,
            Timestamp::Seconds(_) => 1_000_000_000,
            Timestamp::Ticks(_) => 0,
        }
    }

    /// The timestamp in nanoseconds, where it has a unit and the product
    /// fits in 64 bits.
    pub open spec fn nanos(self) -> Option<u64> {
        if self is Ticks || self.raw() * self.unit_nanos() > u64::MAX {
            None
        } else {
            Some((self.raw() * self.unit_nanos()) as u64)
        }
    }

    /// The name of the unit.
    pub open spec fn unit_name(self) -> Seq<char> {
        match self {
            Timestamp::Micros(_) => "us"@,
            Timestamp::Millis(_) => "ms"@,
            Timestamp::Seconds(_) => "s"@,
            Timestamp::Ticks(_) => "ticks"@,
        }
    }

    /// The timestamp of a frame, where it has one that can be read.
    pub fn from_frame(f: &Frame) -> (r: Option<Self>)
        ensures
            r == timestamp_of(*f),
    {
        let fmt: Vec<char> = match &f.timestamp_format {
            Some(fmt) => chars_of(fmt.as_str()),
            None => {
                return None;
            },
        };
        if f.timestamp_args.len() != 1 {
            return None;
        }
        let ts: u64 = match ts_from_arg(&f.timestamp_args[0]) {
            Some(ts) => ts,
            None => {
                return None;
            },
        };
        let e: usize = skip_char_back_from(&fmt, '}', fmt.len());
        match last_index_of_char(&fmt, ':', e) {
            None => Some(Timestamp::Ticks(ts)),
            Some(r) => {
                let hint: Vec<char> = slice_of(&fmt, r + 1, e);
                if chars_are(&hint, "us") || chars_are(&hint, "tus") {
                    Some(Timestamp::Micros(ts))
                } else if chars_are(&hint, "ms") || chars_are(&hint, "tms") {
                    Some(Timestamp::Millis(ts))
                } else if chars_are(&hint, "ts") {
                    Some(Timestamp::Seconds(ts))
                } else {
                    None
                }
            },
        }
    }

    /// The count, whatever the unit.
    pub fn as_u64(&self) -> (v: u64)
        ensures
            v == self.raw(),
    {
        match self {
            Timestamp::Micros(v) => *v,
            Timestamp::Millis(v) => *v,
            Timestamp::Seconds(v) => *v,
            Timestamp::Ticks(v) => *v,
        }
    }

    /// The timestamp in nanoseconds, where it has a unit and the product
    /// fits in 64 bits.
    pub fn as_nanoseconds(&self) -> (ns: Option<u64>)
        ensures
            ns == self.nanos(),
    {
        match self {
            Timestamp::Micros(v) => v.checked_mul(1_000),
            Timestamp::Millis(v) => v.checked_mul(1_000_000),
            Timestamp::Seconds(v) => v.checked_mul(1_000_000_000),
            Timestamp::Ticks(_) => None,
        }
    }

    /// The name of the unit.
    pub fn typ_str(&self) -> (s: &'static str)
        ensures
            s@ == self.unit_name(),
    {
        match self {
            Timestamp::Micros(_) => "us",
            Timestamp::Millis(_) => "ms",
            Timestamp::Seconds(_) => "s",
            Timestamp::Ticks(_) => "ticks",
        }
    }
}

/// The events of the mutation protocol, whose identifiers travel as byte
/// slices.
#[derive(Copy, Clone, Eq, PartialEq, Structural, Ord, PartialOrd, Hash, Debug)]
pub enum DeviantEventKind {
    MutatorAnnounced,
    MutatorRetired,
    MutationCmdCommunicated,
    MutationClearCommunicated,
    MutationTriggered,
    MutationInjected,
}

/// The kind of mutation-protocol event that the name `name` stands for.
pub open spec fn deviant_kind(name: Seq<char>) -> Option<DeviantEventKind> {
    if name == "modality.mutator.announced"@ {
        Some(DeviantEventKind::MutatorAnnounced)
    } else if name == "modality.mutator.retired"@ {
        Some(DeviantEventKind::MutatorRetired)
    } else if name == "modality.mutation.command_communicated"@ {
        Some(DeviantEventKind::MutationCmdCommunicated)
    } else if name == "modality.mutation.clear_communicated"@ {
        Some(DeviantEventKind::MutationClearCommunicated)
    } else if name == "modality.mutation.triggered"@ {
        Some(DeviantEventKind::MutationTriggered)
    } else if name == "modality.mutation.injected"@ {
        Some(DeviantEventKind::MutationInjected)
    } else {
        None
    }
}

impl DeviantEventKind {
    /// The kind of mutation-protocol event that a name stands for.
    pub fn from_event_name(event_name: &str) -> (r: Option<Self>)
        ensures
            r == deviant_kind(event_name@),
    {
        let name: Vec<char> = chars_of(event_name);
        if chars_are(&name, "modality.mutator.announced") {
            Some(DeviantEventKind::MutatorAnnounced)
        } else if chars_are(&name, "modality.mutator.retired") {
            Some(DeviantEventKind::MutatorRetired)
        } else if chars_are(&name, "modality.mutation.command_communicated") {
            Some(DeviantEventKind::MutationCmdCommunicated)
        } else if chars_are(&name, "modality.mutation.clear_communicated") {
            Some(DeviantEventKind::MutationClearCommunicated)
        } else if chars_are(&name, "modality.mutation.triggered") {
            Some(DeviantEventKind::MutationTriggered)
        } else if chars_are(&name, "modality.mutation.injected") {
            Some(DeviantEventKind::MutationInjected)
        } else {
            None
        }
    }
}

} // verus!
