//! The key interning of the ingest client: every attribute key is declared
//! once and then sent by the identifier it was given.

use crate::attributes::{AttrVal, AttrValue, Attributes};
use crate::keys::{
    normalize_event_key, normalize_timeline_key, normalized_event_key, normalized_timeline_key,
};
use vstd::prelude::*;
use vstd::string::*;

verus! {

/// The identifier that the ingest service gives to a declared key.
pub type InternedAttrKey = u32;

/// The identifier of `key` in `m`, if it has one.
pub open spec fn interned(m: Map<Seq<char>, InternedAttrKey>, key: Seq<char>) -> Option<
    InternedAttrKey,
> {
    if m.dom().contains(key) {
        Some(m[key])
    } else {
        None
    }
}

/// `m` with the identifier `id` for `key`, unless `key` has one already.
pub open spec fn learned(
    m: Map<Seq<char>, InternedAttrKey>,
    key: Seq<char>,
    id: InternedAttrKey,
) -> Map<Seq<char>, InternedAttrKey> {
    if m.dom().contains(key) {
        m
    } else {
        m.insert(key, id)
    }
}

/// A key keeps the identifier it has: learning any key under any
/// identifier leaves the identifier of every known key as it was, and a key
/// that is learned has an identifier afterwards.
pub proof fn lemma_interning_is_stable(
    m: Map<Seq<char>, InternedAttrKey>,
    key: Seq<char>,
    id: InternedAttrKey,
    known: Seq<char>,
)
    ensures
        interned(m, known).is_some() ==> interned(learned(m, key, id), known) == interned(m, known),
        interned(learned(m, key, id), key).is_some(),
        interned(m, key).is_none() ==> interned(learned(m, key, id), key) == Some(id),
        learned(learned(m, key, id), key, id) == learned(m, key, id),
{
}

/// The keys that have been declared, with their identifiers.
#[derive(Debug)]
pub struct KeyInterner {
    known: Attributes,
}

impl View for KeyInterner {
    type V = Map<Seq<char>, InternedAttrKey>;

    closed spec fn view(&self) -> Map<Seq<char>, InternedAttrKey> {
        Map::new(
            |k: Seq<char>| self.known@.dom().contains(k),
            |k: Seq<char>|
                match self.known@[k] {
                    AttrValue::Integer(i) => i as u32,
                    _ => 0u32,
                },
        )
    }
}

impl KeyInterner {
    #[verifier::type_invariant]
    spec fn well_formed(&self) -> bool {
        forall|k: Seq<char>|
            self.known@.dom().contains(k) ==> (self.known@[k] matches AttrValue::Integer(i) && 0
                <= i <= u32::MAX)
    }

    /// An interner that knows no key.
    pub fn new() -> (r: Self)
        ensures
            r@ == Map::<Seq<char>, InternedAttrKey>::empty(),
    {
        let r = KeyInterner { known: Attributes::new() };
        assert(r@ =~= Map::<Seq<char>, InternedAttrKey>::empty());
        r
    }

    /// The identifier of a key, if the key has been declared.
    pub fn get(&self, key: &str) -> (r: Option<InternedAttrKey>)
        ensures
            r == interned(self@, key@),
    {
        proof {
            use_type_invariant(self);
        }
        match self.known.get(key) {
            Some(AttrVal::Integer(i)) => Some(*i as u32),
            _ => None,
        }
    }

    /// Notes the identifier that a key was declared under. A key that has
    /// an identifier keeps it.
    pub fn learn(&mut self, key: String, id: InternedAttrKey)
        ensures
            final(self)@ == learned(old(self)@, key@, id),
    {
        proof {
            use_type_invariant(&*self);
        }
        let mut known: Attributes = Attributes::new();
        core::mem::swap(&mut self.known, &mut known);
        if !known.contains_key(key.as_str()) {
            known.insert(key, AttrVal::Integer(id as i64));
        }
        core::mem::swap(&mut self.known, &mut known);
        assert(self@ =~= learned(old(self)@, key@, id));
    }
}

/// The client's memory of declared keys: one for timeline attributes, one
/// for event attributes, each consulted for its own kind alone.
#[derive(Debug)]
pub struct Client {
    timeline_keys: KeyInterner,
    event_keys: KeyInterner,
}

impl Client {
    /// The timeline attribute keys that have been declared.
    pub closed spec fn timeline_keys(&self) -> Map<Seq<char>, InternedAttrKey> {
        self.timeline_keys@
    }

    /// The event attribute keys that have been declared.
    pub closed spec fn event_keys(&self) -> Map<Seq<char>, InternedAttrKey> {
        self.event_keys@
    }

    /// A client that has declared no key.
    pub fn new() -> (r: Self)
        ensures
            r.timeline_keys() == Map::<Seq<char>, InternedAttrKey>::empty(),
            r.event_keys() == Map::<Seq<char>, InternedAttrKey>::empty(),
    {
        Client { timeline_keys: KeyInterner::new(), event_keys: KeyInterner::new() }
    }

    /// The key under which a timeline attribute is sent, and its
    /// identifier if the key has been declared.
    pub fn timeline_key(&self, k: &str) -> (r: (String, Option<InternedAttrKey>))
        ensures
            r.0@ == normalized_timeline_key(k@),
            r.1 == interned(self.timeline_keys(), normalized_timeline_key(k@)),
    {
        let key: String = normalize_timeline_key(k);
        let id: Option<InternedAttrKey> = self.timeline_keys.get(key.as_str());
        (key, id)
    }

    /// The key under which an event attribute is sent, and its identifier
    /// if the key has been declared.
    pub fn event_key(&self, k: &str) -> (r: (String, Option<InternedAttrKey>))
        ensures
            r.0@ == normalized_event_key(k@),
            r.1 == interned(self.event_keys(), normalized_event_key(k@)),
    {
        let key: String = normalize_event_key(k);
        let id: Option<InternedAttrKey> = self.event_keys.get(key.as_str());
        (key, id)
    }

    /// Notes the identifier that a timeline attribute key was declared
    /// under.
    pub fn learn_timeline_key(&mut self, key: String, id: InternedAttrKey)
        ensures
            final(self).timeline_keys() == learned(old(self).timeline_keys(), key@, id),
            final(self).event_keys() == old(self).event_keys(),
    {
        self.timeline_keys.learn(key, id);
    }

    /// Notes the identifier that an event attribute key was declared under.
    pub fn learn_event_key(&mut self, key: String, id: InternedAttrKey)
        ensures
            final(self).event_keys() == learned(old(self).event_keys(), key@, id),
            final(self).timeline_keys() == old(self).timeline_keys(),
    {
        self.event_keys.learn(key, id);
    }
}

} // verus!
