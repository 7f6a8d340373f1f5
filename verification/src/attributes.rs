//! Attribute values and the attribute bag that events and timelines carry.

use crate::text::{compare_texts, lemma_text_less_is_an_order, text_less};
use vstd::prelude::*;
use vstd::string::*;

verus! {

/// The 128-bit identifier of a timeline.
#[derive(Copy, Clone, PartialEq, Eq, Structural, PartialOrd, Ord, Hash, Debug)]
pub struct TimelineId(pub u128);

/// A typed attribute value.
///
/// A `Float` holds the IEEE-754 bits of a double, a `Timestamp` a count of
/// nanoseconds, an `EventCoordinate` the 16 bytes of a timeline identifier
/// and the 16 of an event identifier, a `LogicalTime` its four segments
/// from the most significant.
#[derive(PartialEq, Eq, Debug)]
pub enum AttrVal {
    TimelineId(TimelineId),
    EventCoordinate([u8; 32]),
    String(String),
    Integer(i64),
    BigInt(i128),
    Float(u64),
    Bool(bool),
    Timestamp(u64),
    LogicalTime([u64; 4]),
}

/// What an `AttrVal` stands for.
pub enum AttrValue {
    TimelineId(u128),
    EventCoordinate(Seq<u8>),
    String(Seq<char>),
    Integer(i64),
    BigInt(i128),
    Float(u64),
    Bool(bool),
    Timestamp(u64),
    LogicalTime(Seq<u64>),
}

impl View for AttrVal {
    type V = AttrValue;

    open spec fn view(&self) -> AttrValue {
        match self {
            AttrVal::TimelineId(t) => AttrValue::TimelineId(t.0),
            AttrVal::EventCoordinate(c) => AttrValue::EventCoordinate(c@),
            AttrVal::String(s) => AttrValue::String(s@),
            AttrVal::Integer(i) => AttrValue::Integer(*i),
            AttrVal::BigInt(i) => AttrValue::BigInt(*i),
            AttrVal::Float(f) => AttrValue::Float(*f),
            AttrVal::Bool(b) => AttrValue::Bool(*b),
            AttrVal::Timestamp(t) => AttrValue::Timestamp(*t),
            AttrVal::LogicalTime(l) => AttrValue::LogicalTime(l@),
        }
    }
}

/// The value that stands for the integer `v`: an `Integer` where `v` fits in
/// 64 bits, a `BigInt` where it does not.
pub open spec fn integer_value(v: int) -> AttrValue {
    if i64::MIN <= v <= i64::MAX {
        AttrValue::Integer(v as i64)
    } else {
        AttrValue::BigInt(v as i128)
    }
}

impl Clone for AttrVal {
    fn clone(&self) -> (r: Self)
        ensures
            r@ == self@,
    {
        match self {
            AttrVal::TimelineId(t) => AttrVal::TimelineId(*t),
            AttrVal::EventCoordinate(c) => AttrVal::EventCoordinate(*c),
            AttrVal::String(s) => AttrVal::String(s.clone()),
            AttrVal::Integer(i) => AttrVal::Integer(*i),
            AttrVal::BigInt(i) => AttrVal::BigInt(*i),
            AttrVal::Float(f) => AttrVal::Float(*f),
            AttrVal::Bool(b) => AttrVal::Bool(*b),
            AttrVal::Timestamp(t) => AttrVal::Timestamp(*t),
            AttrVal::LogicalTime(l) => AttrVal::LogicalTime(*l),
        }
    }
}

impl AttrVal {
    /// The value for a signed integer of up to 128 bits.
    pub fn from_i128(v: i128) -> (r: AttrVal)
        ensures
            r@ == integer_value(v as int),
    {
        if v < -0x8000_0000_0000_0000i128 || v > 0x7fff_ffff_ffff_ffffi128 {
            AttrVal::BigInt(v)
        } else {
            AttrVal::Integer(v as i64)
        }
    }

    /// The value for an unsigned 64-bit integer.
    pub fn from_u64(v: u64) -> (r: AttrVal)
        ensures
            r@ == integer_value(v as int),
    {
        Self::from_i128(v as i128)
    }

    /// The value for a text.
    pub fn from_str(s: &str) -> (r: AttrVal)
        ensures
            r@ == AttrValue::String(s@),
    {
        AttrVal::String(String::from_str(s))
    }
}

/// The mapping that a list of key and value pairs stands for: each pair
/// inserted in turn, so that the last pair of a key is the one that counts.
pub open spec fn map_of(s: Seq<(Seq<char>, AttrValue)>) -> Map<Seq<char>, AttrValue>
    decreases s.len(),
{
    if s.len() == 0 {
        Map::empty()
    } else {
        map_of(s.drop_last()).insert(s.last().0, s.last().1)
    }
}

/// Whether no key stands twice in `s`.
pub open spec fn distinct_keys(s: Seq<(Seq<char>, AttrValue)>) -> bool {
    forall|i: int, j: int| 0 <= i < j < s.len() ==> s[i].0 != s[j].0
}

/// A key is in the mapping exactly when some pair has it.
pub proof fn lemma_map_of_domain(s: Seq<(Seq<char>, AttrValue)>, k: Seq<char>)
    ensures
        map_of(s).dom().contains(k) <==> exists|i: int| 0 <= i < s.len() && (#[trigger] s[i]).0
            == k,
    decreases s.len(),
{
    if s.len() > 0 {
        let t = s.drop_last();
        lemma_map_of_domain(t, k);
        if map_of(s).dom().contains(k) {
            if s.last().0 == k {
                assert(s[s.len() - 1].0 == k);
            } else {
                let i = choose|i: int| 0 <= i < t.len() && (#[trigger] t[i]).0 == k;
                assert(s[i].0 == k);
            }
        }
        if exists|i: int| 0 <= i < s.len() && (#[trigger] s[i]).0 == k {
            let i = choose|i: int| 0 <= i < s.len() && (#[trigger] s[i]).0 == k;
            if i < s.len() - 1 {
                assert(t[i].0 == k);
            }
        }
    }
}

/// Where no key stands twice, every pair gives the value of its key.
pub proof fn lemma_map_of_index(s: Seq<(Seq<char>, AttrValue)>, i: int)
    requires
        distinct_keys(s),
        0 <= i < s.len(),
    ensures
        map_of(s).dom().contains(s[i].0),
        map_of(s)[s[i].0] == s[i].1,
    decreases s.len(),
{
    let t = s.drop_last();
    if i < s.len() - 1 {
        assert(distinct_keys(t)) by {
            assert forall|a: int, b: int| 0 <= a < b < t.len() implies t[a].0 != t[b].0 by {
                assert(s[a].0 != s[b].0);
            }
        }
        lemma_map_of_index(t, i);
        assert(t[i] == s[i]);
        assert(s[i].0 != s[s.len() - 1].0);
    }
}

/// Where no key stands twice, taking a pair out takes its key out of the
/// mapping and leaves the rest.
pub proof fn lemma_map_of_remove(s: Seq<(Seq<char>, AttrValue)>, i: int)
    requires
        distinct_keys(s),
        0 <= i < s.len(),
    ensures
        map_of(s.remove(i)) =~= map_of(s).remove(s[i].0),
        distinct_keys(s.remove(i)),
    decreases s.len(),
{
    let r = s.remove(i);
    assert(distinct_keys(r)) by {
        assert forall|a: int, b: int| 0 <= a < b < r.len() implies r[a].0 != r[b].0 by {
            let a2 = if a < i {
                a
            } else {
                a + 1
            };
            let b2 = if b < i {
                b
            } else {
                b + 1
            };
            assert(s[a2].0 != s[b2].0);
        }
    }
    let t = s.drop_last();
    if i == s.len() - 1 {
        assert(r =~= t);
        lemma_map_of_domain(t, s[i].0);
        if map_of(t).dom().contains(s[i].0) {
            let j = choose|j: int| 0 <= j < t.len() && (#[trigger] t[j]).0 == s[i].0;
            assert(s[j].0 == s[i].0);
        }
    } else {
        assert(distinct_keys(t)) by {
            assert forall|a: int, b: int| 0 <= a < b < t.len() implies t[a].0 != t[b].0 by {
                assert(s[a].0 != s[b].0);
            }
        }
        lemma_map_of_remove(t, i);
        assert(r.drop_last() =~= t.remove(i));
        assert(r.last() == s.last());
        assert(t[i] == s[i]);
        assert(s[i].0 != s[s.len() - 1].0);
    }
}

/// Whether the keys of `s` stand in the order of texts, each before the
/// next.
pub open spec fn sorted_keys(s: Seq<(Seq<char>, AttrValue)>) -> bool {
    forall|i: int, j: int| 0 <= i < j < s.len() ==> text_less(s[i].0, s[j].0)
}

/// Keys that stand in order are distinct.
pub proof fn lemma_sorted_keys_are_distinct(s: Seq<(Seq<char>, AttrValue)>)
    requires
        sorted_keys(s),
    ensures
        distinct_keys(s),
{
    assert forall|i: int, j: int| 0 <= i < j < s.len() implies s[i].0 != s[j].0 by {
        lemma_text_less_is_an_order(s[i].0, s[j].0, s[j].0);
    }
}

/// A new key put at any place sets its value and leaves the values of the
/// other keys as they were.
pub proof fn lemma_map_of_insert_at(
    s: Seq<(Seq<char>, AttrValue)>,
    p: int,
    k: Seq<char>,
    v: AttrValue,
)
    requires
        distinct_keys(s),
        0 <= p <= s.len(),
        forall|i: int| 0 <= i < s.len() ==> (#[trigger] s[i]).0 != k,
    ensures
        distinct_keys(s.insert(p, (k, v))),
        map_of(s.insert(p, (k, v))) =~= map_of(s).insert(k, v),
{
    let t = s.insert(p, (k, v));
    assert(distinct_keys(t)) by {
        assert forall|a: int, b: int| 0 <= a < b < t.len() implies t[a].0 != t[b].0 by {
            if a != p && b != p {
                let a2 = if a < p {
                    a
                } else {
                    a - 1
                };
                let b2 = if b < p {
                    b
                } else {
                    b - 1
                };
                assert(s[a2].0 != s[b2].0);
            } else if a == p {
                assert(t[b] == s[b - 1]);
            } else {
                assert(t[a] == s[a]);
            }
        }
    }
    assert forall|x: Seq<char>| map_of(t).dom().contains(x) == map_of(s).insert(
        k,
        v,
    ).dom().contains(x) by {
        lemma_map_of_domain(t, x);
        lemma_map_of_domain(s, x);
        if exists|i: int| 0 <= i < t.len() && (#[trigger] t[i]).0 == x {
            let i = choose|i: int| 0 <= i < t.len() && (#[trigger] t[i]).0 == x;
            if i < p {
                assert(s[i].0 == x);
            } else if i > p {
                assert(s[i - 1].0 == x);
            }
        }
        if exists|i: int| 0 <= i < s.len() && (#[trigger] s[i]).0 == x {
            let i = choose|i: int| 0 <= i < s.len() && (#[trigger] s[i]).0 == x;
            if i < p {
                assert(t[i].0 == x);
            } else {
                assert(t[i + 1].0 == x);
            }
        }
        if x == k {
            assert(t[p].0 == x);
        }
    }
    assert forall|x: Seq<char>| map_of(t).dom().contains(x) implies map_of(t)[x] == map_of(
        s,
    ).insert(k, v)[x] by {
        lemma_map_of_domain(t, x);
        let i = choose|i: int| 0 <= i < t.len() && (#[trigger] t[i]).0 == x;
        lemma_map_of_index(t, i);
        if i < p {
            assert(t[i] == s[i]);
            lemma_map_of_index(s, i);
        } else if i > p {
            assert(t[i] == s[i - 1]);
            lemma_map_of_index(s, i - 1);
        }
    }
}

/// A bag of attributes: a mapping from keys to typed values, kept in the
/// order of its keys.
#[derive(Debug)]
pub struct Attributes {
    entries: Vec<(String, AttrVal)>,
}

impl View for Attributes {
    type V = Map<Seq<char>, AttrValue>;

    open spec fn view(&self) -> Map<Seq<char>, AttrValue> {
        map_of(self.pairs())
    }
}

impl Attributes {
    /// The keys and values in the order in which they are held: the order
    /// of the keys.
    pub closed spec fn pairs(&self) -> Seq<(Seq<char>, AttrValue)> {
        Seq::new(self.entries@.len(), |i: int| (self.entries@[i].0@, self.entries@[i].1@))
    }

    #[verifier::type_invariant]
    spec fn well_formed(&self) -> bool {
        sorted_keys(self.pairs())
    }

    /// A bag without attributes.
    pub fn new() -> (r: Self)
        ensures
            r@ == Map::<Seq<char>, AttrValue>::empty(),
            r.pairs().len() == 0,
    {
        let r = Attributes { entries: Vec::new() };
        assert(r.pairs() =~= Seq::empty());
        r
    }

    /// The number of keys.
    pub fn len(&self) -> (n: usize)
        ensures
            n == self.pairs().len(),
            sorted_keys(self.pairs()),
            distinct_keys(self.pairs()),
    {
        proof {
            use_type_invariant(self);
            lemma_sorted_keys_are_distinct(self.pairs());
        }
        self.entries.len()
    }

    /// The key at position `i`.
    pub fn key_at(&self, i: usize) -> (k: &String)
        requires
            i < self.pairs().len(),
        ensures
            k@ == self.pairs()[i as int].0,
    {
        &self.entries[i].0
    }

    /// The value at position `i`.
    pub fn value_at(&self, i: usize) -> (v: &AttrVal)
        requires
            i < self.pairs().len(),
        ensures
            v@ == self.pairs()[i as int].1,
    {
        &self.entries[i].1
    }

    /// The position of the key `k`, if the bag has it.
    fn position(&self, k: &str) -> (r: Option<usize>)
        ensures
            distinct_keys(self.pairs()),
            match r {
                Some(i) => i < self.pairs().len() && self.pairs()[i as int].0 == k@,
                None => !self@.dom().contains(k@),
            },
    {
        proof {
            use_type_invariant(self);
            lemma_sorted_keys_are_distinct(self.pairs());
        }
        let key: String = String::from_str(k);
        let mut i: usize = 0;
        while i < self.entries.len()
            invariant
                i <= self.entries.len(),
                key@ == k@,
                distinct_keys(self.pairs()),
                forall|j: int| 0 <= j < i ==> (#[trigger] self.pairs()[j]).0 != k@,
            decreases self.entries.len() - i,
        {
            if self.entries[i].0 == key {
                return Some(i);
            }
            i = i + 1;
        }
        proof {
            lemma_map_of_domain(self.pairs(), k@);
        }
        None
    }

    /// Whether the bag has the key `k`.
    pub fn contains_key(&self, k: &str) -> (r: bool)
        ensures
            r == self@.dom().contains(k@),
    {
        match self.position(k) {
            Some(i) => {
                proof {
                    lemma_map_of_index(self.pairs(), i as int);
                }
                true
            },
            None => false,
        }
    }

    /// The value of the key `k`, if the bag has it.
    pub fn get(&self, k: &str) -> (r: Option<&AttrVal>)
        ensures
            match r {
                Some(v) => self@.dom().contains(k@) && self@[k@] == v@,
                None => !self@.dom().contains(k@),
            },
    {
        match self.position(k) {
            Some(i) => {
                proof {
                    lemma_map_of_index(self.pairs(), i as int);
                }
                Some(&self.entries[i].1)
            },
            None => None,
        }
    }

    /// Takes the key `k` out and returns the value that it had.
    pub fn remove(&mut self, k: &str) -> (r: Option<AttrVal>)
        ensures
            final(self)@ == old(self)@.remove(k@),
            match r {
                Some(v) => old(self)@.dom().contains(k@) && old(self)@[k@] == v@,
                None => !old(self)@.dom().contains(k@),
            },
    {
        match self.position(k) {
            Some(i) => {
                let ghost before = self.pairs();
                proof {
                    use_type_invariant(&*self);
                    lemma_sorted_keys_are_distinct(self.pairs());
                    lemma_map_of_index(before, i as int);
                    lemma_map_of_remove(before, i as int);
                    let after = before.remove(i as int);
                    assert forall|a: int, b: int| 0 <= a < b < after.len() implies text_less(
                        after[a].0,
                        after[b].0,
                    ) by {
                        let a2 = if a < i {
                            a
                        } else {
                            a + 1
                        };
                        let b2 = if b < i {
                            b
                        } else {
                            b + 1
                        };
                        assert(text_less(before[a2].0, before[b2].0));
                    }
                }
                let mut entries: Vec<(String, AttrVal)> = Vec::new();
                core::mem::swap(&mut self.entries, &mut entries);
                let e = entries.remove(i);
                assert(Seq::new(entries@.len(), |j: int| (entries@[j].0@, entries@[j].1@))
                    =~= before.remove(i as int));
                core::mem::swap(&mut self.entries, &mut entries);
                assert(self.pairs() =~= before.remove(i as int));
                Some(e.1)
            },
            None => {
                assert(self@ =~= self@.remove(k@));
                None
            },
        }
    }

    /// Sets the key `k` to the value `v`.
    pub fn insert(&mut self, k: String, v: AttrVal)
        ensures
            final(self)@ == old(self)@.insert(k@, v@),
    {
        let ghost start = self@;
        let _ = self.remove(k.as_str());
        let ghost before = self.pairs();
        proof {
            use_type_invariant(&*self);
            lemma_sorted_keys_are_distinct(self.pairs());
            lemma_map_of_domain(before, k@);
        }
        let mut p: usize = 0;
        while p < self.entries.len() && compare_texts(self.entries[p].0.as_str(), k.as_str()) < 0
            invariant
                p <= self.entries.len(),
                before == self.pairs(),
                forall|j: int| 0 <= j < p ==> text_less((#[trigger] before[j]).0, k@),
            decreases self.entries.len() - p,
        {
            p = p + 1;
        }
        let ghost kv = (k@, v@);
        proof {
            lemma_map_of_insert_at(before, p as int, k@, v@);
            let after = before.insert(p as int, kv);
            assert forall|i: int, j: int| 0 <= i < j < after.len() implies text_less(
                after[i].0,
                after[j].0,
            ) by {
                if j < p {
                    assert(after[i] == before[i] && after[j] == before[j]);
                } else if j == p {
                    assert(after[i] == before[i]);
                } else {
                    assert(after[j] == before[j - 1]);
                    assert(before[p as int].0 != k@);
                    lemma_text_less_is_an_order(before[p as int].0, k@, k@);
                    if i < p {
                        assert(after[i] == before[i]);
                    } else if i == p {
                        if j - 1 > p {
                            lemma_text_less_is_an_order(k@, before[p as int].0, before[j - 1].0);
                        }
                    } else {
                        assert(after[i] == before[i - 1]);
                    }
                }
            }
        }
        let mut entries: Vec<(String, AttrVal)> = Vec::new();
        core::mem::swap(&mut self.entries, &mut entries);
        entries.insert(p, (k, v));
        assert(Seq::new(entries@.len(), |j: int| (entries@[j].0@, entries@[j].1@))
            =~= before.insert(p as int, kv));
        core::mem::swap(&mut self.entries, &mut entries);
        assert(self.pairs() =~= before.insert(p as int, kv));
        assert(self@ =~= start.insert(kv.0, kv.1));
    }

    /// The keys and values, copied out in the order of the keys.
    pub fn to_vec(&self) -> (r: Vec<(String, AttrVal)>)
        ensures
            r.len() == self.pairs().len(),
            sorted_keys(self.pairs()),
            forall|i: int|
                0 <= i < r.len() ==> (#[trigger] r[i]).0@ == self.pairs()[i].0 && r[i].1@
                    == self.pairs()[i].1,
    {
        proof {
            use_type_invariant(self);
            lemma_sorted_keys_are_distinct(self.pairs());
        }
        let mut r: Vec<(String, AttrVal)> = Vec::new();
        let mut i: usize = 0;
        while i < self.entries.len()
            invariant
                i <= self.entries.len(),
                r.len() == i,
                forall|j: int|
                    0 <= j < i ==> (#[trigger] r[j]).0@ == self.pairs()[j].0 && r[j].1@
                        == self.pairs()[j].1,
            decreases self.entries.len() - i,
        {
            let k: String = self.entries[i].0.clone();
            let v: AttrVal = self.entries[i].1.clone();
            r.push((k, v));
            i = i + 1;
        }
        r
    }
}

impl Clone for Attributes {
    fn clone(&self) -> (r: Self)
        ensures
            r.pairs() == self.pairs(),
            r@ == self@,
    {
        proof {
            use_type_invariant(self);
            lemma_sorted_keys_are_distinct(self.pairs());
        }
        let entries = self.to_vec();
        let r = Attributes { entries };
        assert(r.pairs() =~= self.pairs());
        r
    }
}

} // verus!
