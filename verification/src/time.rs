//! Clock rates and rollover-tracking tick counters.

use crate::text::{
    chars_of, concat, decimal_value, find_char, index_of_char, parse_decimal, slice_of, trim,
    trimmed,
};
use vstd::prelude::*;
use vstd::std_specs::ops::MulSpecImpl;
use vstd::string::*;

verus! {

/// An instant in nanoseconds.
pub type InstantNanos = u64;

/// An instant in ticks of a clock.
pub type InstantTicks = u64;

/// Nanoseconds in one second.
pub const NS_PER_SEC: u64 = 1_000_000_000;

/// A frequency in Hz, held as the fraction `nom / denom`.
///
/// A rate is never zero and never above one: `0 < nom <= denom`.
#[derive(Copy, Clone, Eq, PartialEq, Structural, Ord, PartialOrd, Hash, Debug)]
pub struct Rate {
    nom: u64,
    denom: u64,
}

/// The two trimmed sides of a text with exactly one `/`, where neither side
/// is empty.
pub open spec fn rate_parts(s: Seq<char>) -> Option<(Seq<char>, Seq<char>)> {
    let e = find_char(s, '/', 0);
    let a = trim(s.subrange(0, e));
    let b = trim(s.subrange(e + 1, s.len() as int));
    if e < s.len() && find_char(s, '/', e + 1) == s.len() && a.len() > 0 && b.len() > 0 {
        Some((a, b))
    } else {
        None
    }
}

/// The numerator and denominator that the text `s` gives: two decimal
/// numbers around one `/` that make a rate.
pub open spec fn parsed_rate(s: Seq<char>) -> Option<(u64, u64)> {
    match rate_parts(s) {
        Some((a, b)) => match (decimal_value(a), decimal_value(b)) {
            (Some(n), Some(d)) => if Rate::valid_parts(n, d) {
                Some((n, d))
            } else {
                None
            },
            _ => None,
        },
        None => None,
    }
}

/// The message for a text that gives no rate.
pub open spec fn invalid_rate_message(s: Seq<char>) -> Seq<char> {
    "Invalid rate '"@ + s
        + "', use the supported format 'numerator/denominator' with valid components."@
}

/// The message for a text that gives no rate.
fn invalid_rate(s: &str) -> (r: String)
    ensures
        r@ == invalid_rate_message(s@),
{
    let head: String = concat("Invalid rate '", s);
    concat(
        head.as_str(),
        "', use the supported format 'numerator/denominator' with valid components.",
    )
}

impl Rate {
    /// Reads a rate from a text of the form `numerator/denominator`.
    pub fn parse(s: &str) -> (r: Result<Self, String>)
        ensures
            match r {
                Ok(rate) => parsed_rate(s@) == Some(
                    (rate.spec_numerator(), rate.spec_denominator()),
                ),
                Err(msg) => parsed_rate(s@).is_none() && msg@ == invalid_rate_message(s@),
            },
    {
        let chars: Vec<char> = chars_of(s);
        let e: usize = index_of_char(&chars, '/', 0);
        if e >= chars.len() {
            return Err(invalid_rate(s));
        }
        if index_of_char(&chars, '/', e + 1) != chars.len() {
            return Err(invalid_rate(s));
        }
        let a: Vec<char> = trimmed(&slice_of(&chars, 0, e));
        let b: Vec<char> = trimmed(&slice_of(&chars, e + 1, chars.len()));
        if a.len() == 0 || b.len() == 0 {
            return Err(invalid_rate(s));
        }
        match (parse_decimal(&a), parse_decimal(&b)) {
            (Some(n), Some(d)) => match Rate::new(n, d) {
                Some(rate) => Ok(rate),
                None => Err(invalid_rate(s)),
            },
            _ => Err(invalid_rate(s)),
        }
    }

    /// Whether `nom / denom` is a rate this type can hold.
    pub open spec fn valid_parts(nom: u64, denom: u64) -> bool {
        0 < nom && nom <= denom
    }

    /// The numerator of the rate.
    pub closed spec fn spec_numerator(&self) -> u64 {
        self.nom
    }

    /// The denominator of the rate.
    pub closed spec fn spec_denominator(&self) -> u64 {
        self.denom
    }

    #[verifier::type_invariant]
    spec fn well_formed(self) -> bool {
        Self::valid_parts(self.nom, self.denom)
    }

    /// The nanoseconds that `ticks` ticks last at this rate, rounded down.
    pub open spec fn nanos_of(self, ticks: u64) -> int {
        (self.spec_numerator() * ticks * NS_PER_SEC) / (self.spec_denominator() as int)
    }

    /// The rate `nom / denom`, where that is a rate: neither part zero,
    /// and the numerator no larger than the denominator.
    pub fn new(nom: u64, denom: u64) -> (r: Option<Self>)
        ensures
            r.is_some() <==> Self::valid_parts(nom, denom),
            r matches Some(rate) ==> rate.spec_numerator() == nom && rate.spec_denominator()
                == denom,
    {
        if nom == 0 || denom == 0 || nom > denom {
            None
        } else {
            Some(Self { nom, denom })
        }
    }

    /// The numerator of the rate.
    #[verifier::when_used_as_spec(spec_numerator)]
    pub fn numerator(&self) -> (n: u64)
        ensures
            n == self.spec_numerator(),
            0 < n <= self.spec_denominator(),
    {
        proof {
            use_type_invariant(self);
        }
        self.nom
    }

    /// The denominator of the rate.
    #[verifier::when_used_as_spec(spec_denominator)]
    pub fn denominator(&self) -> (d: u64)
        ensures
            d == self.spec_denominator(),
            self.spec_numerator() <= d,
            0 < d,
    {
        proof {
            use_type_invariant(self);
        }
        self.denom
    }
}

impl core::str::FromStr for Rate {
    type Err = String;

    /// Reads a rate from a text of the form `numerator/denominator`.
    fn from_str(s: &str) -> (r: Result<Self, String>)
        ensures
            match r {
                Ok(rate) => parsed_rate(s@) == Some(
                    (rate.spec_numerator(), rate.spec_denominator()),
                ),
                Err(msg) => parsed_rate(s@).is_none() && msg@ == invalid_rate_message(s@),
            },
    {
        Self::parse(s)
    }
}

impl MulSpecImpl<InstantTicks> for Rate {
    open spec fn obeys_mul_spec() -> bool {
        true
    }

    open spec fn mul_req(self, rhs: InstantTicks) -> bool {
        self.spec_numerator() * rhs * NS_PER_SEC <= u64::MAX
    }

    open spec fn mul_spec(self, rhs: InstantTicks) -> InstantNanos {
        self.nanos_of(rhs) as u64
    }
}

impl core::ops::Mul<InstantTicks> for Rate {
    type Output = InstantNanos;

    /// Converts a count of ticks to nanoseconds, rounding down.
    fn mul(self, rhs: InstantTicks) -> (ns: InstantNanos)
        ensures
            ns == self.nanos_of(rhs),
    {
        proof {
            use_type_invariant(&self);
            assert(self.nom * rhs <= self.nom * rhs * NS_PER_SEC) by (nonlinear_arith)
                requires
                    0 <= self.nom * rhs,
                    NS_PER_SEC >= 1,
            ;
        }
        let scaled: u64 = self.nom * rhs;
        (scaled * NS_PER_SEC) / self.denom
    }
}

/// A tick counter type that a `TrackingInstant` can extend: an unsigned
/// integer of at most 32 bits.
pub trait TicksExt: Copy {
    /// The value as a count of ticks.
    spec fn spec_ticks(self) -> u64;

    /// The number of bits of the type.
    spec fn spec_width() -> u32;

    /// The smallest value of the type.
    fn zero() -> (z: Self)
        ensures
            z.spec_ticks() == 0;

    /// The number of bits of the type.
    fn width() -> (w: u32)
        ensures
            w == Self::spec_width(),
            w <= 32;

    /// The value as a count of ticks, which fits in the bits of the type.
    fn to_ticks(self) -> (t: InstantTicks)
        ensures
            t == self.spec_ticks(),
            t < pow2_u64(Self::spec_width());
}

/// Two to the power `w`, for `w` below 64.
pub open spec fn pow2_u64(w: u32) -> u64 {
    1u64 << (w as u64)
}

impl TicksExt for u8 {
    open spec fn spec_ticks(self) -> u64 {
        self as u64
    }

    open spec fn spec_width() -> u32 {
        8
    }

    fn zero() -> u8 {
        0
    }

    fn width() -> u32 {
        8
    }

    fn to_ticks(self) -> InstantTicks {
        assert(1u64 << 8u64 == 256) by (bit_vector);
        self as u64
    }
}

impl TicksExt for u16 {
    open spec fn spec_ticks(self) -> u64 {
        self as u64
    }

    open spec fn spec_width() -> u32 {
        16
    }

    fn zero() -> u16 {
        0
    }

    fn width() -> u32 {
        16
    }

    fn to_ticks(self) -> InstantTicks {
        assert(1u64 << 16u64 == 65536) by (bit_vector);
        self as u64
    }
}

impl TicksExt for u32 {
    open spec fn spec_ticks(self) -> u64 {
        self as u64
    }

    open spec fn spec_width() -> u32 {
        32
    }

    fn zero() -> u32 {
        0
    }

    fn width() -> u32 {
        32
    }

    fn to_ticks(self) -> InstantTicks {
        assert(1u64 << 32u64 == 0x1_0000_0000) by (bit_vector);
        self as u64
    }
}

/// An instant in ticks that counts the rollovers of a narrow tick counter.
#[derive(Clone, Debug)]
pub struct TrackingInstant<T: TicksExt> {
    lower: T,
    upper: u32,
}

impl<T: TicksExt> TrackingInstant<T> {
    /// The last counter value seen.
    pub closed spec fn spec_lower(&self) -> u64 {
        self.lower.spec_ticks()
    }

    /// The number of rollovers seen.
    pub closed spec fn spec_upper(&self) -> u32 {
        self.upper
    }

    /// The instant as one number: the rollovers above the counter's bits.
    pub open spec fn spec_as_ticks(&self) -> int {
        self.spec_upper() * pow2_u64(T::spec_width()) + self.spec_lower()
    }

    /// An instant that has seen no tick and no rollover.
    pub fn zero() -> (z: Self)
        ensures
            z.spec_lower() == 0,
            z.spec_upper() == 0,
    {
        Self { lower: T::zero(), upper: 0 }
    }

    /// Records the counter value `now`, counting a rollover when it is below
    /// the value recorded before, and returns the instant.
    pub fn elapsed(&mut self, now: T) -> (t: InstantTicks)
        requires
            now.spec_ticks() < old(self).spec_lower() ==> old(self).spec_upper() < u32::MAX,
        ensures
            final(self).spec_lower() == now.spec_ticks(),
            final(self).spec_upper() == old(self).spec_upper() + (if now.spec_ticks() < old(
                self,
            ).spec_lower() {
                1int
            } else {
                0int
            }),
            t == final(self).spec_as_ticks(),
            final(self).spec_upper() == 0 ==> t == now.spec_ticks(),
    {
        if now.to_ticks() < self.lower.to_ticks() {
            self.upper += 1;
        }
        self.lower = now;
        self.as_ticks()
    }

    /// The instant as one number of ticks.
    pub fn as_ticks(&self) -> (t: InstantTicks)
        ensures
            t == self.spec_as_ticks(),
            self.spec_upper() == 0 ==> t == self.spec_lower(),
    {
        let w: u32 = T::width();
        let upper: u64 = self.upper as u64;
        let lower: u64 = self.lower.to_ticks();
        let shift: u64 = w as u64;
        assert((upper << shift) | lower == upper * (1u64 << shift) + lower) by (bit_vector)
            requires
                upper <= 0xffff_ffff,
                shift <= 32,
                lower < (1u64 << shift),
        ;
        assert(upper == 0 ==> upper * (1u64 << shift) == 0) by (nonlinear_arith);
        (upper << shift) | lower
    }

}

} // verus!
