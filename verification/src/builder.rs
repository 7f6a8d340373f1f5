//! The event record builder: from one frame and the fragments of its format
//! string to the attributes of one event.

use crate::attributes::{integer_value, AttrVal, AttrValue, TimelineId};
use crate::error::Error;
use crate::event_record::{deviant_kind, timestamp_of, DeviantEventKind, EventRecord, Timestamp};
use crate::frame::{
    format_guarded, fragment_values, fragments_of, parsed_format, Arg, Fragment, FragmentValue,
    Frame, Location,
};
use crate::keys::{event_key, internal_event_key};
use modality_api::AttrVal as ApiVal;
use crate::text::{
    chars_are, chars_of, concat, find_char, find_double, index_of_char, index_of_double,
    last_index_of_char, lowercased, one_line, replace_char, replaced, rfind_char, skip_char,
    skip_char_from, slice_of, string_of, to_lowercase, trim, trimmed,
};
use vstd::prelude::*;
use vstd::string::*;

verus! {

/// The typed value that a literal stands for, as the attribute value
/// grammar of the ingest API reads it: a boolean, an integer, a float, a
/// logical time, a timeline identifier, or else the text without the quotes
/// at its ends.
pub uninterp spec fn parsed_attr_value(s: Seq<char>) -> AttrValue;

/// The number that bytes spell from the least significant on.
pub open spec fn le_value(b: Seq<u8>) -> nat
    decreases b.len(),
{
    if b.len() == 0 {
        0
    } else {
        b[0] as nat + 256 * le_value(b.drop_first())
    }
}

/// The signed 128-bit integer whose two's complement form is `v`.
pub open spec fn signed_128(v: nat) -> int {
    if v >= 0x8000_0000_0000_0000_0000_0000_0000_0000 {
        v - 0x1_0000_0000_0000_0000_0000_0000_0000_0000
    } else {
        v as int
    }
}

/// Reads a literal with `modality_api::AttrVal::from_str`, which never
/// fails, and copies the value out variant by variant: a timeline
/// identifier as a big-endian number, an event coordinate as its bytes, a
/// float as its bits.
#[verifier::external_body]
fn parse_attr_val(s: &str) -> (r: AttrVal)
    ensures
        r@ == parsed_attr_value(s@),
{
    let Ok(v) = s.parse::<ApiVal>();
    match v {
        ApiVal::TimelineId(t) => AttrVal::TimelineId(TimelineId(t.get_raw().as_u128())),
        ApiVal::EventCoordinate(c) => AttrVal::EventCoordinate(c.as_bytes()),
        ApiVal::String(s) => AttrVal::String(s.into_owned()),
        ApiVal::Integer(i) => AttrVal::Integer(i),
        ApiVal::BigInt(b) => AttrVal::BigInt(*b),
        ApiVal::Float(f) => AttrVal::Float(f.to_bits()),
        ApiVal::Bool(b) => AttrVal::Bool(b),
        ApiVal::Timestamp(n) => AttrVal::Timestamp(n.get_raw()),
        ApiVal::LogicalTime(l) => AttrVal::LogicalTime(*l.get_raw()),
    }
}

/// Makes a UUID of a byte vector with `Uuid::try_from`, which takes exactly
/// 16 bytes and keeps them as they are, and hands its bytes back.
#[verifier::external_body]
fn uuid_bytes(bytes: &Vec<u8>) -> (r: Option<[u8; 16]>)
    ensures
        r.is_some() <==> bytes.len() == 16,
        r matches Some(a) ==> a@ == bytes@,
{
    match modality_api::Uuid::try_from(bytes.clone()) {
        Ok(u) => Some(*u.as_bytes()),
        Err(_) => None,
    }
}

/// Reads 16 bytes as a signed integer with `i128::from_le_bytes`: the bytes
/// are its two's complement form from the least significant on.
#[verifier::external_body]
fn i128_from_le_bytes(bytes: [u8; 16]) -> (r: i128)
    ensures
        r == signed_128(le_value(bytes@)),
{
    i128::from_le_bytes(bytes)
}

/// The decimal digit `d`.
pub open spec fn digit_char(d: nat) -> char {
    if d == 0 {
        '0'
    } else if d == 1 {
        '1'
    } else if d == 2 {
        '2'
    } else if d == 3 {
        '3'
    } else if d == 4 {
        '4'
    } else if d == 5 {
        '5'
    } else if d == 6 {
        '6'
    } else if d == 7 {
        '7'
    } else if d == 8 {
        '8'
    } else {
        '9'
    }
}

/// The decimal rendering of `n`.
pub open spec fn decimal(n: nat) -> Seq<char>
    decreases n,
{
    if n < 10 {
        seq![digit_char(n)]
    } else {
        decimal(n / 10).push(digit_char(n % 10))
    }
}

/// The character of the decimal digit `d`.
fn digit_of(d: u64) -> (c: char)
    requires
        d < 10,
    ensures
        c == digit_char(d as nat),
{
    if d == 0 {
        '0'
    } else if d == 1 {
        '1'
    } else if d == 2 {
        '2'
    } else if d == 3 {
        '3'
    } else if d == 4 {
        '4'
    } else if d == 5 {
        '5'
    } else if d == 6 {
        '6'
    } else if d == 7 {
        '7'
    } else if d == 8 {
        '8'
    } else {
        '9'
    }
}

/// Appends the decimal rendering of `n` to `out`.
pub fn push_decimal(out: &mut Vec<char>, n: u64)
    ensures
        final(out)@ == old(out)@ + decimal(n as nat),
    decreases n,
{
    if n >= 10 {
        push_decimal(out, n / 10);
        out.push(digit_of(n % 10));
        assert(out@ =~= old(out)@ + decimal(n as nat));
    } else {
        out.push(digit_of(n));
        assert(out@ =~= old(out)@ + decimal(n as nat));
    }
}

/// The URI of a source location: `file://`, the file, a colon and the line.
pub open spec fn source_uri(file: Seq<char>, line: u64) -> Seq<char> {
    "file://"@ + file + seq![':'] + decimal(line as nat)
}

/// The attribute value of an argument, for the kinds that have one. A
/// composite with exactly one inner argument has the value of that
/// argument.
pub open spec fn arg_value(arg: Arg) -> Option<AttrValue>
    decreases arg,
{
    match arg {
        Arg::Bool(v) => Some(AttrValue::Bool(v)),
        Arg::F32(v) => Some(AttrValue::Float(v)),
        Arg::F64(v) => Some(AttrValue::Float(v)),
        Arg::Uxx(v) => Some(integer_value(signed_128(v as nat))),
        Arg::Ixx(v) => Some(integer_value(v as int)),
        Arg::Str(v) => Some(AttrValue::String(one_line(v@))),
        Arg::IStr(v) => Some(AttrValue::String(one_line(v@))),
        Arg::Char(v) => Some(AttrValue::String(seq![v])),
        Arg::Preformatted(v) => Some(AttrValue::String(one_line(v@))),
        Arg::Format { args } => if args.len() == 1 {
            arg_value(args[0])
        } else {
            None
        },
        Arg::FormatSlice => None,
        Arg::FormatSequence => None,
        Arg::Slice(_) => None,
    }
}

/// The identifier that an argument of a mutation-protocol event carries: a
/// slice of 16 bytes, read as a signed integer from the least significant
/// byte on.
pub open spec fn uuid_value(arg: Arg) -> Option<AttrValue> {
    match arg {
        Arg::Slice(b) => if b.len() == 16 {
            Some(integer_value(signed_128(le_value(b@))))
        } else {
            None
        },
        _ => None,
    }
}

/// The value recorded for a parameter under the key `key`: the argument's
/// own value, or for the identifier keys of a mutation-protocol event the
/// identifier that the argument carries.
pub open spec fn parameter_value(arg: Arg, key: Seq<char>, deviant: bool) -> Option<AttrValue> {
    match arg_value(arg) {
        Some(v) => Some(v),
        None => if deviant && (key == "mutator.id"@ || key == "mutation.id"@) {
            uuid_value(arg)
        } else {
            None
        },
    }
}

/// The key and the value text of a piece of literal text, where the piece
/// is a pair: one `=` with text on both sides, the key not beginning with a
/// dot.
pub open spec fn literal_pair(piece: Seq<char>) -> Option<(Seq<char>, Seq<char>)> {
    let t = trim(piece);
    let e = find_char(t, '=', 0);
    let k = trim(t.subrange(0, e));
    let v = trim(t.subrange(e + 1, t.len() as int));
    if e < t.len() && find_char(t, '=', e + 1) == t.len() && k.len() > 0 && v.len() > 0 && k[0]
        != '.' {
        Some((k, v))
    } else {
        None
    }
}

/// `m` with the pair of `piece`, if it is one, set as an event attribute.
pub open spec fn with_pair(m: Map<Seq<char>, AttrValue>, piece: Seq<char>) -> Map<
    Seq<char>,
    AttrValue,
> {
    match literal_pair(piece) {
        Some((k, v)) => m.insert(event_key(k), parsed_attr_value(v)),
        None => m,
    }
}

/// `m` with the pairs among the comma-separated pieces of `s` from
/// position `i` on set in turn.
pub open spec fn with_pairs(m: Map<Seq<char>, AttrValue>, s: Seq<char>, i: int) -> Map<
    Seq<char>,
    AttrValue,
>
    decreases s.len() - i,
{
    if i < 0 || i > s.len() {
        m
    } else {
        let j = find_char(s, ',', i);
        let m2 = with_pair(m, s.subrange(i, j));
        if j < i || j >= s.len() {
            m2
        } else {
            with_pairs(m2, s, j + 1)
        }
    }
}

/// Where the last piece of `s` begins: behind the last comma, or behind the
/// leading commas where no other comma follows.
pub open spec fn last_piece_start(s: Seq<char>) -> int {
    let a = skip_char(s, ',', 0);
    let r = rfind_char(s, ',', s.len() as int);
    if r >= a {
        r + 1
    } else {
        a
    }
}

/// The key that the literal text `s` announces for the parameter behind it:
/// what stands before the first `=` of its last piece, trimmed.
pub open spec fn pending_key(s: Seq<char>) -> Option<Seq<char>> {
    let b = last_piece_start(s);
    let e = find_char(s, '=', b);
    if e < s.len() {
        Some(trim(s.subrange(b, e)))
    } else {
        None
    }
}

/// What is known in the middle of a format string: the attributes so far,
/// the event name if the string gave one, the key that waits for the next
/// parameter, and whether the event belongs to the mutation protocol.
pub struct Walk {
    pub attrs: Map<Seq<char>, AttrValue>,
    pub name: Option<Seq<char>>,
    pub pending: Option<Seq<char>>,
    pub deviant: bool,
}

/// Where the name prefix of the first literal `l` ends: at its first `::`,
/// if it has one.
pub open spec fn name_end(l: Seq<char>, first: bool) -> Option<int> {
    let d = find_double(l, ':', 0);
    if first && d < l.len() {
        Some(d)
    } else {
        None
    }
}

/// The walk after the literal fragment `l`.
pub open spec fn after_literal(w: Walk, l: Seq<char>, first: bool) -> Walk {
    let s = match name_end(l, first) {
        Some(d) => l.subrange(d + 2, l.len() as int),
        None => l,
    };
    Walk {
        attrs: with_pairs(w.attrs, s, 0),
        name: match name_end(l, first) {
            Some(d) => Some(trim(l.subrange(0, d))),
            None => w.name,
        },
        pending: match pending_key(s) {
            Some(k) => Some(k),
            None => w.pending,
        },
        deviant: match name_end(l, first) {
            Some(d) => deviant_kind(trim(l.subrange(0, d))).is_some(),
            None => w.deviant,
        },
    }
}

/// The walk after a parameter fragment: where a key waits, the parameter's
/// type is recorded under it, and the argument's value where the frame has
/// the argument and the value can be had.
pub open spec fn after_parameter(w: Walk, index: usize, ty: Seq<char>, args: Seq<Arg>) -> Walk {
    match w.pending {
        None => w,
        Some(k0) => {
            let key = replace_char(k0, ' ', '_');
            let typed = w.attrs.insert(
                internal_event_key(key + ".type"@),
                AttrValue::String(lowercased(ty)),
            );
            Walk {
                attrs: if index < args.len() {
                    match parameter_value(args[index as int], key, w.deviant) {
                        Some(v) => typed.insert(event_key(key), v),
                        None => typed,
                    }
                } else {
                    typed
                },
                name: w.name,
                pending: None,
                deviant: w.deviant,
            }
        },
    }
}

/// The walk after the fragments from position `i` on.
pub open spec fn walk(frags: Seq<FragmentValue>, args: Seq<Arg>, i: int, w: Walk) -> Walk
    decreases frags.len() - i,
{
    if i < 0 || i >= frags.len() {
        w
    } else {
        walk(
            frags,
            args,
            i + 1,
            match frags[i] {
                FragmentValue::Literal(l) => after_literal(w, l, i == 0),
                FragmentValue::Parameter { index, ty } => after_parameter(w, index, ty, args),
            },
        )
    }
}

/// `m` with the timestamp attributes of `ts`: its unit and its raw count
/// always, its nanoseconds where it has them.
pub open spec fn with_timestamp(m: Map<Seq<char>, AttrValue>, ts: Timestamp) -> Map<
    Seq<char>,
    AttrValue,
> {
    let a = m.insert(
        internal_event_key("timestamp.type"@),
        AttrValue::String(ts.unit_name()),
    ).insert(internal_event_key("timestamp"@), integer_value(ts.raw() as int));
    match ts.nanos() {
        Some(ns) => a.insert(event_key("timestamp"@), AttrValue::Timestamp(ns)),
        None => a,
    }
}

/// `m` with the source attributes of a location.
pub open spec fn with_location(m: Map<Seq<char>, AttrValue>, loc: Location) -> Map<
    Seq<char>,
    AttrValue,
> {
    m.insert(event_key("source.file"@), AttrValue::String(loc.file@)).insert(
        event_key("source.line"@),
        integer_value(loc.line as int),
    ).insert(event_key("source.module"@), AttrValue::String(loc.module@)).insert(
        event_key("source.uri"@),
        AttrValue::String(source_uri(loc.file@, loc.line)),
    )
}

/// The attributes that a frame has before its format string is read.
pub open spec fn base_attributes(f: Frame, location: Option<&Location>) -> Map<
    Seq<char>,
    AttrValue,
> {
    let timed = match timestamp_of(f) {
        Some(ts) => with_timestamp(Map::empty(), ts),
        None => Map::empty(),
    };
    let located = match location {
        Some(loc) => with_location(timed, *loc),
        None => timed,
    };
    let levelled = match f.level {
        Some(l) => located.insert(event_key("level"@), AttrValue::String(l.name())),
        None => located,
    };
    levelled.insert(
        internal_event_key("table_index"@),
        integer_value(f.table_index as int),
    ).insert(internal_event_key("formatted_string"@), AttrValue::String(one_line(f.message@)))
}

/// The attributes of the event that a frame stands for, given the
/// fragments of its format string.
pub open spec fn record_of(f: Frame, location: Option<&Location>, frags: Seq<FragmentValue>) -> Map<
    Seq<char>,
    AttrValue,
> {
    let w = walk(
        frags,
        f.args@,
        0,
        Walk { attrs: base_attributes(f, location), name: None, pending: None, deviant: false },
    );
    w.attrs.insert(
        event_key("name"@),
        AttrValue::String(
            match w.name {
                Some(n) => n,
                None => one_line(f.message@),
            },
        ),
    )
}

/// What an optional text stands for.
pub open spec fn optional_chars(o: Option<Vec<char>>) -> Option<Seq<char>> {
    match o {
        Some(v) => Some(v@),
        None => None,
    }
}

/// What an optional value stands for.
pub open spec fn optional_value(o: Option<AttrVal>) -> Option<AttrValue> {
    match o {
        Some(v) => Some(v@),
        None => None,
    }
}

/// The text `s` with its line feeds replaced by spaces.
fn one_line_string(s: &str) -> (r: String)
    ensures
        r@ == one_line(s@),
{
    let v: Vec<char> = chars_of(s);
    let w: Vec<char> = replaced(&v, '\n', ' ');
    string_of(&w, 0, w.len())
}

/// The signed integer with the two's complement form of `v`.
fn reinterpret_signed(v: u128) -> (r: i128)
    ensures
        r == signed_128(v as nat),
{
    if v >= 0x8000_0000_0000_0000_0000_0000_0000_0000u128 {
        let low: i128 = (v - 0x8000_0000_0000_0000_0000_0000_0000_0000u128) as i128;
        low + (-0x7fff_ffff_ffff_ffff_ffff_ffff_ffff_ffffi128 - 1)
    } else {
        v as i128
    }
}

/// The attribute value of an argument, for the kinds that have one.
pub fn arg_to_attr_val(arg: &Arg) -> (r: Option<AttrVal>)
    ensures
        optional_value(r) == arg_value(*arg),
    decreases arg,
{
    match arg {
        Arg::Bool(v) => Some(AttrVal::Bool(*v)),
        Arg::F32(v) => Some(AttrVal::Float(*v)),
        Arg::F64(v) => Some(AttrVal::Float(*v)),
        Arg::Uxx(v) => Some(AttrVal::from_i128(reinterpret_signed(*v))),
        Arg::Ixx(v) => Some(AttrVal::from_i128(*v)),
        Arg::Str(v) => Some(AttrVal::String(one_line_string(v.as_str()))),
        Arg::IStr(v) => Some(AttrVal::String(one_line_string(v.as_str()))),
        Arg::Char(v) => {
            let mut one: Vec<char> = Vec::new();
            one.push(*v);
            assert(one@ =~= seq![*v]);
            let s: String = string_of(&one, 0, 1);
            assert(one@.subrange(0, 1) =~= one@);
            Some(AttrVal::String(s))
        },
        Arg::Preformatted(v) => Some(AttrVal::String(one_line_string(v.as_str()))),
        Arg::Format { args } => {
            if args.len() == 1 {
                arg_to_attr_val(&args[0])
            } else {
                None
            }
        },
        Arg::FormatSlice => None,
        Arg::FormatSequence => None,
        Arg::Slice(_) => None,
    }
}

/// The value for a UUID given by its bytes.
pub fn uuid_to_integer_attr_val(bytes: [u8; 16]) -> (r: AttrVal)
    ensures
        r@ == integer_value(signed_128(le_value(bytes@))),
{
    AttrVal::from_i128(i128_from_le_bytes(bytes))
}

/// The value recorded for a parameter under the key `key`.
fn parameter_attr_val(arg: &Arg, key: &Vec<char>, deviant: bool) -> (r: Option<AttrVal>)
    ensures
        optional_value(r) == parameter_value(*arg, key@, deviant),
{
    match arg_to_attr_val(arg) {
        Some(v) => Some(v),
        None => {
            if deviant && (chars_are(key, "mutator.id") || chars_are(key, "mutation.id")) {
                match arg {
                    Arg::Slice(b) => match uuid_bytes(b) {
                        Some(bytes) => Some(uuid_to_integer_attr_val(bytes)),
                        None => None,
                    },
                    _ => None,
                }
            } else {
                None
            }
        },
    }
}

/// Sets the pair of `piece`, if it is one, as an event attribute.
fn add_literal_pair(record: &mut EventRecord, piece: &Vec<char>)
    ensures
        final(record)@ == with_pair(old(record)@, piece@),
{
    let t: Vec<char> = trimmed(piece);
    let e: usize = index_of_char(&t, '=', 0);
    if e >= t.len() {
        return ;
    }
    if index_of_char(&t, '=', e + 1) != t.len() {
        return ;
    }
    let k: Vec<char> = trimmed(&slice_of(&t, 0, e));
    let v: Vec<char> = trimmed(&slice_of(&t, e + 1, t.len()));
    if k.len() == 0 || v.len() == 0 || k[0] == '.' {
        return ;
    }
    let key: String = string_of(&k, 0, k.len());
    let val: String = string_of(&v, 0, v.len());
    assert(k@.subrange(0, k.len() as int) =~= k@);
    assert(v@.subrange(0, v.len() as int) =~= v@);
    record.insert_event_attr(key.as_str(), parse_attr_val(val.as_str()));
}

/// Sets the literal key and value pairs of `s` as event attributes: the
/// comma-separated pieces that are one key, one `=` and one value.
pub fn extract_literal_key_value_pairs(record: &mut EventRecord, s: &Vec<char>)
    ensures
        final(record)@ == with_pairs(old(record)@, s@, 0),
{
    let n: usize = s.len();
    let mut i: usize = 0;
    loop
        invariant
            n == s.len(),
            i <= n,
            with_pairs(old(record)@, s@, 0) == with_pairs(record@, s@, i as int),
        ensures
            record@ == with_pairs(old(record)@, s@, 0),
        decreases n - i,
    {
        let j: usize = index_of_char(s, ',', i);
        let piece: Vec<char> = slice_of(s, i, j);
        add_literal_pair(record, &piece);
        if j >= n {
            break ;
        }
        i = j + 1;
    }
}

/// The key that the literal text `s` announces for the parameter behind it.
pub fn pending_key_of(s: &Vec<char>) -> (r: Option<Vec<char>>)
    ensures
        optional_chars(r) == pending_key(s@),
{
    let a: usize = skip_char_from(s, ',', 0);
    let b: usize = match last_index_of_char(s, ',', s.len()) {
        Some(r) => if r >= a {
            r + 1
        } else {
            a
        },
        None => a,
    };
    let e: usize = index_of_char(s, '=', b);
    if e < s.len() {
        Some(trimmed(&slice_of(s, b, e)))
    } else {
        None
    }
}

impl EventRecord {
    /// Builds the record of a frame. The frame's format string is split
    /// into fragments by the parser; a string that cannot be handed to the
    /// parser, or that the parser rejects, is an error.
    pub fn from_frame(f: Frame, location: Option<&Location>) -> (r: Result<Self, Error>)
        ensures
            match r {
                Ok(record) => format_guarded(f.format@) && parsed_format(f.format@).is_some()
                    && record@ == record_of(f, location, parsed_format(f.format@).unwrap()),
                Err(e) => e is DefmtParser && (!format_guarded(f.format@) || parsed_format(
                    f.format@,
                ).is_none()),
            },
    {
        match fragments_of(f.format.as_str()) {
            Ok(fragments) => Ok(Self::from_fragments(&f, location, &fragments)),
            Err(message) => Err(Error::DefmtParser(message)),
        }
    }

    /// Builds the record of a frame from the fragments of its format
    /// string.
    pub fn from_fragments(f: &Frame, location: Option<&Location>, fragments: &Vec<Fragment>) -> (r:
        Self)
        ensures
            r@ == record_of(*f, location, fragment_values(fragments@)),
    {
        let mut record: EventRecord = EventRecord::new();
        let formatted: String = one_line_string(f.message.as_str());
        match Timestamp::from_frame(f) {
            Some(ts) => {
                record.insert_internal_attr("timestamp.type", AttrVal::from_str(ts.typ_str()));
                record.insert_internal_attr("timestamp", AttrVal::from_u64(ts.as_u64()));
                match ts.as_nanoseconds() {
                    Some(ns) => {
                        record.insert_event_attr("timestamp", AttrVal::Timestamp(ns));
                    },
                    None => {},
                }
            },
            None => {},
        }
        match location {
            Some(loc) => {
                record.insert_event_attr("source.file", AttrVal::from_str(loc.file.as_str()));
                record.insert_event_attr("source.line", AttrVal::from_u64(loc.line));
                record.insert_event_attr("source.module", AttrVal::from_str(loc.module.as_str()));
                let mut uri: Vec<char> = chars_of("file://");
                let mut file: Vec<char> = chars_of(loc.file.as_str());
                uri.append(&mut file);
                uri.push(':');
                push_decimal(&mut uri, loc.line);
                let uri_text: String = string_of(&uri, 0, uri.len());
                assert(uri@.subrange(0, uri.len() as int) =~= uri@);
                assert(uri@ =~= source_uri(loc.file@, loc.line));
                record.insert_event_attr("source.uri", AttrVal::String(uri_text));
            },
            None => {},
        }
        match f.level {
            Some(level) => {
                record.insert_event_attr("level", AttrVal::from_str(level.as_str()));
            },
            None => {},
        }
        record.insert_internal_attr("table_index", AttrVal::from_u64(f.table_index));
        record.insert_internal_attr("formatted_string", AttrVal::String(formatted.clone()));
        assert(record@ == base_attributes(*f, location));

        let ghost frags = fragment_values(fragments@);
        let ghost start = Walk {
            attrs: base_attributes(*f, location),
            name: None,
            pending: None,
            deviant: false,
        };
        let mut name: Option<Vec<char>> = None;
        let mut pending: Option<Vec<char>> = None;
        let mut deviant: bool = false;
        let mut i: usize = 0;
        while i < fragments.len()
            invariant
                i <= fragments.len(),
                frags == fragment_values(fragments@),
                walk(frags, f.args@, 0, start) == walk(
                    frags,
                    f.args@,
                    i as int,
                    Walk {
                        attrs: record@,
                        name: optional_chars(name),
                        pending: optional_chars(pending),
                        deviant,
                    },
                ),
            decreases fragments.len() - i,
        {
            assert(frags[i as int] == fragments@[i as int]@);
            match &fragments[i] {
                Fragment::Literal(l) => {
                    let text: Vec<char> = chars_of(l.as_str());
                    let d: usize = index_of_double(&text, ':', 0);
                    let mut from: usize = 0;
                    if i == 0 && d < text.len() {
                        let n: Vec<char> = trimmed(&slice_of(&text, 0, d));
                        let n_text: String = string_of(&n, 0, n.len());
                        assert(n@.subrange(0, n.len() as int) =~= n@);
                        deviant = DeviantEventKind::from_event_name(n_text.as_str()).is_some();
                        name = Some(n);
                        from = d + 2;
                    }
                    let s: Vec<char> = slice_of(&text, from, text.len());
                    assert(from == 0 ==> s@ =~= text@);
                    extract_literal_key_value_pairs(&mut record, &s);
                    match pending_key_of(&s) {
                        Some(k) => {
                            pending = Some(k);
                        },
                        None => {},
                    }
                },
                Fragment::Parameter { index, ty } => {
                    let waiting: Option<Vec<char>> = pending;
                    pending = None;
                    match waiting {
                        Some(k0) => {
                            let key: Vec<char> = replaced(&k0, ' ', '_');
                            let key_text: String = string_of(&key, 0, key.len());
                            assert(key@.subrange(0, key.len() as int) =~= key@);
                            let key_type: String = concat(key_text.as_str(), ".type");
                            record.insert_internal_attr(
                                key_type.as_str(),
                                AttrVal::String(to_lowercase(ty.as_str())),
                            );
                            if *index < f.args.len() {
                                match parameter_attr_val(&f.args[*index], &key, deviant) {
                                    Some(v) => {
                                        record.insert_event_attr(key_text.as_str(), v);
                                    },
                                    None => {},
                                }
                            }
                        },
                        None => {},
                    }
                },
            }
            i = i + 1;
        }
        match name {
            Some(n) => {
                let n_text: String = string_of(&n, 0, n.len());
                assert(n@.subrange(0, n.len() as int) =~= n@);
                record.insert_event_attr("name", AttrVal::String(n_text));
            },
            None => {
                record.insert_event_attr("name", AttrVal::String(formatted));
            },
        }
        record
    }
}

/// A timestamp whose nanoseconds do not fit in 64 bits leaves the record
/// without its visible timestamp, and with its raw count and its unit.
pub proof fn lemma_timestamp_overflow(m: Map<Seq<char>, AttrValue>, ts: Timestamp)
    requires
        !(ts is Ticks),
        ts.raw() * ts.unit_nanos() > u64::MAX,
    ensures
        with_timestamp(m, ts) == m.insert(
            internal_event_key("timestamp.type"@),
            AttrValue::String(ts.unit_name()),
        ).insert(internal_event_key("timestamp"@), integer_value(ts.raw() as int)),
        with_timestamp(m, ts)[internal_event_key("timestamp"@)] == integer_value(ts.raw() as int),
        !m.dom().contains(event_key("timestamp"@)) ==> !with_timestamp(m, ts).dom().contains(
            event_key("timestamp"@),
        ),
{
    reveal_strlit("event.");
    reveal_strlit("event.internal.defmt.");
    reveal_strlit("timestamp");
    reveal_strlit("timestamp.type");
    assert(event_key("timestamp"@).len() == 15);
    assert(internal_event_key("timestamp"@).len() == 30);
    assert(internal_event_key("timestamp.type"@).len() == 35);
}

} // verus!
