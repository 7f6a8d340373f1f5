//! Decoded log frames and the fragments of their format strings.

use crate::text::{
    char_is_ascii, char_is_ascii_digit, chars_of, digits_value, is_ascii, is_ascii_digit,
    lemma_digits_value_grows, lemma_skip_digits, skip_digits, skip_digits_from,
};
use vstd::prelude::*;
use vstd::string::*;

verus! {

/// The log level of a frame.
#[derive(Copy, Clone, PartialEq, Eq, Structural, Debug)]
pub enum Level {
    Trace,
    Debug,
    Info,
    Warn,
    Error,
}

impl Level {
    /// The lower-case name of the level.
    pub open spec fn name(self) -> Seq<char> {
        match self {
            Level::Trace => "trace"@,
            Level::Debug => "debug"@,
            Level::Info => "info"@,
            Level::Warn => "warn"@,
            Level::Error => "error"@,
        }
    }

    /// The lower-case name of the level.
    pub fn as_str(self) -> (s: &'static str)
        ensures
            s@ == self.name(),
    {
        match self {
            Level::Trace => "trace",
            Level::Debug => "debug",
            Level::Info => "info",
            Level::Warn => "warn",
            Level::Error => "error",
        }
    }
}

/// A typed argument of a frame.
///
/// `F32` and `F64` hold the value as the IEEE-754 bits of a double. The
/// composite kinds keep only what the event rules read: the inner arguments
/// of a `Format`, the bytes of a `Slice`.
#[derive(PartialEq, Eq, Debug)]
pub enum Arg {
    Bool(bool),
    F32(u64),
    F64(u64),
    Uxx(u128),
    Ixx(i128),
    Str(String),
    IStr(String),
    Char(char),
    Preformatted(String),
    Format { args: Vec<Arg> },
    FormatSlice,
    FormatSequence,
    Slice(Vec<u8>),
}

/// One decoded log frame.
#[derive(PartialEq, Eq, Debug)]
pub struct Frame {
    /// The index of the format string in the symbol table.
    pub table_index: u64,
    pub format: String,
    pub level: Option<Level>,
    pub timestamp_format: Option<String>,
    pub timestamp_args: Vec<Arg>,
    pub args: Vec<Arg>,
    /// The format string with its arguments filled in.
    pub message: String,
}

/// Where in the source a frame was logged.
#[derive(Clone, PartialEq, Eq, Debug)]
pub struct Location {
    pub file: String,
    pub line: u64,
    pub module: String,
}

/// A part of a format string: literal text, or a parameter that refers to an
/// argument by index and names its type.
#[derive(Clone, PartialEq, Eq, Debug)]
pub enum Fragment {
    Literal(String),
    Parameter { index: usize, ty: String },
}

/// What a `Fragment` stands for.
pub enum FragmentValue {
    Literal(Seq<char>),
    Parameter { index: usize, ty: Seq<char> },
}

impl View for Fragment {
    type V = FragmentValue;

    open spec fn view(&self) -> FragmentValue {
        match self {
            Fragment::Literal(l) => FragmentValue::Literal(l@),
            Fragment::Parameter { index, ty } => FragmentValue::Parameter {
                index: *index,
                ty: ty@,
            },
        }
    }
}

/// What a list of fragments stands for.
pub open spec fn fragment_values(v: Seq<Fragment>) -> Seq<FragmentValue> {
    Seq::new(v.len(), |i: int| v[i]@)
}

/// The fragments of a format string as the defmt parser splits it, in its
/// forwards-compatible mode; `None` where the parser rejects the string. A
/// parameter's type is named as the parser's `Type` prints it for debugging.
pub uninterp spec fn parsed_format(format: Seq<char>) -> Option<Seq<FragmentValue>>;

/// Whether `c` is an ASCII character other than `:` and `}`: one that may
/// follow the leading digits of a parameter's type.
pub open spec fn is_type_char(c: char) -> bool {
    is_ascii(c) && c != ':' && c != '}'
}

/// Whether the parameter whose text begins at `p` is one the parser can be
/// handed: an explicit argument index is below `limit`, and a type that
/// begins with digits goes on for two more type characters.
pub open spec fn parameter_guarded(s: Seq<char>, limit: nat, p: int) -> bool {
    let e = skip_digits(s, p);
    let u = skip_digits(s, e + 1);
    &&& e > p ==> digits_value(s, p, e) < limit
    &&& e + 1 < s.len() && s[e] == '=' && is_ascii_digit(s[e + 1]) ==> u + 1 < s.len()
        && is_type_char(s[u]) && is_type_char(s[u + 1])
}

/// Whether every parameter of `s` that opens at or after `i` is guarded. A
/// parameter opens at a `{` that is not the first of two.
pub open spec fn format_guarded_from(s: Seq<char>, limit: nat, i: int) -> bool
    decreases s.len() - i,
{
    if i < 0 || i >= s.len() {
        true
    } else if s[i] != '{' {
        format_guarded_from(s, limit, i + 1)
    } else if i + 1 < s.len() && s[i + 1] == '{' {
        format_guarded_from(s, limit, i + 2)
    } else {
        parameter_guarded(s, limit, i + 1) && format_guarded_from(s, limit, i + 1)
    }
}

/// Whether the format string `s` can be handed to the parser: every
/// explicit argument index is below the length of the string, and no type
/// is digits with fewer than two type characters behind them.
///
/// A string that the parser accepts uses every index up to its largest, so
/// its indices are far below its length.
pub open spec fn format_guarded(s: Seq<char>) -> bool {
    format_guarded_from(s, s.len(), 0)
}

/// Whether the digits of `s` from `from` up to `to` spell a number below
/// `limit`.
fn digits_below(s: &Vec<char>, from: usize, to: usize, limit: usize) -> (r: bool)
    requires
        from <= to <= s.len(),
        forall|k: int| from <= k < to ==> is_ascii_digit(#[trigger] s@[k]),
    ensures
        r == (digits_value(s@, from as int, to as int) < limit),
{
    let mut acc: usize = 0;
    let mut i: usize = from;
    while i < to
        invariant
            from <= i <= to <= s.len(),
            forall|k: int| from <= k < to ==> is_ascii_digit(#[trigger] s@[k]),
            acc == digits_value(s@, from as int, i as int),
        decreases to - i,
    {
        assert(is_ascii_digit(s@[i as int]));
        let d: u128 = (s[i] as u32 - '0' as u32) as u128;
        let next: u128 = acc as u128 * 10 + d;
        if next >= limit as u128 {
            proof {
                lemma_digits_value_grows(s@, from as int, i as int + 1, to as int);
            }
            return false;
        }
        acc = next as usize;
        i = i + 1;
    }
    acc < limit
}

/// Decides whether the parameter whose text begins at `p` is guarded.
fn check_parameter(s: &Vec<char>, limit: usize, p: usize) -> (r: bool)
    requires
        p <= s.len(),
    ensures
        r == parameter_guarded(s@, limit as nat, p as int),
{
    let n: usize = s.len();
    let e: usize = skip_digits_from(s, p);
    proof {
        lemma_skip_digits(s@, p as int);
    }
    if e > p && !digits_below(s, p, e, limit) {
        return false;
    }
    if e < n && e + 1 < n && s[e] == '=' && char_is_ascii_digit(s[e + 1]) {
        let u: usize = skip_digits_from(s, e + 1);
        if u < n && u + 1 < n {
            let a: char = s[u];
            let b: char = s[u + 1];
            char_is_ascii(a) && a != ':' && a != '}' && char_is_ascii(b) && b != ':' && b != '}'
        } else {
            false
        }
    } else {
        true
    }
}

/// Decides whether a format string can be handed to the parser.
pub fn check_format(s: &Vec<char>) -> (r: bool)
    ensures
        r == format_guarded(s@),
{
    let n: usize = s.len();
    let limit: usize = n;
    let mut i: usize = 0;
    while i < n
        invariant
            n == s.len(),
            i <= n,
            limit == n,
            format_guarded(s@) == format_guarded_from(s@, limit as nat, i as int),
        decreases n - i,
    {
        if s[i] != '{' {
            i = i + 1;
        } else if i + 1 < n && s[i + 1] == '{' {
            i = i + 2;
        } else {
            if !check_parameter(s, limit, i + 1) {
                return false;
            }
            i = i + 1;
        }
    }
    true
}

/// Splits a format string with `defmt_parser::parse` in its
/// forwards-compatible mode and copies each fragment out: a literal's text,
/// a parameter's argument index and the debug rendering of its type. Where
/// the parser rejects the string, the error holds its message.
///
/// The parser makes room for every argument index up to the largest, and
/// cuts two bytes off a type behind its leading digits: the guard leaves
/// out the strings on which it then fails to return.
#[verifier::external_body]
fn parse_format(format: &str) -> (r: Result<Vec<Fragment>, String>)
    requires
        format_guarded(format@),
    ensures
        match r {
            Ok(v) => parsed_format(format@) == Some(fragment_values(v@)),
            Err(_) => parsed_format(format@).is_none(),
        },
{
    let parsed = defmt_parser::parse(format, defmt_parser::ParserMode::ForwardsCompatible)
        .map_err(|e| e.to_string())?;
    let mut out = Vec::new();
    for fragment in parsed {
        out.push(
            match fragment {
                defmt_parser::Fragment::Literal(l) => Fragment::Literal(l.into_owned()),
                defmt_parser::Fragment::Parameter(p) => Fragment::Parameter {
                    index: p.index,
                    ty: format!("{:?}", p.ty),
                },
            },
        );
    }
    Ok(out)
}

/// The fragments of `format`: what the parser makes of it where it can be
/// handed to the parser. The error holds the parser's message, or nothing
/// where the string was not handed to the parser.
pub fn fragments_of(format: &str) -> (r: Result<Vec<Fragment>, Option<String>>)
    ensures
        match r {
            Ok(v) => format_guarded(format@) && parsed_format(format@) == Some(
                fragment_values(v@),
            ),
            Err(Some(_)) => format_guarded(format@) && parsed_format(format@).is_none(),
            Err(None) => !format_guarded(format@),
        },
{
    let chars: Vec<char> = chars_of(format);
    if !check_format(&chars) {
        return Err(None);
    }
    match parse_format(format) {
        Ok(v) => Ok(v),
        Err(e) => Err(Some(e)),
    }
}

} // verus!
