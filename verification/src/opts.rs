//! The options that select how events are laid out on timelines.

use crate::text::{chars_of, concat, lowercased, string_of, to_lowercase, trim, trimmed};
use vstd::prelude::*;
use vstd::string::*;

verus! {

/// How the contexts of the target are told apart.
#[derive(Copy, Clone, Eq, PartialEq, Structural, Ord, PartialOrd, Hash, Debug)]
pub enum RtosMode {
    /// Every event belongs to one context.
    NoRtos,
    /// Tasks and interrupts announce themselves with the RTIC version 1
    /// instrumentation events.
    Rtic1,
}

/// The mode with the lower-case name `name`.
pub open spec fn mode_named(name: Seq<char>) -> Option<RtosMode> {
    if name == "none"@ {
        Some(RtosMode::NoRtos)
    } else if name == "rtic1"@ {
        Some(RtosMode::Rtic1)
    } else {
        None
    }
}

/// The message for a text that names no mode.
pub open spec fn unsupported_mode_message(s: Seq<char>) -> Seq<char> {
    "Unsupported RTOS mode '"@ + s + "'"@
}

impl Default for RtosMode {
    fn default() -> (r: Self)
        ensures
            r == RtosMode::NoRtos,
    {
        RtosMode::NoRtos
    }
}

impl RtosMode {
    /// The lower-case name of the mode.
    pub open spec fn name(self) -> Seq<char> {
        match self {
            RtosMode::NoRtos => "none"@,
            RtosMode::Rtic1 => "rtic1"@,
        }
    }

    /// The lower-case name of the mode.
    pub fn as_str(&self) -> (s: &'static str)
        ensures
            s@ == self.name(),
    {
        match self {
            RtosMode::NoRtos => "none",
            RtosMode::Rtic1 => "rtic1",
        }
    }

    /// The mode's name as an owned text.
    pub fn to_string(&self) -> (s: String)
        ensures
            s@ == self.name(),
    {
        String::from_str(self.as_str())
    }

    /// The mode with the lower-case name `name`.
    pub fn from_name(name: &str) -> (r: Option<Self>)
        ensures
            r == mode_named(name@),
    {
        let n: String = String::from_str(name);
        if n == String::from_str("none") {
            Some(RtosMode::NoRtos)
        } else if n == String::from_str("rtic1") {
            Some(RtosMode::Rtic1)
        } else {
            None
        }
    }

    /// Reads a mode from a text: its name in any case, with white space
    /// around it allowed.
    pub fn parse(s: &str) -> (r: Result<Self, String>)
        ensures
            match r {
                Ok(m) => mode_named(lowercased(trim(s@))) == Some(m),
                Err(msg) => mode_named(lowercased(trim(s@))).is_none() && msg@
                    == unsupported_mode_message(s@),
            },
    {
        let chars: Vec<char> = chars_of(s);
        let t: Vec<char> = trimmed(&chars);
        let t_text: String = string_of(&t, 0, t.len());
        assert(t@.subrange(0, t.len() as int) =~= t@);
        let lower: String = to_lowercase(t_text.as_str());
        match Self::from_name(lower.as_str()) {
            Some(m) => Ok(m),
            None => {
                let head: String = concat("Unsupported RTOS mode '", s);
                Err(concat(head.as_str(), "'"))
            },
        }
    }
}

impl core::str::FromStr for RtosMode {
    type Err = String;

    /// Reads a mode from a text: its name in any case, with white space
    /// around it allowed.
    fn from_str(s: &str) -> (r: Result<Self, String>)
        ensures
            match r {
                Ok(m) => mode_named(lowercased(trim(s@))) == Some(m),
                Err(msg) => mode_named(lowercased(trim(s@))).is_none() && msg@
                    == unsupported_mode_message(s@),
            },
    {
        Self::parse(s)
    }
}

/// The options of the event layout, as a command line gives them: what is
/// absent is left to the configuration file.
#[derive(Clone, Debug)]
pub struct DefmtOpts {
    /// Do not draw interactions between tasks and interrupts at a context
    /// switch.
    pub disable_interactions: bool,
    /// The name of the initial task, in place of `main`.
    pub init_task_name: Option<String>,
    pub rtos_mode: Option<RtosMode>,
}

impl Default for DefmtOpts {
    fn default() -> (r: Self)
        ensures
            !r.disable_interactions,
            r.init_task_name.is_none(),
            r.rtos_mode.is_none(),
    {
        DefmtOpts { disable_interactions: false, init_task_name: None, rtos_mode: None }
    }
}

} // verus!
