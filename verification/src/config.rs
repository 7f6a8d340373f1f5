//! The frozen configuration that the event pipeline runs under.

use crate::opts::{DefmtOpts, RtosMode};
use crate::time::Rate;
use vstd::prelude::*;
use vstd::string::*;

verus! {

/// Which of the two front ends a configuration is loaded for.
#[derive(Copy, Clone, Eq, PartialEq, Structural, Ord, PartialOrd, Hash, Debug)]
pub enum DefmtConfigEntry {
    Importer,
    RttCollector,
}

impl Default for DefmtConfigEntry {
    fn default() -> (r: Self)
        ensures
            r == DefmtConfigEntry::Importer,
    {
        DefmtConfigEntry::Importer
    }
}

/// What the pipeline reads of the configuration.
#[derive(Clone, Debug)]
pub struct PluginConfig {
    /// The run identifier, in place of a fresh one.
    pub run_id: Option<String>,
    /// The clock identifier, in place of a fresh one.
    pub clock_id: Option<String>,
    pub init_task_name: Option<String>,
    pub disable_interactions: bool,
    pub clock_rate: Option<Rate>,
    pub rtos_mode: RtosMode,
}

/// What an optional text stands for.
pub open spec fn optional_text(o: Option<String>) -> Option<Seq<char>> {
    match o {
        Some(s) => Some(s@),
        None => None,
    }
}

impl Default for PluginConfig {
    fn default() -> (r: Self)
        ensures
            r.run_id.is_none(),
            r.clock_id.is_none(),
            r.init_task_name.is_none(),
            !r.disable_interactions,
            r.clock_rate.is_none(),
            r.rtos_mode == RtosMode::NoRtos,
    {
        PluginConfig {
            run_id: None,
            clock_id: None,
            init_task_name: None,
            disable_interactions: false,
            clock_rate: None,
            rtos_mode: RtosMode::NoRtos,
        }
    }
}

impl PluginConfig {
    /// The configuration with the options of a command line laid over it:
    /// an option that is given wins, and interactions are disabled where
    /// either side disables them.
    pub fn merge_opts(self, opts: DefmtOpts) -> (r: Self)
        ensures
            optional_text(r.run_id) == optional_text(self.run_id),
            optional_text(r.clock_id) == optional_text(self.clock_id),
            optional_text(r.init_task_name) == (if opts.init_task_name.is_some() {
                optional_text(opts.init_task_name)
            } else {
                optional_text(self.init_task_name)
            }),
            r.disable_interactions == (opts.disable_interactions || self.disable_interactions),
            r.clock_rate == self.clock_rate,
            r.rtos_mode == (match opts.rtos_mode {
                Some(m) => m,
                None => self.rtos_mode,
            }),
    {
        PluginConfig {
            run_id: self.run_id,
            clock_id: self.clock_id,
            init_task_name: match opts.init_task_name {
                Some(n) => Some(n),
                None => self.init_task_name,
            },
            disable_interactions: opts.disable_interactions || self.disable_interactions,
            clock_rate: self.clock_rate,
            rtos_mode: match opts.rtos_mode {
                Some(m) => m,
                None => self.rtos_mode,
            },
        }
    }
}

} // verus!
