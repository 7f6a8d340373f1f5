//! Turns decoded defmt log frames into structured events on per-context
//! timelines, with every rule of the pipeline stated as a contract.
//!
//! A frame becomes an [`EventRecord`], the [`ContextManager`] puts the record
//! on the timeline of the task or interrupt it belongs to, and the
//! [`Pipeline`] holds each event back by one so that the event after it can
//! ask for its nonce to be shown.

pub use crate::attributes::{AttrVal, Attributes, TimelineId};
pub use crate::client::Client;
pub use crate::config::{DefmtConfigEntry, PluginConfig};
pub use crate::context_manager::{
    ActiveContext, ContextEvent, ContextManager, TimelineAttributes, TimelineMeta,
};
pub use crate::defmt_reader::{Dispatch, Pipeline};
pub use crate::error::Error;
pub use crate::event_record::{DeviantEventKind, EventRecord, Timestamp};
pub use crate::frame::{Arg, Fragment, Frame, Level, Location};
pub use crate::opts::{DefmtOpts, RtosMode};
pub use crate::time::{Rate, TicksExt, TrackingInstant};

pub mod attributes;
pub mod builder;
pub mod client;
pub mod config;
pub mod context_laws;
pub mod context_manager;
pub mod context_model;
pub mod defmt_reader;
pub mod error;
pub mod event_record;
pub mod frame;
pub mod keys;
pub mod opts;
pub mod text;
pub mod time;
