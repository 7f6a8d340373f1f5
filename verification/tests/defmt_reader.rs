use modality_defmt_plugin::attributes::{AttrVal, Attributes};
use modality_defmt_plugin::config::PluginConfig;
use modality_defmt_plugin::context_manager::TimestampIssue;
use modality_defmt_plugin::context_model::context_id;
use modality_defmt_plugin::defmt_reader::{
    after_decode, after_poll, after_read, common_timeline_attrs, fresh_common_timeline_attrs,
    location_coverage, DecodeOutcome, DecodeStep, LocationCoverage, Pipeline, PollStep,
    ReadOutcome, ReadStep,
};
use modality_defmt_plugin::error::Error;
use modality_defmt_plugin::event_record::EventRecord;
use modality_defmt_plugin::frame::{Arg, Frame, Level};
use modality_defmt_plugin::opts::RtosMode;
use modality_defmt_plugin::time::Rate;

fn text(s: &str) -> AttrVal {
    AttrVal::String(s.to_owned())
}

fn named(name: &str, extra: Vec<(&str, &str)>) -> EventRecord {
    let mut attrs = vec![("event.name".to_owned(), text(name))];
    for (k, v) in extra {
        attrs.push((k.to_owned(), text(v)));
    }
    EventRecord::from_iter(attrs)
}

fn rtic1_pipeline() -> Pipeline {
    let mut cfg = PluginConfig::default();
    cfg.rtos_mode = RtosMode::Rtic1;
    Pipeline::new(cfg, Attributes::new())
}

fn start() -> EventRecord {
    EventRecord::from_iter(vec![
        ("event.name".to_owned(), text("AUXON_TRACE_START")),
        ("event.task".to_owned(), text("init")),
        ("event.version".to_owned(), AttrVal::Integer(1)),
    ])
}

#[test]
fn an_empty_read_ends_the_input() {
    assert_eq!(after_read(ReadOutcome::Read(0)), ReadStep::Finish);
    assert_eq!(after_read(ReadOutcome::Read(1)), ReadStep::Decode);
    assert_eq!(after_read(ReadOutcome::Read(1024)), ReadStep::Decode);
    assert_eq!(after_read(ReadOutcome::Failed), ReadStep::Finish);
    assert_eq!(after_read(ReadOutcome::Interrupted), ReadStep::Finish);
}

#[test]
fn locations_are_used_only_where_complete() {
    assert_eq!(location_coverage(&vec![], &vec![]), LocationCoverage::Complete);
    assert_eq!(
        location_coverage(&vec![0, 1], &vec![]),
        LocationCoverage::Insufficient
    );
    assert_eq!(
        location_coverage(&vec![0, 1], &vec![1, 0, 7]),
        LocationCoverage::Complete
    );
    assert_eq!(
        location_coverage(&vec![0, 1, 2], &vec![1, 0]),
        LocationCoverage::Incomplete
    );
    assert_eq!(location_coverage(&vec![], &vec![3]), LocationCoverage::Complete);
}

#[test]
fn an_idle_channel_is_polled_slowly() {
    assert_eq!(after_poll(0), PollStep::Retry { pause_ms: 100 });
    assert_eq!(
        after_poll(1),
        PollStep::Deliver {
            bytes: 1,
            pause_ms: 1
        }
    );
    assert_eq!(
        after_poll(1024),
        PollStep::Deliver {
            bytes: 1024,
            pause_ms: 1
        }
    );
}

#[test]
fn a_malformed_frame_is_skipped() {
    assert_eq!(after_decode(DecodeOutcome::Malformed), DecodeStep::Skip);
    assert_eq!(after_decode(DecodeOutcome::Frame), DecodeStep::Process);
    assert_eq!(
        after_decode(DecodeOutcome::NeedMoreBytes),
        DecodeStep::ReadMore
    );
}

#[test]
fn the_buffered_event_is_flushed_at_the_end() {
    let mut p = Pipeline::new(PluginConfig::default(), Attributes::new());
    assert!(p.finish().is_none());
    let sent = p.on_record(named("a", vec![]));
    assert!(sent.is_empty());
    let last = p.finish().unwrap();
    assert_eq!(last.global_ordering, 1);
    assert_eq!(last.record.event_name(), Some("a"));
    assert_eq!(last.record.internal_nonce(), Some(1));
    assert_eq!(last.record.get("event.nonce"), None);
    assert!(last.new_timeline_attrs.is_some());
    assert!(p.finish().is_none());
}

#[test]
fn events_leave_one_behind_and_in_order() {
    let mut p = Pipeline::new(PluginConfig::default(), Attributes::new());
    assert!(p.on_record(named("a", vec![])).is_empty());
    let sent = p.on_record(named("b", vec![]));
    assert_eq!(sent.len(), 1);
    assert_eq!(sent[0].record.event_name(), Some("a"));
    assert_eq!(sent[0].global_ordering, 1);
    let attrs = sent[0].new_timeline_attrs.as_ref().unwrap();
    assert_eq!(attrs.get("timeline.name"), Some(&text("main")));
    let sent = p.on_record(named("c", vec![]));
    assert_eq!(sent.len(), 1);
    assert_eq!(sent[0].record.event_name(), Some("b"));
    assert_eq!(sent[0].global_ordering, 2);
    assert!(sent[0].new_timeline_attrs.is_none());
    let last = p.finish().unwrap();
    assert_eq!(last.record.event_name(), Some("c"));
    assert!(last.new_timeline_attrs.is_none());
}

#[test]
fn the_nonce_of_the_event_before_an_interaction_is_promoted() {
    let mut p = rtic1_pipeline();
    assert!(p.on_record(start()).is_empty());
    let sent = p.on_record(named(
        "AUXON_INTERRUPT_ENTER",
        vec![("event.isr", "ISR")],
    ));
    assert_eq!(sent.len(), 1);
    let first = &sent[0];
    assert_eq!(first.record.event_name(), Some("AUXON_TRACE_START"));
    assert_eq!(first.record.get("event.nonce"), Some(&AttrVal::Integer(1)));
    assert_eq!(first.record.internal_nonce(), None);
    let init = p
        .context_manager()
        .timeline_meta(context_id("init"))
        .unwrap()
        .id();
    assert_eq!(first.timeline_id, init);

    let sent = p.on_record(named("foo", vec![]));
    assert_eq!(sent.len(), 1);
    let enter = &sent[0];
    assert_eq!(enter.record.event_name(), Some("AUXON_INTERRUPT_ENTER"));
    assert_eq!(enter.record.internal_nonce(), Some(1));
    assert_eq!(enter.record.get("event.nonce"), None);
    assert_eq!(
        enter.record.get("event.interaction.remote_timeline_id"),
        Some(&AttrVal::TimelineId(init))
    );
    assert_eq!(
        enter.record.get("event.interaction.remote_nonce"),
        Some(&AttrVal::Integer(1))
    );
}

#[test]
fn a_synthetic_event_is_sent_before_its_record() {
    let mut p = rtic1_pipeline();
    p.on_record(start());
    p.on_record(named("AUXON_INTERRUPT_ENTER", vec![("event.isr", "ISR")]));
    p.on_record(named("AUXON_INTERRUPT_EXIT", vec![]));
    let sent = p.on_record(named("AUXON_TASK_ENTER", vec![("event.task", "task")]));
    assert_eq!(sent.len(), 2);
    assert_eq!(sent[0].record.event_name(), Some("AUXON_INTERRUPT_EXIT"));
    assert_eq!(sent[0].global_ordering, 3);
    assert_eq!(sent[0].record.get("event.nonce"), Some(&AttrVal::Integer(2)));
    assert_eq!(sent[1].record.event_name(), Some("AUXON_CONTEXT_RETURN"));
    assert_eq!(sent[1].global_ordering, 4);
    assert_eq!(sent[1].record.get("event.nonce"), Some(&AttrVal::Integer(2)));
    let last = p.finish().unwrap();
    assert_eq!(last.record.event_name(), Some("AUXON_TASK_ENTER"));
    assert_eq!(last.global_ordering, 5);
    let orderings: Vec<u128> = sent.iter().map(|d| d.global_ordering).collect();
    assert!(orderings.windows(2).all(|w| w[0] < w[1]));
}

#[test]
fn a_frame_that_cannot_be_read_changes_nothing() {
    let mut p = Pipeline::new(PluginConfig::default(), Attributes::new());
    p.on_record(named("a", vec![]));
    let bad = Frame {
        table_index: 1,
        format: "{=nope}".to_owned(),
        level: Some(Level::Error),
        timestamp_format: None,
        timestamp_args: vec![],
        args: vec![Arg::Bool(true)],
        message: "x".to_owned(),
    };
    let e = p.on_frame(bad, None).unwrap_err();
    assert!(matches!(e, Error::DefmtParser(Some(_))));
    assert_eq!(p.context_manager().event_counter(), 1);
    let good = Frame {
        table_index: 1,
        format: "b".to_owned(),
        level: Some(Level::Error),
        timestamp_format: None,
        timestamp_args: vec![],
        args: vec![],
        message: "b".to_owned(),
    };
    let sent = p.on_frame(good, None).unwrap();
    assert_eq!(sent.len(), 1);
    assert_eq!(sent[0].record.event_name(), Some("a"));
    assert_eq!(p.context_manager().event_counter(), 2);
    let last = p.finish().unwrap();
    assert_eq!(last.record.get("event.level"), Some(&text("error")));
}

#[test]
fn timestamp_issues() {
    let mut p = Pipeline::new(PluginConfig::default(), Attributes::new());
    let with = |ts: i128| {
        EventRecord::from_iter(vec![
            ("event.name".to_owned(), text("x")),
            (
                "event.internal.defmt.timestamp".to_owned(),
                AttrVal::from_i128(ts),
            ),
        ])
    };
    assert_eq!(p.context_manager().timestamp_issue(&with(5)), None);
    p.on_record(with(5));
    assert_eq!(p.context_manager().last_timestamp(), Some(5));
    assert_eq!(p.context_manager().timestamp_issue(&with(6)), None);
    assert_eq!(p.context_manager().timestamp_issue(&with(5)), None);
    assert_eq!(
        p.context_manager().timestamp_issue(&with(4)),
        Some(TimestampIssue::Backwards)
    );
    assert_eq!(
        p.context_manager().timestamp_issue(&named("x", vec![])),
        Some(TimestampIssue::Missing)
    );
    p.on_record(named("x", vec![]));
    assert_eq!(p.context_manager().last_timestamp(), Some(5));
}

#[test]
fn common_attributes_in_order() {
    let mut cfg = PluginConfig::default();
    cfg.run_id = Some("-42".to_owned());
    cfg.clock_rate = Rate::new(1, 80_000_000);
    let additional = vec![
        ("timeline.ci_run".to_owned(), AttrVal::Integer(1)),
        ("timeline.clock_style".to_owned(), text("absolute")),
    ];
    let overrides = vec![("timeline.clock_id".to_owned(), text("mine"))];
    let attrs = common_timeline_attrs(&cfg, &additional, &overrides, "Rzcobs", "run", "clock");
    assert_eq!(attrs.get("timeline.ci_run"), Some(&AttrVal::Integer(1)));
    assert_eq!(attrs.get("timeline.run_id"), Some(&AttrVal::Integer(-42)));
    assert_eq!(
        attrs.get("timeline.internal.defmt.table.encoding"),
        Some(&text("Rzcobs"))
    );
    assert_eq!(attrs.get("timeline.clock_id"), Some(&text("mine")));
    assert_eq!(attrs.get("timeline.clock_style"), Some(&text("relative")));
    assert_eq!(attrs.get("timeline.clock_rate"), Some(&text("1/80000000")));
    assert_eq!(
        attrs.get("timeline.clock_rate.numerator"),
        Some(&AttrVal::Integer(1))
    );
    assert_eq!(
        attrs.get("timeline.clock_rate.denominator"),
        Some(&AttrVal::Integer(80_000_000))
    );
    assert_eq!(attrs.len(), 8);
}

#[test]
fn run_and_clock_identifiers_fall_back_to_fresh_ones() {
    let cfg = PluginConfig::default();
    let attrs = common_timeline_attrs(&cfg, &vec![], &vec![], "Raw", "fresh-run", "fresh-clock");
    assert_eq!(attrs.get("timeline.run_id"), Some(&text("fresh-run")));
    assert_eq!(attrs.get("timeline.clock_id"), Some(&text("fresh-clock")));
    assert_eq!(attrs.get("timeline.clock_rate"), None);
    assert_eq!(attrs.len(), 4);

    let mut cfg = PluginConfig::default();
    cfg.run_id = Some("a1a2a3a4b1b2c1c2d1d2d3d4d5d6d7d3".to_owned());
    cfg.clock_id = Some("c".to_owned());
    let attrs = common_timeline_attrs(&cfg, &vec![], &vec![], "Raw", "fresh-run", "fresh-clock");
    assert_eq!(
        attrs.get("timeline.run_id"),
        Some(&text("a1a2a3a4b1b2c1c2d1d2d3d4d5d6d7d3"))
    );
    assert_eq!(attrs.get("timeline.clock_id"), Some(&text("c")));

    for (given, value) in [
        ("9223372036854775807", AttrVal::Integer(i64::MAX)),
        ("-9223372036854775808", AttrVal::Integer(i64::MIN)),
        ("+7", AttrVal::Integer(7)),
        ("9223372036854775808", text("9223372036854775808")),
        ("-", text("-")),
        ("", text("")),
        ("1 ", text("1 ")),
    ] {
        let mut cfg = PluginConfig::default();
        cfg.run_id = Some(given.to_owned());
        let attrs = common_timeline_attrs(&cfg, &vec![], &vec![], "Raw", "r", "c");
        assert_eq!(attrs.get("timeline.run_id"), Some(&value), "{given}");
    }
}

#[test]
fn fresh_identifiers_are_random_uuids() {
    let cfg = PluginConfig::default();
    let a = fresh_common_timeline_attrs(&cfg, &vec![], &vec![], "Raw");
    let b = fresh_common_timeline_attrs(&cfg, &vec![], &vec![], "Raw");
    for key in ["timeline.run_id", "timeline.clock_id"] {
        let (x, y) = match (a.get(key), b.get(key)) {
            (Some(AttrVal::String(x)), Some(AttrVal::String(y))) => (x.clone(), y.clone()),
            other => panic!("{other:?}"),
        };
        assert_eq!(x.len(), 36);
        assert_eq!(x.matches('-').count(), 4);
        assert_ne!(x, y);
    }
    assert_ne!(a.get("timeline.run_id"), a.get("timeline.clock_id"));

    let mut cfg = PluginConfig::default();
    cfg.run_id = Some("7".to_owned());
    cfg.clock_id = Some("mine".to_owned());
    let c = fresh_common_timeline_attrs(&cfg, &vec![], &vec![], "Raw");
    assert_eq!(c.get("timeline.run_id"), Some(&AttrVal::Integer(7)));
    assert_eq!(c.get("timeline.clock_id"), Some(&text("mine")));
}
