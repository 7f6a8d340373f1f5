use modality_defmt_plugin::attributes::{AttrVal, TimelineId};
use modality_defmt_plugin::error::Error;
use modality_defmt_plugin::event_record::EventRecord;
use modality_defmt_plugin::frame::{Arg, Frame, Level, Location};

fn attrs_of(record: &EventRecord) -> Vec<(String, AttrVal)> {
    record.attributes().to_vec()
}

fn text(s: &str) -> AttrVal {
    AttrVal::String(s.to_owned())
}

fn frame(level: Level, format: &str, args: Vec<Arg>, message: &str) -> Frame {
    Frame {
        table_index: 0,
        format: format.to_owned(),
        level: Some(level),
        timestamp_format: None,
        timestamp_args: vec![],
        args,
        message: message.to_owned(),
    }
}

#[test]
fn simple_literal() {
    let frame = Frame {
        table_index: 0,
        format: "Hello, world!".to_owned(),
        level: Some(Level::Info),
        timestamp_format: Some("{=u8:us}".to_owned()),
        timestamp_args: vec![Arg::Uxx(2)],
        args: vec![],
        message: "Hello, world!".to_owned(),
    };
    let loc = Location {
        file: "/foo/src/main.rs".to_owned(),
        line: 12,
        module: "bar".to_owned(),
    };
    let event_record = EventRecord::from_frame(frame, Some(&loc)).unwrap();
    assert_eq!(event_record.event_name(), Some("Hello, world!"));
    let attrs = attrs_of(&event_record);
    assert_eq!(
        attrs,
        vec![
            (
                "event.internal.defmt.formatted_string".to_owned(),
                text("Hello, world!")
            ),
            (
                "event.internal.defmt.table_index".to_owned(),
                AttrVal::Integer(0),
            ),
            (
                "event.internal.defmt.timestamp".to_owned(),
                AttrVal::Integer(2),
            ),
            (
                "event.internal.defmt.timestamp.type".to_owned(),
                text("us")
            ),
            ("event.level".to_owned(), text("info")),
            ("event.name".to_owned(), text("Hello, world!")),
            ("event.source.file".to_owned(), text("/foo/src/main.rs")),
            ("event.source.line".to_owned(), AttrVal::Integer(12)),
            ("event.source.module".to_owned(), text("bar")),
            (
                "event.source.uri".to_owned(),
                text("file:///foo/src/main.rs:12")
            ),
            ("event.timestamp".to_owned(), AttrVal::Timestamp(2_000)),
        ]
    );
}

#[test]
fn literal_named_event_with_typed_args() {
    let frame = frame(
        Level::Debug,
        "my_event:: some foo str = {=str}, bar_int={=u8}",
        vec![Arg::Str("Hello".to_owned()), Arg::Uxx(2)],
        "my_event:: some foo str = Hello, bar_int=2",
    );
    let event_record = EventRecord::from_frame(frame, None).unwrap();
    assert_eq!(event_record.event_name(), Some("my_event"));
    let attrs = attrs_of(&event_record);
    assert_eq!(attrs[0], ("event.bar_int".to_owned(), AttrVal::from_i128(2)));
    assert_eq!(attrs[7], ("event.some_foo_str".to_owned(), text("Hello")));
    assert_eq!(attrs[6], ("event.name".to_owned(), text("my_event")));
}

#[test]
fn literal_attr_values() {
    let frame = frame(
        Level::Info,
        "my_event::k0.k00.k000=1,k1='foo',k2=\"bar\",k3=12.3,k4=true,k5=biz",
        vec![],
        "my_event::k0.k00.k000=1,k1='foo',k2=\"bar\",k3=12.3,k4=true,k5=biz",
    );
    let event_record = EventRecord::from_frame(frame, None).unwrap();
    assert_eq!(event_record.event_name(), Some("my_event"));
    let attrs = attrs_of(&event_record);
    assert_eq!(
        attrs[2],
        ("event.k0.k00.k000".to_owned(), AttrVal::Integer(1))
    );
    assert_eq!(attrs[3], ("event.k1".to_owned(), text("foo")));
    assert_eq!(attrs[4], ("event.k2".to_owned(), text("bar")));
    assert_eq!(
        attrs[5],
        ("event.k3".to_owned(), AttrVal::Float(12.3_f64.to_bits()))
    );
    assert_eq!(attrs[6], ("event.k4".to_owned(), AttrVal::Bool(true)));
    assert_eq!(attrs[7], ("event.k5".to_owned(), text("biz")));
}

#[test]
fn mixed_literal_param_attr_values() {
    let frame = frame(
        Level::Info,
        "FOO::task=blinky_blue,instant={=u64},arg_cnt=0,queue_index={=u8}",
        vec![Arg::Uxx(u64::MAX as u128), Arg::Uxx(1)],
        "FOO::task=blinky_blue,instant=18446744073709551615,arg_cnt=0,queue_index=1",
    );
    let event_record = EventRecord::from_frame(frame, None).unwrap();
    assert_eq!(event_record.event_name(), Some("FOO"));
    let attrs = attrs_of(&event_record);
    assert_eq!(attrs.len(), 10);
    assert_eq!(attrs[0], ("event.arg_cnt".to_owned(), AttrVal::Integer(0)));
    assert_eq!(
        attrs[1],
        (
            "event.instant".to_owned(),
            AttrVal::from_i128(u64::MAX as i128)
        )
    );
    assert_eq!(attrs[1].1, AttrVal::BigInt(u64::MAX as i128));
    assert_eq!(
        attrs[4],
        (
            "event.internal.defmt.queue_index.type".to_owned(),
            text("u8")
        )
    );
    assert_eq!(attrs[8], ("event.queue_index".to_owned(), AttrVal::Integer(1)));
    assert_eq!(attrs[9], ("event.task".to_owned(), text("blinky_blue")));
}

#[test]
fn deviant_event_uuid_slice() {
    let bytes: Vec<u8> = (1..=16).collect();
    let mut array = [0_u8; 16];
    array.copy_from_slice(&bytes);
    let frame = frame(
        Level::Info,
        "modality.mutation.injected::mutator.id={=[u8]}",
        vec![Arg::Slice(bytes)],
        "modality.mutation.injected::mutator.id=[1, 2, 3]",
    );
    let event_record = EventRecord::from_frame(frame, None).unwrap();
    assert_eq!(event_record.event_name(), Some("modality.mutation.injected"));
    assert_eq!(
        event_record.get("event.mutator.id"),
        Some(&AttrVal::BigInt(i128::from_le_bytes(array)))
    );
    assert_eq!(
        event_record.get("event.internal.defmt.mutator.id.type"),
        Some(&text("u8slice"))
    );
}

#[test]
fn slice_outside_deviant_event_has_no_value() {
    let frame = frame(
        Level::Info,
        "my_event::mutator.id={=[u8]}",
        vec![Arg::Slice((1..=16).collect())],
        "my_event::mutator.id=[..]",
    );
    let event_record = EventRecord::from_frame(frame, None).unwrap();
    assert_eq!(event_record.get("event.mutator.id"), None);
    assert!(event_record
        .get("event.internal.defmt.mutator.id.type")
        .is_some());
}

#[test]
fn deviant_event_with_short_slice_has_no_value() {
    let frame = frame(
        Level::Info,
        "modality.mutator.retired::mutation.id={=[u8]}",
        vec![Arg::Slice(vec![1, 2, 3])],
        "x",
    );
    let event_record = EventRecord::from_frame(frame, None).unwrap();
    assert_eq!(event_record.get("event.mutation.id"), None);
}

#[test]
fn timestamp_overflow_keeps_raw_count() {
    let mut f = frame(Level::Info, "tick", vec![], "tick");
    f.timestamp_format = Some("{=u64:ts}".to_owned());
    f.timestamp_args = vec![Arg::Uxx(u64::MAX as u128)];
    let event_record = EventRecord::from_frame(f, None).unwrap();
    assert_eq!(event_record.get("event.timestamp"), None);
    assert_eq!(
        event_record.get("event.internal.defmt.timestamp"),
        Some(&AttrVal::BigInt(u64::MAX as i128))
    );
    assert_eq!(
        event_record.get("event.internal.defmt.timestamp.type"),
        Some(&text("s"))
    );
    assert_eq!(event_record.timestamp_raw(), Some(u64::MAX));
}

#[test]
fn timestamp_units() {
    for (format, unit, nanos) in [
        ("{=u32:us}", "us", Some(7_000_u64)),
        ("{=u32:tus}", "us", Some(7_000)),
        ("{=u32:ms}", "ms", Some(7_000_000)),
        ("{=u32:tms}", "ms", Some(7_000_000)),
        ("{=u32:ts}", "s", Some(7_000_000_000)),
        ("{=u32}", "ticks", None),
    ] {
        let mut f = frame(Level::Info, "tick", vec![], "tick");
        f.timestamp_format = Some(format.to_owned());
        f.timestamp_args = vec![Arg::Uxx(7)];
        let record = EventRecord::from_frame(f, None).unwrap();
        assert_eq!(
            record.get("event.internal.defmt.timestamp.type"),
            Some(&text(unit))
        );
        assert_eq!(
            record.get("event.internal.defmt.timestamp"),
            Some(&AttrVal::Integer(7))
        );
        assert_eq!(
            record.get("event.timestamp").cloned(),
            nanos.map(AttrVal::Timestamp)
        );
    }
}

#[test]
fn unknown_timestamp_hint_gives_no_timestamp() {
    let mut f = frame(Level::Info, "tick", vec![], "tick");
    f.timestamp_format = Some("{=u32:iso8601ms}".to_owned());
    f.timestamp_args = vec![Arg::Uxx(7)];
    let record = EventRecord::from_frame(f, None).unwrap();
    assert_eq!(record.get("event.internal.defmt.timestamp"), None);
    assert_eq!(record.get("event.internal.defmt.timestamp.type"), None);
    assert_eq!(record.get("event.timestamp"), None);
}

#[test]
fn name_falls_back_to_message_on_one_line() {
    let f = Frame {
        table_index: 3,
        format: "first {=str}".to_owned(),
        level: None,
        timestamp_format: None,
        timestamp_args: vec![],
        args: vec![Arg::Str("a\nb".to_owned())],
        message: "first a\nb".to_owned(),
    };
    let record = EventRecord::from_frame(f, None).unwrap();
    assert_eq!(record.event_name(), Some("first a b"));
    assert_eq!(
        record.get("event.internal.defmt.formatted_string"),
        Some(&text("first a b"))
    );
    assert_eq!(
        record.get("event.internal.defmt.table_index"),
        Some(&AttrVal::Integer(3))
    );
    assert_eq!(record.get("event.level"), None);
}

#[test]
fn typed_arguments() {
    let f = frame(
        Level::Warn,
        "ev::a={=bool},b={=i32},c={=char},d={=f64},e={=istr},f={=?},g={=u128}",
        vec![
            Arg::Bool(true),
            Arg::Ixx(-5),
            Arg::Char('x'),
            Arg::F64(1.5_f64.to_bits()),
            Arg::IStr("in\nterned".to_owned()),
            Arg::Format {
                args: vec![Arg::Uxx(9)],
            },
            Arg::Uxx(u128::MAX),
        ],
        "ev",
    );
    let record = EventRecord::from_frame(f, None).unwrap();
    assert_eq!(record.get("event.a"), Some(&AttrVal::Bool(true)));
    assert_eq!(record.get("event.b"), Some(&AttrVal::Integer(-5)));
    assert_eq!(record.get("event.c"), Some(&text("x")));
    assert_eq!(
        record.get("event.d"),
        Some(&AttrVal::Float(1.5_f64.to_bits()))
    );
    assert_eq!(record.get("event.e"), Some(&text("in terned")));
    assert_eq!(record.get("event.f"), Some(&AttrVal::Integer(9)));
    assert_eq!(record.get("event.g"), Some(&AttrVal::Integer(-1)));
    assert_eq!(record.get("event.level"), Some(&text("warn")));
    assert_eq!(
        record.get("event.internal.defmt.f.type"),
        Some(&text("format"))
    );
}

#[test]
fn every_key_begins_with_event() {
    let f = frame(
        Level::Info,
        "FOO::task=blinky_blue,instant={=u64},arg_cnt=0,queue_index={=u8}",
        vec![Arg::Uxx(4), Arg::Uxx(1)],
        "FOO",
    );
    let record = EventRecord::from_frame(f, None).unwrap();
    for (k, _) in record.attributes().to_vec() {
        assert!(k.starts_with("event."), "{k}");
    }
}

#[test]
fn rejected_format_string_is_a_parser_error() {
    for format in ["{=zz}", "{", "}", "{=5}", "{7}", "{=12.}"] {
        let f = frame(Level::Info, format, vec![Arg::Uxx(1)], "x");
        let e = EventRecord::from_frame(f, None).unwrap_err();
        assert!(matches!(e, Error::DefmtParser(_)), "{format}");
        assert_eq!(e.message(), "Encountered a defmt parser error");
    }
}

#[test]
fn bitfield_parameters_are_parsed() {
    let f = frame(
        Level::Info,
        "ev::low={0=0..4},high={0=4..8}",
        vec![Arg::Uxx(0xa5)],
        "ev",
    );
    let record = EventRecord::from_frame(f, None).unwrap();
    assert_eq!(record.get("event.low"), Some(&AttrVal::Integer(0xa5)));
    assert_eq!(record.get("event.high"), Some(&AttrVal::Integer(0xa5)));
    assert_eq!(
        record.get("event.internal.defmt.low.type"),
        Some(&text("bitfield(0..4)"))
    );
}

#[test]
fn promote_internal_nonce_is_idempotent() {
    let mut record = EventRecord::from_iter(vec![("event.name".to_owned(), text("x"))]);
    record.add_internal_nonce(41);
    assert_eq!(record.internal_nonce(), Some(41));
    record.promote_internal_nonce();
    let once = attrs_of(&record);
    assert_eq!(
        once,
        vec![
            ("event.name".to_owned(), text("x")),
            ("event.nonce".to_owned(), AttrVal::Integer(41)),
        ]
    );
    record.promote_internal_nonce();
    assert_eq!(attrs_of(&record), once);
    assert_eq!(record.internal_nonce(), None);
}

#[test]
fn interaction_keys_follow_the_switch() {
    let mut on = EventRecord::new();
    on.add_interaction(true, TimelineId(7), 3);
    assert_eq!(
        attrs_of(&on),
        vec![
            (
                "event.interaction.remote_nonce".to_owned(),
                AttrVal::Integer(3)
            ),
            (
                "event.interaction.remote_timeline_id".to_owned(),
                AttrVal::TimelineId(TimelineId(7))
            ),
        ]
    );
    let mut off = EventRecord::new();
    off.add_interaction(false, TimelineId(7), 3);
    assert_eq!(
        attrs_of(&off),
        vec![
            (
                "event.internal.defmt.interaction.remote_nonce".to_owned(),
                AttrVal::Integer(3)
            ),
            (
                "event.internal.defmt.interaction.remote_timeline_id".to_owned(),
                AttrVal::TimelineId(TimelineId(7))
            ),
        ]
    );
}

#[test]
fn from_iter_normalizes_keys() {
    let record = EventRecord::from_iter(vec![
        ("name".to_owned(), text("a")),
        ("event.task".to_owned(), text("b")),
        ("event.name".to_owned(), text("c")),
    ]);
    assert_eq!(record.event_name(), Some("c"));
    assert_eq!(record.task_name(), Some("b"));
    assert_eq!(record.isr_name(), None);
    assert_eq!(record.attributes().len(), 2);
}

#[test]
fn literal_values_are_read_back_from_their_rendering() {
    for (rendering, value) in [
        ("true", AttrVal::Bool(true)),
        ("false", AttrVal::Bool(false)),
        ("0", AttrVal::Integer(0)),
        ("-17", AttrVal::Integer(-17)),
        ("9223372036854775807", AttrVal::Integer(i64::MAX)),
        ("9223372036854775808", AttrVal::BigInt(i64::MAX as i128 + 1)),
        ("12.3", AttrVal::Float(12.3_f64.to_bits())),
        ("-0.5", AttrVal::Float((-0.5_f64).to_bits())),
        (&1e300_f64.to_string(), AttrVal::Float(1e300_f64.to_bits())),
        ("biz", text("biz")),
        ("hello world", text("hello world")),
    ] {
        let format = format!("ev::k={rendering}");
        let record = EventRecord::from_frame(frame(Level::Info, &format, vec![], "ev"), None)
            .unwrap();
        assert_eq!(record.get("event.k"), Some(&value), "{rendering}");
    }
    let rendered = modality_api::AttrVal::Float(76.37_f64.into()).to_string();
    let format = format!("ev::k={rendered}");
    let record =
        EventRecord::from_frame(frame(Level::Info, &format, vec![], "ev"), None).unwrap();
    assert_eq!(
        record.get("event.k"),
        Some(&AttrVal::Float(76.37_f64.to_bits()))
    );
}

#[test]
fn literal_pairs_that_do_not_qualify_are_left_out() {
    let record = EventRecord::from_frame(
        frame(
            Level::Info,
            "ev::=1,a=,.b=2,c=3=4, d = 5 ,e,f=0:42,,g=x",
            vec![],
            "ev",
        ),
        None,
    )
    .unwrap();
    assert_eq!(record.get("event."), None);
    assert_eq!(record.get("event.a"), None);
    assert_eq!(record.get("event..b"), None);
    assert_eq!(record.get("event.c"), None);
    assert_eq!(record.get("event.d"), Some(&AttrVal::Integer(5)));
    assert_eq!(record.get("event.e"), None);
    assert_eq!(
        record.get("event.f"),
        Some(&AttrVal::LogicalTime([0, 0, 0, 42]))
    );
    assert_eq!(record.get("event.g"), Some(&text("x")));
}

#[test]
fn attributes_stand_in_the_order_of_their_keys() {
    let mut attrs = modality_defmt_plugin::attributes::Attributes::new();
    for key in ["b", "a", "c", "", "ab", "B", "a", "\u{e9}", "z"] {
        attrs.insert(key.to_owned(), text(key));
    }
    attrs.insert("b".to_owned(), AttrVal::Integer(1));
    assert_eq!(attrs.remove("c"), Some(text("c")));
    assert_eq!(attrs.remove("c"), None);
    let keys: Vec<String> = attrs.to_vec().into_iter().map(|(k, _)| k).collect();
    assert_eq!(keys, vec!["", "B", "a", "ab", "b", "z", "\u{e9}"]);
    let mut by_std = keys.clone();
    by_std.sort();
    assert_eq!(keys, by_std);
    assert_eq!(attrs.get("b"), Some(&AttrVal::Integer(1)));
    assert_eq!(attrs.get("c"), None);
    assert!(attrs.contains_key(""));
    assert_eq!(attrs.len(), 7);
    assert_eq!(attrs.key_at(1), "B");
    assert_eq!(attrs.value_at(1), &text("B"));
}
