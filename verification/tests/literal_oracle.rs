use defmt_parser::{Fragment, ParserMode};
use modality_defmt_plugin::attributes::{AttrVal, TimelineId};
use modality_defmt_plugin::event_record::EventRecord;
use modality_defmt_plugin::frame::{Arg, Frame};
use std::collections::BTreeMap;

fn plain(v: modality_api::AttrVal) -> AttrVal {
    match v {
        modality_api::AttrVal::TimelineId(t) => {
            AttrVal::TimelineId(TimelineId(t.get_raw().as_u128()))
        }
        modality_api::AttrVal::EventCoordinate(c) => AttrVal::EventCoordinate(c.as_bytes()),
        modality_api::AttrVal::String(s) => AttrVal::String(s.into_owned()),
        modality_api::AttrVal::Integer(i) => AttrVal::Integer(i),
        modality_api::AttrVal::BigInt(b) => AttrVal::BigInt(*b),
        modality_api::AttrVal::Float(f) => AttrVal::Float(f.to_bits()),
        modality_api::AttrVal::Bool(b) => AttrVal::Bool(b),
        modality_api::AttrVal::Timestamp(n) => AttrVal::Timestamp(n.get_raw()),
        modality_api::AttrVal::LogicalTime(l) => AttrVal::LogicalTime(*l.get_raw()),
    }
}

fn literal_pairs(s: &str) -> BTreeMap<String, AttrVal> {
    let mut pairs = BTreeMap::new();
    for pair in s.split(',') {
        let parts: Vec<&str> = pair.trim().split('=').map(|p| p.trim()).collect();
        if parts.len() != 2
            || parts[0].is_empty()
            || parts[1].is_empty()
            || parts[0].starts_with('.')
        {
            continue;
        }
        if let Ok(val) = parts[1].parse::<modality_api::AttrVal>() {
            pairs.insert(parts[0].to_owned(), plain(val));
        }
    }
    pairs
}

/// The attributes of a frame without level, timestamp and location whose
/// arguments are all small unsigned integers, built with the string
/// functions of the standard library.
fn with_std(format: &str, args: &[u128], message: &str) -> Option<Vec<(String, AttrVal)>> {
    let fragments = defmt_parser::parse(format, ParserMode::ForwardsCompatible).ok()?;
    let mut attributes: BTreeMap<String, AttrVal> = BTreeMap::new();
    let mut name: Option<String> = None;
    let mut pending: Option<String> = None;
    attributes.insert(
        "event.internal.defmt.table_index".to_owned(),
        AttrVal::Integer(0),
    );
    attributes.insert(
        "event.internal.defmt.formatted_string".to_owned(),
        AttrVal::String(message.replace('\n', " ")),
    );
    for (idx, frag) in fragments.iter().enumerate() {
        match frag {
            Fragment::Literal(l) => {
                let mut s: &str = l.as_ref();
                if idx == 0 {
                    if let Some((n, rem)) = s.split_once("::") {
                        name = Some(n.trim().to_owned());
                        s = rem;
                    }
                }
                for (k, v) in literal_pairs(s) {
                    attributes.insert(format!("event.{k}"), v);
                }
                s = s.trim_start_matches(',');
                if let Some((_, rest)) = s.rsplit_once(',') {
                    s = rest;
                }
                if let Some((k, _)) = s.split_once('=') {
                    pending = Some(k.trim().to_owned());
                }
            }
            Fragment::Parameter(p) => {
                if let Some(key) = pending.take() {
                    let key = key.replace(' ', "_");
                    attributes.insert(
                        format!("event.internal.defmt.{key}.type"),
                        AttrVal::String(format!("{:?}", p.ty).to_lowercase()),
                    );
                    attributes.insert(
                        format!("event.{key}"),
                        AttrVal::from_i128(args[p.index] as i128),
                    );
                }
            }
        }
    }
    attributes.insert(
        "event.name".to_owned(),
        AttrVal::String(name.unwrap_or_else(|| message.replace('\n', " "))),
    );
    Some(attributes.into_iter().collect())
}

fn with_library(format: &str, args: &[u128], message: &str) -> Option<Vec<(String, AttrVal)>> {
    let frame = Frame {
        table_index: 0,
        format: format.to_owned(),
        level: None,
        timestamp_format: None,
        timestamp_args: vec![],
        args: args.iter().map(|a| Arg::Uxx(*a)).collect(),
        message: message.to_owned(),
    };
    EventRecord::from_frame(frame, None)
        .ok()
        .map(|r| r.attributes().to_vec())
}

fn texts(alphabet: &[char], len: usize) -> Vec<String> {
    let mut all = vec![String::new()];
    let mut last = vec![String::new()];
    for _ in 0..len {
        let mut next = Vec::new();
        for s in &last {
            for c in alphabet {
                let mut t = s.clone();
                t.push(*c);
                next.push(t);
            }
        }
        all.extend(next.iter().cloned());
        last = next;
    }
    all
}

#[test]
fn literals_are_read_as_the_standard_library_reads_them() {
    let mut seen = 0;
    for lit in texts(&['a', '=', ',', ' ', '.', ':'], 5) {
        let format = format!("{lit}{{=u8}}");
        let std = with_std(&format, &[7], "msg");
        assert!(std.is_some());
        assert_eq!(with_library(&format, &[7], "msg"), std, "{format:?}");
        seen += 1;
    }
    assert_eq!(seen, 1 + 6 + 36 + 216 + 1296 + 7776);
}

#[test]
fn literals_between_parameters_are_read_as_the_standard_library_reads_them() {
    for first in texts(&['k', '=', ','], 3) {
        for second in texts(&['q', '=', ',', ' '], 3) {
            let format = format!("n::{first}{{=u8}}{second}{{=u16}}");
            let std = with_std(&format, &[1, 2], "a\nb");
            assert!(std.is_some());
            assert_eq!(with_library(&format, &[1, 2], "a\nb"), std, "{format:?}");
        }
    }
}

#[test]
fn white_space_and_values_are_read_as_the_standard_library_reads_them() {
    for lit in [
        "\u{a0}k\u{2003}=\t1\u{3000}",
        "k\u{85}= v\u{1680}",
        "\u{feff}k=1",
        "\u{200b}k=1",
        "k=\u{2028}x\u{2029}",
        "k='a b',j=\"c\",i=''",
        "k=1e3,j=-0,i=+5,h=0x10,g=1_0",
        "k=TRUE,j=False,i=tRuE",
        "k=00000000-0000-0000-0000-000000000001",
        "k=1:2:3:4,j=1:2:3:4:5,i=:1",
        "\u{e9}=\u{1f600},z\u{e9}=1",
        "a.b.c=d.e,.a=1,a.=2",
    ] {
        let format = format!("ev::{lit}");
        let std = with_std(&format, &[], "m");
        assert!(std.is_some());
        assert_eq!(with_library(&format, &[], "m"), std, "{format:?}");
        let format = format!("{lit},p={{=u8}}");
        let std = with_std(&format, &[9], "m");
        assert_eq!(with_library(&format, &[9], "m"), std, "{format:?}");
    }
}

/// Whether some parameter of `format` has a type that is digits with
/// fewer than two characters behind them: a parameter opens at a `{` that
/// is not the first of two and ends at the next `}`, and its type stands
/// behind the `=` after its index, up to a `:`.
fn has_short_digit_type(format: &str) -> bool {
    let mut rest = format;
    while let Some(open) = rest.find('{') {
        let after = &rest[open + 1..];
        if after.starts_with('{') {
            rest = &after[1..];
            continue;
        }
        if let Some(close) = after.find('}') {
            let param = after[..close].trim_start_matches(|c: char| c.is_ascii_digit());
            if let Some(typed) = param.strip_prefix('=') {
                let ty = typed.split(':').next().unwrap_or("");
                let behind = ty.trim_start_matches(|c: char| c.is_ascii_digit());
                if behind.len() < ty.len() && behind.len() < 2 {
                    return true;
                }
            }
        }
        rest = after;
    }
    false
}

#[test]
fn formats_are_accepted_as_the_parser_accepts_them() {
    let mut accepted = 0;
    let mut turned_away = 0;
    for format in texts(&['{', '}', '=', '0', '1', '.', ':', 'u', '8', '?'], 5) {
        let library = with_library(&format, &[1, 2], "m");
        if has_short_digit_type(&format) {
            assert_eq!(library, None, "{format:?}");
            turned_away += 1;
            continue;
        }
        let parsed = defmt_parser::parse(&format, ParserMode::ForwardsCompatible);
        assert_eq!(library.is_some(), parsed.is_ok(), "{format:?}");
        if parsed.is_ok() {
            accepted += 1;
        }
    }
    assert!(accepted > 1000);
    assert!(turned_away > 10);
}

#[test]
fn bit_fields_and_indices_are_accepted_as_the_parser_accepts_them() {
    for format in [
        "{=0..8}",
        "{0=0..8}{0=8..16}",
        "{=0..128}",
        "{=0..129}",
        "{=8..0}",
        "{=300..301}",
        "{=0..8:x}",
        "{=0.8}",
        "{=0...8}",
        "{1}{0}",
        "{0}{1}{2}{3}{4}{5}{6}{7}{8}{9}{10}",
        "{2}",
        "{0}{0=u8}",
        "{0=u8}{0=u16}",
        "{{}}",
        "{{0=5}}",
        "x{{{=u8}}}",
        "{=[u8; 4]}",
        "{=[?; 2]}",
        "{=[u8;4}",
        "{=u8:#04x}",
        "{=u8:nonsense}",
        "{:?}",
        "{=__internal_Display}",
    ] {
        assert!(!has_short_digit_type(format), "{format}");
        let args: Vec<u128> = (0..16).collect();
        let parsed = defmt_parser::parse(format, ParserMode::ForwardsCompatible);
        assert_eq!(
            with_library(format, &args, "m").is_some(),
            parsed.is_ok(),
            "{format:?}"
        );
    }
}

#[test]
fn run_identifiers_are_read_as_the_standard_library_reads_integers() {
    let mut texts = texts(&['+', '-', '0', '1', '9', ' ', 'a'], 4);
    for edge in [
        "9223372036854775807",
        "9223372036854775808",
        "-9223372036854775808",
        "-9223372036854775809",
        "+9223372036854775807",
        "000000000000000000000000000007",
        "-000000000000000000000000000007",
        "99999999999999999999999999999999999999999",
        "\u{0661}",
        "1\u{0661}",
    ] {
        texts.push(edge.to_owned());
    }
    for id in texts {
        let mut cfg = modality_defmt_plugin::config::PluginConfig::default();
        cfg.run_id = Some(id.clone());
        let attrs = modality_defmt_plugin::defmt_reader::common_timeline_attrs(
            &cfg,
            &vec![],
            &vec![],
            "Raw",
            "r",
            "c",
        );
        let expected = match id.parse::<i64>() {
            Ok(i) => AttrVal::Integer(i),
            Err(_) => AttrVal::String(id.clone()),
        };
        assert_eq!(attrs.get("timeline.run_id"), Some(&expected), "{id:?}");
    }
}

#[test]
fn rates_are_read_as_the_standard_library_reads_them() {
    for s in texts(&['/', '1', '2', ' ', '+', '0'], 5) {
        let components: Vec<&str> = s.split('/').map(|c| c.trim()).collect();
        let expected = if components.len() != 2 || components.iter().any(|c| c.is_empty()) {
            None
        } else {
            match (
                components[0].parse::<u64>().ok(),
                components[1].parse::<u64>().ok(),
            ) {
                (Some(n), Some(d)) => modality_defmt_plugin::time::Rate::new(n, d),
                _ => None,
            }
        };
        let got = s.parse::<modality_defmt_plugin::time::Rate>().ok();
        assert_eq!(got, expected, "{s:?}");
    }
}

#[test]
fn modes_are_read_as_the_standard_library_reads_them() {
    for s in [
        "none",
        " none",
        "none ",
        "\tNONE\n",
        "\u{a0}Rtic1\u{3000}",
        "\u{200b}none",
        "none\u{feff}",
        "rtic1\u{85}",
        "RTIC1",
        "rtic",
        "",
        " ",
        "n one",
        "\u{212a}",
        "NON\u{0395}",
    ] {
        let expected = match s.trim().to_lowercase().as_ref() {
            "none" => Ok(modality_defmt_plugin::opts::RtosMode::NoRtos),
            "rtic1" => Ok(modality_defmt_plugin::opts::RtosMode::Rtic1),
            _ => Err(format!("Unsupported RTOS mode '{s}'")),
        };
        assert_eq!(
            s.parse::<modality_defmt_plugin::opts::RtosMode>(),
            expected,
            "{s:?}"
        );
    }
}
