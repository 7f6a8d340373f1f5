use modality_defmt_plugin::config::{DefmtConfigEntry, PluginConfig};
use modality_defmt_plugin::opts::{DefmtOpts, RtosMode};
use modality_defmt_plugin::time::{Rate, TrackingInstant};
use std::str::FromStr;

#[test]
fn rtos_mode() {
    assert_eq!(RtosMode::from_str("none"), Ok(RtosMode::NoRtos));
    assert_eq!(RtosMode::from_str("rtic1"), Ok(RtosMode::Rtic1));
    assert_eq!(
        RtosMode::from_str("rtic2"),
        Err("Unsupported RTOS mode 'rtic2'".to_owned())
    );
}

#[test]
fn rate_from_str() {
    assert!(Rate::from_str("0/0").is_err());
    assert!(Rate::from_str("1/0").is_err());
    assert!(Rate::from_str("10/0").is_err());
    assert!(Rate::from_str("10").is_err());

    assert_eq!(Rate::from_str("1/10"), Ok(Rate::new(1, 10).unwrap()));
    assert_eq!(Rate::from_str("2 / 10"), Ok(Rate::new(2, 10).unwrap()));
}

#[test]
fn rates() {
    assert_eq!(Rate::new(0, 0), None);
    assert_eq!(Rate::new(1, 0), None);
    assert_eq!(Rate::new(10, 1), None);

    let r = Rate::new(1, 1_000_000).unwrap(); // 1 MHz, 1 tick == 1us
    let ticks = 1_000; // 1ms
    let ns = r * ticks;
    assert_eq!(ns, 1_000_000);

    let r = Rate::new(1, 80_000_000).unwrap(); // 80 MHz, 1 tick == 12.5ns
    let ticks = 1;
    let ns = r * ticks;
    assert_eq!(ns, 12);
    let ticks = 2;
    let ns = r * ticks;
    assert_eq!(ns, 25);
}

#[test]
fn rollover_tracking_u8() {
    // 5 ticks before rollover
    let t0 = u8::MAX - 5;

    // 10 ticks after rollover
    let t1 = 10;

    let mut instant = TrackingInstant::<u8>::zero();
    assert_eq!(instant.elapsed(t0), u64::from(t0));

    let t2 = instant.elapsed(t1);
    assert_eq!(u64::from(t0) + 16, t2);
}

#[test]
fn rollover_tracking_u16() {
    // 5 ticks before rollover
    let t0 = u16::MAX - 5;

    // 10 ticks after rollover
    let t1 = 10;

    let mut instant = TrackingInstant::<u16>::zero();
    assert_eq!(instant.elapsed(t0), u64::from(t0));

    let t2 = instant.elapsed(t1);
    assert_eq!(u64::from(t0) + 16, t2);
}

#[test]
fn rollover_tracking_u32() {
    // 5 ticks before rollover
    let t0 = u32::MAX - 5;

    // 10 ticks after rollover
    let t1 = 10;

    let mut instant = TrackingInstant::<u32>::zero();
    assert_eq!(instant.elapsed(t0), u64::from(t0));

    let t2 = instant.elapsed(t1);
    assert_eq!(u64::from(t0) + 16, t2);
}

#[test]
fn tracking_instant_without_rollover() {
    let mut instant = TrackingInstant::<u16>::zero();
    assert_eq!(instant.as_ticks(), 0);
    assert_eq!(instant.elapsed(7), 7);
    assert_eq!(instant.elapsed(7), 7);
    assert_eq!(instant.elapsed(9), 9);
    assert_eq!(instant.as_ticks(), 9);
    assert_eq!(instant.elapsed(8), 65_536 + 8);
    assert_eq!(instant.elapsed(0), 2 * 65_536);
}

#[test]
fn rtos_mode_in_any_case_and_trimmed() {
    assert_eq!(RtosMode::from_str(" RTIC1\n"), Ok(RtosMode::Rtic1));
    assert_eq!(RtosMode::from_str("None"), Ok(RtosMode::NoRtos));
    assert_eq!(RtosMode::from_name("rtic1"), Some(RtosMode::Rtic1));
    assert_eq!(RtosMode::from_name("RTIC1"), None);
    assert_eq!(
        RtosMode::from_str(" no ne "),
        Err("Unsupported RTOS mode ' no ne '".to_owned())
    );
    assert_eq!(RtosMode::default(), RtosMode::NoRtos);
    assert_eq!(RtosMode::NoRtos.to_string(), "none");
    assert_eq!(RtosMode::Rtic1.as_str(), "rtic1");
}

#[test]
fn rate_parts() {
    let r = Rate::from_str(" 3/ +4 ").unwrap();
    assert_eq!(r.numerator(), 3);
    assert_eq!(r.denominator(), 4);
    assert_eq!(
        Rate::from_str("18446744073709551615/18446744073709551615")
            .unwrap()
            .denominator(),
        u64::MAX
    );
    for bad in [
        "",
        "/",
        "1/",
        "/2",
        "1/2/3",
        "2/1",
        "a/b",
        "1/18446744073709551616",
        "-1/2",
        "1 2/3",
    ] {
        assert_eq!(
            Rate::from_str(bad),
            Err(format!(
                "Invalid rate '{bad}', use the supported format 'numerator/denominator' with valid components."
            )),
            "{bad}"
        );
    }
}

#[test]
fn merged_options_win() {
    let mut cfg = PluginConfig::default();
    cfg.init_task_name = Some("file".to_owned());
    cfg.run_id = Some("r".to_owned());
    let merged = cfg.clone().merge_opts(DefmtOpts::default());
    assert_eq!(merged.init_task_name.as_deref(), Some("file"));
    assert_eq!(merged.rtos_mode, RtosMode::NoRtos);
    assert!(!merged.disable_interactions);
    let merged = cfg.merge_opts(DefmtOpts {
        disable_interactions: true,
        init_task_name: Some("cli".to_owned()),
        rtos_mode: Some(RtosMode::Rtic1),
    });
    assert_eq!(merged.init_task_name.as_deref(), Some("cli"));
    assert_eq!(merged.run_id.as_deref(), Some("r"));
    assert_eq!(merged.rtos_mode, RtosMode::Rtic1);
    assert!(merged.disable_interactions);
    assert_eq!(DefmtConfigEntry::default(), DefmtConfigEntry::Importer);
}
