use modality_defmt_plugin::attributes::{AttrVal, Attributes};
use modality_defmt_plugin::config::PluginConfig;
use modality_defmt_plugin::context_manager::{ContextEvent, ContextManager};
use modality_defmt_plugin::context_model::context_id;
use modality_defmt_plugin::error::Error;
use modality_defmt_plugin::event_record::EventRecord;
use modality_defmt_plugin::opts::RtosMode;

const TRACE_START: &str = "AUXON_TRACE_START";
const TASK_ENTER: &str = "AUXON_TASK_ENTER";
const TASK_EXIT: &str = "AUXON_TASK_EXIT";
const ISR_ENTER: &str = "AUXON_INTERRUPT_ENTER";
const ISR_EXIT: &str = "AUXON_INTERRUPT_EXIT";

fn text(s: &str) -> AttrVal {
    AttrVal::String(s.to_owned())
}

fn timestamp(ts: u64) -> (String, AttrVal) {
    (
        EventRecord::internal_attr_key("timestamp"),
        AttrVal::from_i128(ts.into()),
    )
}

fn trace_start(ts: u64) -> EventRecord {
    EventRecord::from_iter(vec![
        (EventRecord::attr_key("name"), text(TRACE_START)),
        (EventRecord::attr_key("task"), text("init")),
        (EventRecord::attr_key("version"), AttrVal::from_u64(1)),
        timestamp(ts),
    ])
}

fn isr_enter(ts: u64) -> EventRecord {
    EventRecord::from_iter(vec![
        (EventRecord::attr_key("name"), text(ISR_ENTER)),
        (EventRecord::attr_key("isr"), text("ISR")),
        timestamp(ts),
    ])
}

fn isr_exit(ts: u64) -> EventRecord {
    EventRecord::from_iter(vec![
        (EventRecord::attr_key("name"), text(ISR_EXIT)),
        timestamp(ts),
    ])
}

fn task_enter(ts: u64) -> EventRecord {
    EventRecord::from_iter(vec![
        (EventRecord::attr_key("name"), text(TASK_ENTER)),
        (EventRecord::attr_key("task"), text("task")),
        timestamp(ts),
    ])
}

fn task_exit(ts: u64) -> EventRecord {
    EventRecord::from_iter(vec![
        (EventRecord::attr_key("name"), text(TASK_EXIT)),
        timestamp(ts),
    ])
}

fn event(name: &str, ts: u64) -> EventRecord {
    EventRecord::from_iter(vec![(EventRecord::attr_key("name"), text(name)), timestamp(ts)])
}

fn check_mngr_state(mngr: &mut ContextManager, active_ctx_name: &str, ts_and_ev_cnt: u64) {
    assert_eq!(mngr.active_context().unwrap(), context_id(active_ctx_name));
    assert_eq!(mngr.event_counter(), ts_and_ev_cnt);
    assert_eq!(mngr.last_timestamp(), Some(ts_and_ev_cnt));
}

fn check_ctx_event(
    ctx_ev: &ContextEvent,
    ctx_name: &str,
    global_ordering: u128,
    int_nonce: i64,
    add_previous_event_nonce: bool,
) {
    assert_eq!(ctx_ev.context, context_id(ctx_name));
    assert_eq!(ctx_ev.global_ordering, global_ordering);
    assert_eq!(ctx_ev.record.internal_nonce(), Some(int_nonce));
    assert_eq!(ctx_ev.add_previous_event_nonce, add_previous_event_nonce);
}

fn rtic1_config() -> PluginConfig {
    let mut cfg = PluginConfig::default();
    cfg.rtos_mode = RtosMode::Rtic1;
    cfg
}

#[test]
fn rtic1_context_switching() {
    let mut mngr = ContextManager::new(rtic1_config(), Attributes::new());

    let ctx = mngr.process_record(trace_start(1)).unwrap();
    assert_eq!(mngr.integration_version(), Some(1));
    check_mngr_state(&mut mngr, "init", 1);
    assert_eq!(ctx.events.len(), 1);
    check_ctx_event(&ctx.events[0], "init", 1, 1, false);
    assert_eq!(ctx.events[0].record.integration_version(), Some(1));

    let ctx = mngr.process_record(isr_enter(2)).unwrap();
    check_mngr_state(&mut mngr, "ISR", 2);
    assert_eq!(ctx.events.len(), 1);
    check_ctx_event(&ctx.events[0], "ISR", 2, 1, true);

    let ctx = mngr.process_record(task_enter(3)).unwrap();
    check_mngr_state(&mut mngr, "task", 3);
    assert_eq!(ctx.events.len(), 1);
    check_ctx_event(&ctx.events[0], "task", 3, 1, true);

    let ctx = mngr.process_record(event("foo", 4)).unwrap();
    check_mngr_state(&mut mngr, "task", 4);
    assert_eq!(ctx.events.len(), 1);
    check_ctx_event(&ctx.events[0], "task", 4, 2, false);

    let ctx = mngr.process_record(task_exit(5)).unwrap();
    check_mngr_state(&mut mngr, "ISR", 5); // Pop'd back onto the ISR context
    assert_eq!(ctx.events.len(), 1);
    check_ctx_event(&ctx.events[0], "task", 5, 3, false);

    let ctx = mngr.process_record(isr_exit(6)).unwrap();
    check_mngr_state(&mut mngr, "init", 6); // Pop'd back onto the init context
    assert_eq!(ctx.events.len(), 1);
    check_ctx_event(&ctx.events[0], "ISR", 6, 2, true);

    let ctx = mngr.process_record(isr_enter(7)).unwrap();
    check_mngr_state(&mut mngr, "ISR", 7);
    assert_eq!(ctx.events.len(), 2);
    // Expect a synthetic event
    check_ctx_event(&ctx.events[0], "init", 7, 2, true);
    check_ctx_event(&ctx.events[1], "ISR", 8, 3, true);

    let ctx = mngr.process_record(task_enter(8)).unwrap();
    check_mngr_state(&mut mngr, "task", 8);
    assert_eq!(ctx.events.len(), 1);
    // Synthetic event bumped global_ordering to 9
    check_ctx_event(&ctx.events[0], "task", 9, 4, true);
}

#[test]
fn synthetic_event_attributes() {
    let mut mngr = ContextManager::new(rtic1_config(), Attributes::new());
    mngr.process_record(trace_start(1)).unwrap();
    mngr.process_record(isr_enter(2)).unwrap();
    let exit = mngr.process_record(isr_exit(3)).unwrap();
    let isr_timeline = mngr.timeline_meta(context_id("ISR")).unwrap().id();
    let init_timeline = mngr.timeline_meta(context_id("init")).unwrap().id();
    assert_eq!(exit.events[0].record.internal_nonce(), Some(2));

    let mut enter = task_enter(4);
    enter.insert_attr("event.timestamp".to_owned(), AttrVal::Timestamp(4_000));
    let ctx = mngr.process_record(enter).unwrap();
    assert_eq!(ctx.events.len(), 2);
    let synthetic = &ctx.events[0].record;
    assert_eq!(synthetic.event_name(), Some("AUXON_CONTEXT_RETURN"));
    assert_eq!(
        synthetic.get("event.internal.defmt.synthetic"),
        Some(&AttrVal::Bool(true))
    );
    assert_eq!(
        synthetic.get("event.timestamp"),
        Some(&AttrVal::Timestamp(4_000))
    );
    assert_eq!(
        synthetic.get("event.interaction.remote_timeline_id"),
        Some(&AttrVal::TimelineId(isr_timeline))
    );
    assert_eq!(
        synthetic.get("event.interaction.remote_nonce"),
        Some(&AttrVal::Integer(2))
    );
    assert_eq!(synthetic.get("event.internal.defmt.event_counter"), None);
    let real = &ctx.events[1].record;
    assert_eq!(
        real.get("event.interaction.remote_timeline_id"),
        Some(&AttrVal::TimelineId(init_timeline))
    );
    assert_eq!(
        real.get("event.interaction.remote_nonce"),
        Some(&AttrVal::Integer(2))
    );
    assert_eq!(
        real.get("event.internal.defmt.event_counter"),
        Some(&AttrVal::Integer(4))
    );
}

#[test]
fn no_synthetic_event_after_an_event_on_the_timeline() {
    let mut mngr = ContextManager::new(rtic1_config(), Attributes::new());
    mngr.process_record(trace_start(1)).unwrap();
    mngr.process_record(isr_enter(2)).unwrap();
    mngr.process_record(isr_exit(3)).unwrap();
    let between = mngr.process_record(event("between", 4)).unwrap();
    assert_eq!(between.events.len(), 1);
    check_ctx_event(&between.events[0], "init", 4, 2, true);
    let ctx = mngr.process_record(isr_enter(5)).unwrap();
    assert_eq!(ctx.events.len(), 1);
    check_ctx_event(&ctx.events[0], "ISR", 5, 3, true);
}

#[test]
fn disabled_interactions_stay_internal() {
    let mut cfg = rtic1_config();
    cfg.disable_interactions = true;
    let mut mngr = ContextManager::new(cfg, Attributes::new());
    mngr.process_record(trace_start(1)).unwrap();
    let ctx = mngr.process_record(isr_enter(2)).unwrap();
    check_ctx_event(&ctx.events[0], "ISR", 2, 1, false);
    let record = &ctx.events[0].record;
    assert_eq!(record.get("event.interaction.remote_nonce"), None);
    assert_eq!(
        record.get("event.internal.defmt.interaction.remote_nonce"),
        Some(&AttrVal::Integer(1))
    );
}

#[test]
fn mid_stream_start_falls_back_to_the_unknown_context() {
    let mut mngr = ContextManager::new(rtic1_config(), Attributes::new());
    let ctx = mngr.process_record(event("foo", 1)).unwrap();
    assert_eq!(mngr.rtos_mode(), RtosMode::NoRtos);
    assert_eq!(ctx.events.len(), 1);
    assert_eq!(ctx.events[0].context, context_id("UNKNOWN_CONTEXT"));
    assert_eq!(ctx.events[0].global_ordering, 1);
    assert!(!ctx.events[0].add_previous_event_nonce);
    assert_eq!(
        ctx.events[0].record.get("event.internal.defmt.event_counter"),
        Some(&AttrVal::Integer(1))
    );
    check_mngr_state(&mut mngr, "UNKNOWN_CONTEXT", 1);

    let ctx = mngr.process_record(isr_enter(2)).unwrap();
    assert_eq!(ctx.events.len(), 1);
    check_ctx_event(&ctx.events[0], "UNKNOWN_CONTEXT", 2, 1, false);
    let ctx = mngr.process_record(task_exit(3)).unwrap();
    check_ctx_event(&ctx.events[0], "UNKNOWN_CONTEXT", 3, 2, false);
    check_mngr_state(&mut mngr, "UNKNOWN_CONTEXT", 3);

    let meta = mngr.timeline_meta(context_id("UNKNOWN_CONTEXT")).unwrap();
    assert_eq!(
        meta.attributes().get("timeline.name"),
        Some(&text("UNKNOWN_CONTEXT"))
    );
    assert_eq!(
        meta.attributes().get("timeline.internal.defmt.rtos_mode"),
        Some(&text("none"))
    );
    assert!(matches!(
        mngr.timeline_meta(context_id("ISR")),
        Err(Error::ContextManagerInternalState)
    ));
}

#[test]
fn start_event_without_version_falls_back() {
    let mut mngr = ContextManager::new(rtic1_config(), Attributes::new());
    let start = EventRecord::from_iter(vec![
        (EventRecord::attr_key("name"), text(TRACE_START)),
        (EventRecord::attr_key("task"), text("init")),
    ]);
    let ctx = mngr.process_record(start).unwrap();
    assert_eq!(ctx.events[0].context, context_id("UNKNOWN_CONTEXT"));
    assert_eq!(mngr.rtos_mode(), RtosMode::NoRtos);
    assert_eq!(mngr.integration_version(), None);
}

#[test]
fn enter_without_a_name_falls_back() {
    let mut mngr = ContextManager::new(rtic1_config(), Attributes::new());
    mngr.process_record(trace_start(1)).unwrap();
    mngr.process_record(isr_enter(2)).unwrap();
    mngr.process_record(isr_exit(3)).unwrap();
    let nameless = EventRecord::from_iter(vec![
        (EventRecord::attr_key("name"), text(TASK_ENTER)),
        timestamp(4),
    ]);
    let ctx = mngr.process_record(nameless).unwrap();
    assert_eq!(mngr.rtos_mode(), RtosMode::NoRtos);
    assert_eq!(ctx.events.len(), 1);
    check_ctx_event(&ctx.events[0], "UNKNOWN_CONTEXT", 4, 1, false);
    check_mngr_state(&mut mngr, "UNKNOWN_CONTEXT", 4);
}

#[test]
fn exit_from_the_root_is_a_normal_event() {
    let mut mngr = ContextManager::new(rtic1_config(), Attributes::new());
    mngr.process_record(trace_start(1)).unwrap();
    let ctx = mngr.process_record(task_exit(2)).unwrap();
    assert_eq!(ctx.events.len(), 1);
    check_ctx_event(&ctx.events[0], "init", 2, 2, false);
    check_mngr_state(&mut mngr, "init", 2);
}

#[test]
fn plain_mode_has_one_timeline() {
    let mut mngr = ContextManager::new(PluginConfig::default(), Attributes::new());
    let e = mngr.active_context().unwrap_err();
    assert!(matches!(e, Error::ContextManagerInternalState));
    assert_eq!(e.message(), "Context manager is in an inconsistent state");
    for n in 1..=5_u64 {
        let ctx = mngr.process_record(isr_enter(n)).unwrap();
        assert_eq!(ctx.events.len(), 1);
        check_ctx_event(&ctx.events[0], "main", n as u128, n as i64, false);
        check_mngr_state(&mut mngr, "main", n);
    }
    let meta = mngr.timeline_meta(context_id("main")).unwrap();
    assert_eq!(meta.attributes().get("timeline.name"), Some(&text("main")));
    assert_eq!(
        meta.attributes().get("timeline.internal.defmt.context.id"),
        Some(&AttrVal::from_i128(context_id("main") as i128))
    );
}

#[test]
fn init_task_name_names_the_root() {
    let mut cfg = PluginConfig::default();
    cfg.init_task_name = Some("boot".to_owned());
    let mut mngr = ContextManager::new(cfg, Attributes::new());
    let ctx = mngr.process_record(event("x", 1)).unwrap();
    assert_eq!(ctx.events[0].context, context_id("boot"));

    let mut cfg = rtic1_config();
    cfg.init_task_name = Some("boot".to_owned());
    let mut mngr = ContextManager::new(cfg, Attributes::new());
    mngr.process_record(trace_start(1)).unwrap();
    check_mngr_state(&mut mngr, "boot", 1);
    let meta = mngr.timeline_meta(context_id("boot")).unwrap();
    assert_eq!(
        meta.attributes()
            .get("timeline.internal.defmt.integration_version"),
        Some(&AttrVal::Integer(1))
    );
    assert_eq!(
        meta.attributes().get("timeline.internal.defmt.rtos_mode"),
        Some(&text("rtic1"))
    );
}

#[test]
fn common_attributes_are_normalized_on_every_timeline() {
    let mut common = Attributes::new();
    common.insert("platform".to_owned(), text("RTICv1"));
    common.insert("timeline.run_id".to_owned(), AttrVal::Integer(1));
    let mut mngr = ContextManager::new(rtic1_config(), common);
    mngr.process_record(trace_start(1)).unwrap();
    mngr.process_record(isr_enter(2)).unwrap();
    for name in ["init", "ISR"] {
        let meta = mngr.timeline_meta(context_id(name)).unwrap();
        assert_eq!(
            meta.attributes().get("timeline.platform"),
            Some(&text("RTICv1"))
        );
        assert_eq!(
            meta.attributes().get("timeline.run_id"),
            Some(&AttrVal::Integer(1))
        );
        for (k, _) in meta.attributes().to_vec() {
            assert!(k.starts_with("timeline."), "{k}");
        }
    }
    let a = mngr.timeline_meta(context_id("init")).unwrap().id();
    let b = mngr.timeline_meta(context_id("ISR")).unwrap().id();
    assert_ne!(a, b);
}

#[test]
fn a_context_keeps_its_timeline_and_nonce() {
    let mut mngr = ContextManager::new(rtic1_config(), Attributes::new());
    mngr.process_record(trace_start(1)).unwrap();
    mngr.process_record(isr_enter(2)).unwrap();
    let first = mngr.timeline_meta(context_id("ISR")).unwrap().id();
    mngr.process_record(isr_exit(3)).unwrap();
    mngr.process_record(event("x", 4)).unwrap();
    let ctx = mngr.process_record(isr_enter(5)).unwrap();
    check_ctx_event(&ctx.events[0], "ISR", 5, 3, true);
    assert_eq!(mngr.timeline_meta(context_id("ISR")).unwrap().id(), first);
}

#[test]
fn context_id_is_a_function_of_the_name() {
    assert_eq!(context_id("init"), context_id("init"));
    assert_ne!(context_id("init"), context_id("ISR"));
    assert_ne!(context_id(""), context_id("init"));
}
