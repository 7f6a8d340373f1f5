use modality_defmt_plugin::client::{Client, KeyInterner};
use modality_defmt_plugin::keys::{normalize_event_key, normalize_timeline_key};

#[test]
fn keys_are_normalized() {
    assert_eq!(normalize_timeline_key("name"), "timeline.name");
    assert_eq!(normalize_timeline_key("timeline.name"), "timeline.name");
    assert_eq!(normalize_timeline_key("timeline"), "timeline.timeline");
    assert_eq!(normalize_timeline_key(""), "timeline.");
    assert_eq!(normalize_event_key("name"), "event.name");
    assert_eq!(normalize_event_key("event.name"), "event.name");
    assert_eq!(normalize_event_key("timeline.name"), "event.timeline.name");
}

#[test]
fn an_interned_key_keeps_its_identifier() {
    let mut keys = KeyInterner::new();
    assert_eq!(keys.get("event.name"), None);
    keys.learn("event.name".to_owned(), 7);
    assert_eq!(keys.get("event.name"), Some(7));
    keys.learn("event.task".to_owned(), 8);
    keys.learn("event.name".to_owned(), 9);
    assert_eq!(keys.get("event.name"), Some(7));
    assert_eq!(keys.get("event.task"), Some(8));
    assert_eq!(keys.get("event.nam"), None);
    keys.learn("big".to_owned(), u32::MAX);
    assert_eq!(keys.get("big"), Some(u32::MAX));
}

#[test]
fn timeline_and_event_keys_are_kept_apart() {
    let mut client = Client::new();
    assert_eq!(
        client.timeline_key("name"),
        ("timeline.name".to_owned(), None)
    );
    client.learn_timeline_key("timeline.name".to_owned(), 1);
    assert_eq!(
        client.timeline_key("name"),
        ("timeline.name".to_owned(), Some(1))
    );
    assert_eq!(
        client.timeline_key("timeline.name"),
        ("timeline.name".to_owned(), Some(1))
    );
    assert_eq!(client.event_key("name"), ("event.name".to_owned(), None));
    assert_eq!(
        client.event_key("timeline.name"),
        ("event.timeline.name".to_owned(), None)
    );
    client.learn_event_key("event.name".to_owned(), 2);
    assert_eq!(client.event_key("name"), ("event.name".to_owned(), Some(2)));
    assert_eq!(
        client.timeline_key("event.name"),
        ("timeline.event.name".to_owned(), None)
    );
    assert_eq!(
        client.timeline_key("name"),
        ("timeline.name".to_owned(), Some(1))
    );
}
