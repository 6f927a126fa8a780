use aw_watcher_steam::aw::{AwClient, DataValue, Event, EventData};

#[test]
fn event_serializes_to_aw_wire_format() {
    let mut data = EventData::new();
    data.insert("currently-playing-game".to_string(), DataValue::Text("Portal".to_string()));
    let event = Event {
        // 2026-06-14T12:00:00Z
        timestamp_ms: 1_781_438_400_000,
        duration_ms: 1500,
        data,
    };
    assert_eq!(event.timestamp_text().unwrap(), "2026-06-14T12:00:00.000Z");
    assert_eq!(event.duration_ms, 1500); // 1.5 s: the float seconds on the wire are app/'s
    assert_eq!(
        event.data.get("currently-playing-game"),
        Some(&DataValue::Text("Portal".to_string()))
    );
}

#[test]
fn timestamp_text_keeps_milliseconds() {
    let e = Event { timestamp_ms: 1_781_438_400_123, duration_ms: 0, data: EventData::new() };
    assert_eq!(e.timestamp_text().unwrap(), "2026-06-14T12:00:00.123Z");
    let epoch = Event { timestamp_ms: 0, duration_ms: 0, data: EventData::new() };
    assert_eq!(epoch.timestamp_text().unwrap(), "1970-01-01T00:00:00.000Z");
    let far = Event { timestamp_ms: i64::MAX, duration_ms: 0, data: EventData::new() };
    assert!(far.timestamp_text().is_none());
}

#[test]
fn event_data_insert_replaces_and_get_reads_back() {
    let mut d = EventData::new();
    assert_eq!(d.get("k"), None);
    d.insert("k".to_string(), DataValue::Number(1));
    d.insert("j".to_string(), DataValue::Number(2));
    d.insert("k".to_string(), DataValue::Text("x".to_string()));
    assert_eq!(d.get("k"), Some(&DataValue::Text("x".to_string())));
    assert_eq!(d.get("j"), Some(&DataValue::Number(2)));
    assert_eq!(d.get("z"), None);
}

#[test]
fn client_addresses() {
    let c = AwClient::with_hostname("localhost", 5600, "aw-watcher-steam", Some("box".to_string()));
    assert_eq!(c.base_url, "http://localhost:5600");
    assert_eq!(c.name, "aw-watcher-steam");
    assert_eq!(c.hostname, "box");
    assert_eq!(c.bucket_url("b1"), "http://localhost:5600/api/0/buckets/b1");
    assert_eq!(
        c.heartbeat_url_prefix("b1"),
        "http://localhost:5600/api/0/buckets/b1/heartbeat?pulsetime="
    );
    let r = c.bucket_request("b1", "currently-playing-game");
    assert_eq!(r.id, "b1");
    assert_eq!(r.client, "aw-watcher-steam");
    assert_eq!(r.bucket_type, "currently-playing-game");
    assert_eq!(r.hostname, "box");
}

#[test]
fn client_without_hostname_is_unknown() {
    let c = AwClient::with_hostname("127.0.0.1", 0, "w", None);
    assert_eq!(c.hostname, "unknown");
    assert_eq!(c.base_url, "http://127.0.0.1:0");
}

#[test]
fn client_resolves_machine_hostname() {
    let c = AwClient::new("localhost", 5600, "aw-watcher-steam");
    assert_eq!(c.base_url, "http://localhost:5600");
    assert_eq!(c.name, "aw-watcher-steam");
}
