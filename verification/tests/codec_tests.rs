use azkar_core::ReminderItem;
use azkar_core::SchedulerState;

fn item(id: &str, text: &str) -> ReminderItem {
    ReminderItem { id: String::from(id), text: String::from(text) }
}

fn sample() -> SchedulerState {
    SchedulerState {
        items: vec![
            item("1700000000000000001", "سبحان الله"),
            item("1700000000000000002", "line\nbreak and \"quote\" and \\slash"),
            item("1700000000000000003", "tab\there"),
        ],
        interval_seconds: 900,
        daily_count: 12,
        last_reset_date: String::from("2024-02-29"),
        last_notification_time: 1_709_200_000,
        is_paused: true,
        last_shown_item_id: Some(String::from("1700000000000000002")),
    }
}

fn assert_equivalent(a: &SchedulerState, b: &SchedulerState) {
    assert_eq!(a.items.len(), b.items.len());
    for (x, y) in a.items.iter().zip(b.items.iter()) {
        assert_eq!(x.id, y.id);
        assert_eq!(x.text, y.text);
    }
    assert_eq!(a.interval_seconds, b.interval_seconds);
    assert_eq!(a.daily_count, b.daily_count);
    assert_eq!(a.last_reset_date, b.last_reset_date);
    assert_eq!(a.last_notification_time, b.last_notification_time);
    assert_eq!(a.is_paused, b.is_paused);
    assert_eq!(a.last_shown_item_id, b.last_shown_item_id);
}

#[test]
fn round_trip_reproduces_the_state() {
    let s = sample();
    let json = s.to_json();
    let loaded = SchedulerState::load_from_json(json.as_str(), String::from("1999-01-01"));
    assert_equivalent(&s, &loaded);
}

#[test]
fn round_trip_with_no_last_shown_and_empty_items() {
    let mut s = sample();
    s.last_shown_item_id = None;
    s.items = Vec::new();
    let json = s.to_json();
    let loaded = SchedulerState::load_from_json(json.as_str(), String::from("1999-01-01"));
    assert_equivalent(&s, &loaded);
}

#[test]
fn emitted_document_is_valid_json() {
    let s = sample();
    let json = s.to_json();
    let value: serde_json::Value = serde_json::from_str(&json).expect("well-formed JSON");
    assert_eq!(value["intervalSeconds"].as_u64(), Some(900));
    assert_eq!(value["dailyCount"].as_u64(), Some(12));
    assert_eq!(value["lastResetDate"].as_str(), Some("2024-02-29"));
    assert_eq!(value["lastNotificationTime"].as_u64(), Some(1_709_200_000));
    assert_eq!(value["isPaused"].as_bool(), Some(true));
    assert_eq!(value["lastShownItemId"].as_str(), Some("1700000000000000002"));
    let items = value["items"].as_array().expect("items array");
    assert_eq!(items.len(), 3);
    assert_eq!(items[0]["text"].as_str(), Some("سبحان الله"));
    assert_eq!(items[1]["text"].as_str(), Some("line\nbreak and \"quote\" and \\slash"));
}

#[test]
fn items_only_document_defaults_the_rest() {
    let loaded = SchedulerState::load_from_json("{\"items\": []}", String::from("2024-05-06"));
    assert_eq!(loaded.items.len(), 0);
    assert_eq!(loaded.interval_seconds, 60);
    assert_eq!(loaded.daily_count, 0);
    assert_eq!(loaded.last_reset_date, "2024-05-06");
    assert_eq!(loaded.last_notification_time, 0);
    assert!(!loaded.is_paused);
    assert!(loaded.last_shown_item_id.is_none());
}

#[test]
fn corrupt_documents_fall_back_to_the_default_state() {
    for text in ["", "not json", "{\"items\": [", "[1,2,3]", "{\"items\": 5}"] {
        let loaded = SchedulerState::load_from_json(text, String::from("2024-05-06"));
        assert_eq!(loaded.items.len(), 6);
        assert_eq!(loaded.interval_seconds, 60);
        assert_eq!(loaded.last_reset_date, "2024-05-06");
    }
}

#[test]
fn duplicate_ids_in_a_document_fall_back_to_the_default_state() {
    let text = "{\"items\":[{\"id\":\"x\",\"text\":\"a\"},{\"id\":\"x\",\"text\":\"b\"}]}";
    let loaded = SchedulerState::load_from_json(text, String::from("2024-05-06"));
    assert_eq!(loaded.items.len(), 6);
    assert_eq!(loaded.items[0].id, "1");
}

#[test]
fn loading_clamps_a_zero_interval() {
    let text = "{\"intervalSeconds\": 0}";
    let loaded = SchedulerState::load_from_json(text, String::from("2024-05-06"));
    assert_eq!(loaded.interval_seconds, 1);
}

#[test]
fn loading_accepts_whitespace_and_any_member_order() {
    let text = " {\n  \"isPaused\": true ,\n  \"items\": [ { \"id\": \"k\" , \"text\": \"v\" } ] ,\n  \"intervalSeconds\": 5\n} ";
    let loaded = SchedulerState::load_from_json(text, String::from("2024-05-06"));
    assert!(loaded.is_paused);
    assert_eq!(loaded.interval_seconds, 5);
    assert_eq!(loaded.items.len(), 1);
    assert_eq!(loaded.items[0].id, "k");
    assert_eq!(loaded.items[0].text, "v");
}

#[test]
fn loading_decodes_escapes() {
    let text = "{\"items\":[{\"id\":\"e\",\"text\":\"a\\n\\t\\\"b\\\\c\\/d\"}]}";
    let loaded = SchedulerState::load_from_json(text, String::from("2024-05-06"));
    assert_eq!(loaded.items[0].text, "a\n\t\"b\\c/d");
}

#[test]
fn serde_written_state_loads_back() {
    // a state persisted by a generic JSON writer round-trips through load
    let mut map = serde_json::Map::new();
    let mut it = serde_json::Map::new();
    it.insert(String::from("id"), serde_json::Value::String(String::from("9")));
    it.insert(String::from("text"), serde_json::Value::String(String::from("ذِكر")));
    map.insert(
        String::from("items"),
        serde_json::Value::Array(vec![serde_json::Value::Object(it)]),
    );
    map.insert(String::from("intervalSeconds"), serde_json::Value::from(120u64));
    map.insert(String::from("dailyCount"), serde_json::Value::from(4u64));
    map.insert(
        String::from("lastResetDate"),
        serde_json::Value::String(String::from("2024-06-07")),
    );
    map.insert(String::from("lastNotificationTime"), serde_json::Value::from(77u64));
    map.insert(String::from("isPaused"), serde_json::Value::Bool(false));
    map.insert(String::from("lastShownItemId"), serde_json::Value::Null);
    let text = serde_json::to_string_pretty(&serde_json::Value::Object(map)).unwrap();
    let loaded = SchedulerState::load_from_json(&text, String::from("1999-01-01"));
    assert_eq!(loaded.items.len(), 1);
    assert_eq!(loaded.items[0].id, "9");
    assert_eq!(loaded.items[0].text, "ذِكر");
    assert_eq!(loaded.interval_seconds, 120);
    assert_eq!(loaded.daily_count, 4);
    assert_eq!(loaded.last_reset_date, "2024-06-07");
    assert_eq!(loaded.last_notification_time, 77);
    assert!(!loaded.is_paused);
    assert!(loaded.last_shown_item_id.is_none());
}

#[test]
fn load_from_json_now_recovers_on_missing_file_content() {
    let loaded = SchedulerState::load_from_json_now("");
    assert_eq!(loaded.items.len(), 6);
    assert_eq!(loaded.interval_seconds, 60);
}
