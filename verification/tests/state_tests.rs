use std::collections::BTreeMap;

use hn_scored::json::JsonValue;
use hn_scored::state;
use hn_scored::time::Timestamp;
use hn_scored::types::{ApiItem, State, Story};

#[test]
fn threshold_zero_includes_negative_scores() {
    let crossings = state::threshold::crossed_thresholds(-5);
    assert_eq!(crossings, vec![0]);
}

#[test]
fn cleanup_removes_expired_thresholds_and_empty_stories() {
    let cycle = Timestamp::parse("2025-04-14T12:00:00Z").unwrap();
    let mut state = State::empty();
    state.stories.insert(
        1,
        story_with_thresholds(&[(0, "2025-04-07T12:00:00Z"), (50, "2025-04-06T11:59:59Z")]),
    );
    let changed = state::cleanup::cleanup_state(&mut state, &cycle);
    assert!(changed);
    assert_eq!(state.stories.get(&1).unwrap().thresholds.len(), 1);
    assert!(state.stories.get(&1).unwrap().thresholds.contains_key(&0));
}

#[test]
fn invalid_response_keeps_existing_story() {
    let cycle = Timestamp::parse("2025-04-14T12:00:00Z").unwrap();
    let existing = story_with_thresholds(&[(0, "2025-04-14T12:00:00Z")]);
    let item = ApiItem {
        id: 1,
        item_type: Some("story".to_string()),
        title: None,
        url: None,
        score: None,
        dead: None,
        deleted: None,
        descendants: None,
        by: None,
        time: None,
    };
    let (next, stats) =
        state::update::apply_item(Some(&existing), Some(existing.max_score), &item, &cycle);
    assert_eq!(next.unwrap(), existing);
    assert!(!stats.changed);
}

#[test]
fn state_serialization_orders_numeric_keys() {
    let mut state = State::empty();
    state.stories.insert(
        10,
        story_with_thresholds(&[(100, "2025-04-14T12:00:00Z"), (50, "2025-04-14T11:00:00Z")]),
    );
    state
        .stories
        .insert(2, story_with_thresholds(&[(0, "2025-04-14T10:00:00Z")]));
    let text = String::from_utf8(state::store::serialize_state(&state).unwrap()).unwrap();
    assert!(text.find("\"2\": {").unwrap() < text.find("\"10\": {").unwrap());
    assert!(text.find("\"50\"").unwrap() < text.find("\"100\"").unwrap());
}

#[test]
fn state_load_derives_max_score_history_from_existing_stories() {
    let mut state = State::empty();
    state
        .stories
        .insert(1, story_with_thresholds(&[(100, "2025-04-14T12:00:00Z")]));
    let bytes = state::store::serialize_state(&state).unwrap();
    let mut value: serde_json::Value = serde_json::from_slice(&bytes).unwrap();
    value.as_object_mut().unwrap().remove("max_scores");

    let loaded = state::store::parse_state(&to_json(&value)).unwrap();

    assert_eq!(loaded.max_scores.get(&1), Some(&100));
}

#[test]
fn state_load_rejects_malformed_max_score_history() {
    let value: serde_json::Value =
        serde_json::from_slice(br#"{"version":1,"max_scores":{"1":"invalid"},"stories":{}}"#)
            .unwrap();

    let error = state::store::parse_state(&to_json(&value)).unwrap_err();

    assert!(error.message().contains("invalid state.json max_scores value"));
}

#[test]
fn empty_state_serializes_exactly() {
    let text = String::from_utf8(state::store::serialize_state(&State::empty()).unwrap()).unwrap();
    assert_eq!(
        text,
        "{\n  \"version\": 1,\n  \"last_output_change_at\": \"1970-01-01T00:00:00Z\",\n  \"max_scores\": {},\n  \"stories\": {}\n}\n"
    );
}

#[test]
fn story_serializes_with_fixed_key_order() {
    let mut state = State::empty();
    let s = story_with_thresholds(&[(0, "2025-04-14T10:00:00Z"), (50, "2025-04-14T11:00:00Z")]);
    state.last_output_change_at = s.last_output_change_at;
    state.stories.insert(1, s);
    state.max_scores.insert(1, 100);
    let text = String::from_utf8(state::store::serialize_state(&state).unwrap()).unwrap();
    assert_eq!(
        text,
        "{\n  \"version\": 1,\n  \"last_output_change_at\": \"2025-04-14T10:00:00Z\",\n  \"max_scores\": {\n    \"1\": 100\n  },\n  \"stories\": {\n    \"1\": {\n      \"id\": 1,\n      \"title\": \"Story 1\",\n      \"url\": \"https://example.com/1\",\n      \"hn_url\": \"https://news.ycombinator.com/item?id=1\",\n      \"score\": 100,\n      \"max_score\": 100,\n      \"comments\": 10,\n      \"by\": \"alice\",\n      \"first_seen\": \"2025-04-14T10:00:00Z\",\n      \"story_time\": 1700000000,\n      \"last_output_change_at\": \"2025-04-14T10:00:00Z\",\n      \"thresholds\": {\n        \"0\": \"2025-04-14T10:00:00Z\",\n        \"50\": \"2025-04-14T11:00:00Z\"\n      }\n    }\n  }\n}\n"
    );
}

#[test]
fn serialized_state_reads_back_the_same() {
    let mut state = State::empty();
    let mut a = story_with_thresholds(&[(0, "2025-04-14T10:00:00Z"), (100, "2025-04-14T12:00:00Z")]);
    a.title = "Quotes \"and\" back\\slash\n".to_string();
    let mut b = story_with_thresholds(&[(50, "2025-04-13T09:00:00Z")]);
    b.id = 7;
    b.score = -3;
    b.last_output_change_at = Timestamp::parse("2025-04-14T11:00:00Z").unwrap();
    state.stories.insert(1, a);
    state.stories.insert(7, b);
    state.max_scores.insert(1, 100);
    state.max_scores.insert(7, 120);
    state.max_scores.insert(99, 5);
    state.recompute_last_output_change_at();
    let bytes = state::store::serialize_state(&state).unwrap();
    let value: serde_json::Value = serde_json::from_slice(&bytes).unwrap();
    let back = state::store::parse_state(&to_json(&value)).unwrap();
    assert_eq!(back, state);
    let document = state::store::state_document(&state);
    assert_eq!(state::store::parse_state(&document).unwrap(), state);
}

#[test]
fn wrong_version_starts_empty() {
    let value: serde_json::Value =
        serde_json::from_slice(br#"{"version":2,"max_scores":{"1":"invalid"},"stories":{}}"#).unwrap();
    assert_eq!(state::store::parse_state(&to_json(&value)).unwrap(), State::empty());
    let value: serde_json::Value = serde_json::from_slice(br#"[1, 2]"#).unwrap();
    assert_eq!(state::store::parse_state(&to_json(&value)).unwrap(), State::empty());
}

#[test]
fn malformed_story_entries_are_skipped() {
    let mut state = State::empty();
    state
        .stories
        .insert(1, story_with_thresholds(&[(100, "2025-04-14T12:00:00Z")]));
    let bytes = state::store::serialize_state(&state).unwrap();
    let mut value: serde_json::Value = serde_json::from_slice(&bytes).unwrap();
    let good = value["stories"]["1"].clone();
    let stories = value["stories"].as_object_mut().unwrap();
    stories.insert("2".to_string(), good.clone());
    let mut no_title = good.clone();
    no_title.as_object_mut().unwrap().remove("title");
    stories.insert("1".to_string(), no_title);
    let loaded = state::store::parse_state(&to_json(&value)).unwrap();
    assert!(loaded.stories.is_empty());
    assert!(loaded.max_scores.is_empty());
    assert_eq!(loaded.last_output_change_at, Timestamp::epoch());
}

#[test]
fn story_entry_needs_numeric_key_matching_id() {
    let story: serde_json::Value = serde_json::from_slice(
        br#"{"id":5,"title":"T","url":"","hn_url":"h","score":1,"max_score":2,"comments":0,"by":"b","first_seen":"2025-04-14T10:00:00Z","story_time":0,"last_output_change_at":"2025-04-14T10:00:00Z","thresholds":{"0":"2025-04-14T10:00:00Z"}}"#,
    )
    .unwrap();
    let parsed = state::store::parse_story("5", &to_json(&story)).unwrap();
    assert_eq!(parsed.0, 5);
    assert_eq!(parsed.1.max_score, 2);
    assert!(state::store::parse_story("6", &to_json(&story)).is_none());
    assert!(state::store::parse_story("x", &to_json(&story)).is_none());
    assert_eq!(state::store::parse_story("+5", &to_json(&story)).unwrap().0, 5);
}

#[test]
fn new_story_records_every_crossed_threshold_once() {
    let cycle = Timestamp::parse("2025-04-14T12:00:00Z").unwrap();
    let item = live_item(3, 120);
    let (next, stats) = state::update::apply_item(None, None, &item, &cycle);
    let story = next.unwrap();
    assert!(stats.created);
    assert_eq!(stats.crossings, 3);
    assert_eq!(stats.observed_score, Some(120));
    assert_eq!(story.thresholds.keys().copied().collect::<Vec<_>>(), vec![0, 50, 100]);
    assert_eq!(story.first_seen, cycle);
    assert_eq!(story.hn_url, "https://news.ycombinator.com/item?id=3");
    let (again, stats) = state::update::apply_item(None, Some(120), &item, &cycle);
    assert!(again.unwrap().thresholds.is_empty());
    assert_eq!(stats.crossings, 0);
}

#[test]
fn dead_and_non_story_items_remove_the_story() {
    let cycle = Timestamp::parse("2025-04-14T12:00:00Z").unwrap();
    let existing = story_with_thresholds(&[(0, "2025-04-14T10:00:00Z")]);
    let mut dead = live_item(1, 10);
    dead.dead = Some(true);
    let (next, stats) = state::update::apply_item(Some(&existing), Some(100), &dead, &cycle);
    assert!(next.is_none());
    assert!(stats.dead_removed && stats.removed && stats.changed);
    let mut job = live_item(1, 10);
    job.item_type = Some("job".to_string());
    let (next, stats) = state::update::apply_item(Some(&existing), Some(100), &job, &cycle);
    assert!(next.is_none());
    assert!(stats.removed && !stats.dead_removed);
}

#[test]
fn score_rise_records_only_new_thresholds() {
    let cycle = Timestamp::parse("2025-04-14T12:00:00Z").unwrap();
    let existing = story_with_thresholds(&[(0, "2025-04-14T10:00:00Z"), (50, "2025-04-14T10:00:00Z")]);
    let item = live_item(1, 210);
    let (next, stats) = state::update::apply_item(Some(&existing), Some(60), &item, &cycle);
    let story = next.unwrap();
    assert_eq!(stats.crossings, 3);
    assert_eq!(story.thresholds.get(&50), existing.thresholds.get(&50));
    assert_eq!(story.thresholds.get(&200), Some(&cycle));
    assert_eq!(story.score, 210);
    assert_eq!(story.max_score, 210);
    assert_eq!(story.last_output_change_at, cycle);
}

#[test]
fn cleanup_twice_changes_nothing_more() {
    let cycle = Timestamp::parse("2025-04-14T12:00:00Z").unwrap();
    let mut state = State::empty();
    state.stories.insert(
        1,
        story_with_thresholds(&[(0, "2025-04-01T12:00:00Z")]),
    );
    state.max_scores.insert(1, 100);
    assert!(state::cleanup::cleanup_state(&mut state, &cycle));
    assert!(state.stories.is_empty());
    assert_eq!(state.max_scores.get(&1), Some(&100));
    assert_eq!(state.last_output_change_at, Timestamp::epoch());
    assert!(!state::cleanup::cleanup_state(&mut state, &cycle));
}

#[test]
fn crossed_thresholds_lists_every_reached_threshold() {
    assert_eq!(state::threshold::crossed_thresholds(120), vec![0, 50, 100]);
    assert_eq!(state::threshold::crossed_thresholds(1000).len(), 16);
    assert_eq!(state::threshold::crossed_thresholds(49), vec![0]);
}

fn live_item(id: u64, score: i64) -> ApiItem {
    ApiItem {
        id,
        item_type: Some("story".to_string()),
        title: Some(format!("Story {id}")),
        url: Some(format!("https://example.com/{id}")),
        score: Some(score),
        dead: None,
        deleted: None,
        descendants: Some(5),
        by: Some(format!("user{id}")),
        time: Some(1_700_000_000),
    }
}

fn to_json(value: &serde_json::Value) -> JsonValue {
    match value {
        serde_json::Value::Null => JsonValue::Null,
        serde_json::Value::Bool(b) => JsonValue::Bool(*b),
        serde_json::Value::Number(n) => match (n.as_u64(), n.as_i64()) {
            (Some(u), _) => JsonValue::UInt(u),
            (None, Some(i)) => JsonValue::Int(i),
            (None, None) => JsonValue::OtherNumber,
        },
        serde_json::Value::String(s) => JsonValue::Str(s.clone()),
        serde_json::Value::Array(items) => JsonValue::Array(items.iter().map(to_json).collect()),
        serde_json::Value::Object(members) => JsonValue::Object(
            members
                .iter()
                .map(|(k, v)| (k.clone(), to_json(v)))
                .collect(),
        ),
    }
}

fn story_with_thresholds(pairs: &[(u16, &str)]) -> Story {
    Story {
        id: 1,
        title: "Story 1".to_string(),
        url: "https://example.com/1".to_string(),
        hn_url: "https://news.ycombinator.com/item?id=1".to_string(),
        score: 100,
        max_score: 100,
        comments: 10,
        by: "alice".to_string(),
        first_seen: Timestamp::parse("2025-04-14T10:00:00Z").unwrap(),
        story_time: 1_700_000_000,
        last_output_change_at: Timestamp::parse("2025-04-14T10:00:00Z").unwrap(),
        thresholds: pairs
            .iter()
            .map(|(k, v)| (*k, Timestamp::parse(v).unwrap()))
            .collect::<BTreeMap<_, _>>(),
    }
}

#[test]
fn state_store_recovers_from_invalid_json() {
    let state = state::store::state_from_bytes(Some(b"{not-json")).unwrap();
    assert_eq!(state, State::empty());
}

#[test]
fn missing_or_empty_state_file_starts_empty() {
    assert_eq!(state::store::state_from_bytes(None).unwrap(), State::empty());
    assert_eq!(state::store::state_from_bytes(Some(b"")).unwrap(), State::empty());
}

#[test]
fn state_bytes_read_back_the_same() {
    let mut state = State::empty();
    let mut a = story_with_thresholds(&[(0, "2025-04-14T10:00:00Z"), (100, "2025-04-14T12:00:00Z")]);
    a.title = "Caf\u{e9} \"q\" <b>".to_string();
    state.stories.insert(1, a);
    state.max_scores.insert(1, 100);
    state.max_scores.insert(40, -7);
    state.recompute_last_output_change_at();
    let bytes = state::store::serialize_state(&state).unwrap();
    assert_eq!(state::store::state_from_bytes(Some(&bytes)).unwrap(), state);
}

#[test]
fn malformed_history_in_bytes_is_an_error() {
    let error = state::store::state_from_bytes(Some(br#"{"version":1,"max_scores":[],"stories":{}}"#))
        .unwrap_err();
    assert_eq!(error.message(), "serialization error: invalid state.json max_scores value");
}

#[test]
fn higher_scores_extend_the_crossed_thresholds() {
    let mut previous = state::threshold::crossed_thresholds(i64::MIN);
    assert_eq!(previous, vec![0]);
    for score in [-1, 0, 49, 50, 120, 499, 500, 650, 999, 1000, i64::MAX] {
        let next = state::threshold::crossed_thresholds(score);
        assert_eq!(next[0], 0);
        assert_eq!(&next[..previous.len()], &previous[..]);
        previous = next;
    }
    assert_eq!(previous.len(), 16);
}
