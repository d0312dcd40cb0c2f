use std::collections::BTreeMap;

use hn_scored::api::firebase::{DiscoveryResult, ItemFetchResult};
use hn_scored::cycle::{Action, Cycle};
use hn_scored::output::PersistedOutput;
use hn_scored::state;
use hn_scored::time::Timestamp;
use hn_scored::types::{ApiItem, State};

/// What a cycle leaves on disk, kept in memory.
#[derive(Clone, Default, PartialEq, Debug)]
struct Disk {
    state: Option<Vec<u8>>,
    files: BTreeMap<String, Vec<u8>>,
}

/// The HN API as the tests set it up: the three lists (or an outage) and
/// the items (an item that is missing fails to fetch).
struct Api {
    lists: Option<Vec<u64>>,
    items: BTreeMap<u64, ApiItem>,
}

fn load(disk: &Disk) -> State {
    state::store::state_from_bytes(disk.state.as_deref()).unwrap()
}

fn run_once(disk: &mut Disk, api: &Api, when: &str) -> u8 {
    let (mut cycle, mut action) = Cycle::start(
        load(disk),
        Timestamp::parse(when).unwrap(),
        "https://hn.ysm.dev".to_string(),
    );
    loop {
        action = match action {
            Action::FetchDiscovery => {
                let discovery = ["topstories", "beststories", "newstories"]
                    .iter()
                    .enumerate()
                    .map(|(n, name)| DiscoveryResult {
                        endpoint: *name,
                        ids: match &api.lists {
                            Some(ids) if n == 0 => Ok(ids.clone()),
                            Some(_) => Ok(Vec::new()),
                            None => Err("502 Bad Gateway".to_string()),
                        },
                    })
                    .collect::<Vec<_>>();
                cycle.on_discovery(&discovery)
            }
            Action::FetchItems(ids) => {
                let results = ids
                    .iter()
                    .map(|id| ItemFetchResult {
                        id: *id,
                        item: api.items.get(id).cloned().ok_or("500".to_string()),
                    })
                    .collect::<Vec<_>>();
                cycle.on_items(&results)
            }
            Action::CompareOutputs => {
                let artifacts = cycle.artifacts.as_ref().unwrap();
                let existing = PersistedOutput {
                    state: disk.state.clone(),
                    headers: disk.files.get("_headers").cloned(),
                    index_is_file: disk.files.contains_key("index.html"),
                    feed_files: artifacts
                        .feed_files
                        .iter()
                        .map(|(path, _)| disk.files.get(path).cloned())
                        .collect(),
                    paths: disk.files.keys().cloned().collect(),
                };
                cycle.on_compared(&existing)
            }
            Action::Persist => {
                let artifacts = cycle.artifacts.as_ref().unwrap();
                disk.state = Some(artifacts.state_bytes.clone());
                disk.files.clear();
                disk.files.insert("_headers".to_string(), artifacts.headers_bytes.clone());
                disk.files.insert("index.html".to_string(), artifacts.index_bytes.clone());
                for (path, bytes) in &artifacts.feed_files {
                    disk.files.insert(path.clone(), bytes.clone());
                }
                cycle.on_persisted()
            }
            Action::Exit(code) => return code,
        };
    }
}

fn sample_item(id: u64, score: i64, descendants: u64) -> ApiItem {
    ApiItem {
        id,
        item_type: Some("story".to_string()),
        title: Some(format!("Story {id}")),
        url: Some(format!("https://example.com/{id}")),
        score: Some(score),
        dead: None,
        deleted: None,
        descendants: Some(descendants),
        by: Some(format!("user{id}")),
        time: Some(1_700_000_000),
    }
}

fn feed(disk: &Disk, path: &str) -> String {
    String::from_utf8(disk.files.get(path).unwrap().clone()).unwrap()
}

#[test]
fn score_rise_and_drop_retains_threshold_feed_membership() {
    let mut disk = Disk::default();
    let mut api = Api { lists: Some(vec![1]), items: BTreeMap::from([(1, sample_item(1, 60, 5))]) };
    assert_eq!(run_once(&mut disk, &api, "2025-04-14T12:00:00Z"), 0);
    api.lists = Some(vec![]);
    api.items.insert(1, sample_item(1, 120, 7));
    assert_eq!(run_once(&mut disk, &api, "2025-04-14T12:01:00Z"), 0);
    api.items.insert(1, sample_item(1, 80, 9));
    assert_eq!(run_once(&mut disk, &api, "2025-04-14T12:02:00Z"), 0);
    let state = load(&disk);
    let story = state.stories.get(&1).unwrap();
    assert_eq!(story.score, 80);
    assert_eq!(story.max_score, 120);
    assert_eq!(story.thresholds.get(&100).unwrap().iso8601(), "2025-04-14T12:01:00Z");
    assert!(feed(&disk, "feeds/article/100.xml").contains("https://news.ycombinator.com/item?id=1"));
}

#[test]
fn dead_story_is_removed_from_state_and_feeds() {
    let mut disk = Disk::default();
    let mut api = Api { lists: Some(vec![2]), items: BTreeMap::from([(2, sample_item(2, 150, 12))]) };
    run_once(&mut disk, &api, "2025-04-14T12:00:00Z");
    let mut dead = sample_item(2, 0, 0);
    dead.url = None;
    dead.score = None;
    dead.descendants = None;
    dead.by = None;
    dead.time = None;
    dead.dead = Some(true);
    api.items.insert(2, dead);
    run_once(&mut disk, &api, "2025-04-14T12:01:00Z");
    let state = load(&disk);
    assert!(state.stories.is_empty());
    assert_eq!(state.max_scores.get(&2), Some(&150));
    assert!(!feed(&disk, "feeds/article/100.xml").contains("item?id=2"));
}

#[test]
fn failed_item_fetch_keeps_existing_story() {
    let mut disk = Disk::default();
    let mut api = Api { lists: Some(vec![3]), items: BTreeMap::from([(3, sample_item(3, 80, 4))]) };
    run_once(&mut disk, &api, "2025-04-14T12:00:00Z");
    let before = disk.state.clone();
    api.lists = Some(vec![]);
    api.items.clear();
    run_once(&mut disk, &api, "2025-04-14T12:01:00Z");
    assert_eq!(disk.state, before);
}

#[test]
fn full_discovery_outage_is_fatal_and_preserves_bytes() {
    let mut disk = Disk::default();
    disk.state = Some(
        b"{\n  \"version\": 1,\n  \"last_output_change_at\": \"1970-01-01T00:00:00Z\",\n  \"stories\": {}\n}\n"
            .to_vec(),
    );
    disk.files.insert("_headers".to_string(), b"keep\n".to_vec());
    disk.files.insert("index.html".to_string(), b"keep\n".to_vec());
    let before = disk.clone();
    let api = Api { lists: None, items: BTreeMap::new() };
    assert_eq!(run_once(&mut disk, &api, "2025-04-14T12:00:00Z"), 1);
    assert_eq!(disk, before);
}

#[test]
fn unchanged_cycle_returns_two_and_keeps_bytes_identical() {
    let mut disk = Disk::default();
    let mut api = Api { lists: Some(vec![4]), items: BTreeMap::from([(4, sample_item(4, 90, 6))]) };
    assert_eq!(run_once(&mut disk, &api, "2025-04-14T12:00:00Z"), 0);
    let before = disk.clone();
    api.lists = Some(vec![]);
    assert_eq!(run_once(&mut disk, &api, "2025-04-14T12:10:00Z"), 2);
    assert_eq!(disk, before);
}

#[test]
fn feed_caps_at_two_hundred_items_with_descending_id_tiebreak() {
    let mut disk = Disk::default();
    let ids = (1..=205).collect::<Vec<u64>>();
    let api = Api {
        lists: Some(ids.clone()),
        items: ids.iter().map(|id| (*id, sample_item(*id, 0, 0))).collect(),
    };
    run_once(&mut disk, &api, "2025-04-14T12:00:00Z");
    let rss = feed(&disk, "feeds/article/0.xml");
    assert!(rss.contains("item?id=205"));
    assert!(!rss.contains("item?id=5</guid>"));
    assert_eq!(rss.matches("<item>").count(), 200);
}

#[test]
fn every_output_file_is_written_once() {
    let mut disk = Disk::default();
    let api = Api { lists: Some(vec![9]), items: BTreeMap::from([(9, sample_item(9, 500, 1))]) };
    assert_eq!(run_once(&mut disk, &api, "2025-04-14T12:00:00Z"), 0);
    assert_eq!(disk.files.len(), 98);
    assert!(disk.files.contains_key("feeds/comments/1000.json"));
    let headers = String::from_utf8(disk.files["_headers"].clone()).unwrap();
    assert_eq!(headers, hn_scored::feed::common::headers_content());
    let text = String::from_utf8(disk.state.clone().unwrap()).unwrap();
    assert!(text.contains("\"stories\""));
    assert!(feed(&disk, "feeds/article/500.xml").contains("item?id=9"));
    assert!(!feed(&disk, "feeds/article/600.xml").contains("item?id=9"));
}

#[test]
fn missing_output_file_forces_a_rewrite() {
    let mut disk = Disk::default();
    let api = Api { lists: Some(vec![4]), items: BTreeMap::from([(4, sample_item(4, 90, 6))]) };
    assert_eq!(run_once(&mut disk, &api, "2025-04-14T12:00:00Z"), 0);
    disk.files.remove("feeds/comments/50.atom");
    assert_eq!(run_once(&mut disk, &api, "2025-04-14T12:05:00Z"), 0);
    assert!(disk.files.contains_key("feeds/comments/50.atom"));
    disk.files.insert("stray.txt".to_string(), b"x".to_vec());
    assert_eq!(run_once(&mut disk, &api, "2025-04-14T12:06:00Z"), 0);
    assert!(!disk.files.contains_key("stray.txt"));
}

#[test]
fn artifacts_of_one_state_are_identical() {
    let mut disk = Disk::default();
    let api = Api { lists: Some(vec![11, 12]), items: BTreeMap::from([(11, sample_item(11, 300, 2)), (12, sample_item(12, 70, 1))]) };
    run_once(&mut disk, &api, "2025-04-14T12:00:00Z");
    let state = load(&disk);
    let a = hn_scored::cycle::build_artifacts(&state, "https://hn.ysm.dev").unwrap();
    let b = hn_scored::cycle::build_artifacts(&state, "https://hn.ysm.dev").unwrap();
    assert_eq!(a.feed_files, b.feed_files);
    assert_eq!(a.state_bytes, b.state_bytes);
    assert_eq!(Some(a.state_bytes.clone()), disk.state);
    assert_eq!(a.feed_files.len(), 96);
    assert_eq!(a.feed_files[0].0, "feeds/article/0.xml");
    assert_eq!(a.feed_files[95].0, "feeds/comments/1000.json");
}

#[test]
fn fetch_plan_is_sorted_union_with_kept_stories() {
    let mut disk = Disk::default();
    let api = Api { lists: Some(vec![40]), items: BTreeMap::from([(40, sample_item(40, 10, 0))]) };
    run_once(&mut disk, &api, "2025-04-14T12:00:00Z");
    let state = load(&disk);
    let discovery = vec![
        DiscoveryResult { endpoint: "topstories", ids: Ok(vec![30, 10, 30]) },
        DiscoveryResult { endpoint: "beststories", ids: Err("down".to_string()) },
        DiscoveryResult { endpoint: "newstories", ids: Ok(vec![20]) },
    ];
    assert_eq!(hn_scored::cycle::plan_fetch(&state, &discovery), Some(vec![10, 20, 30, 40]));
    let outage = vec![DiscoveryResult { endpoint: "topstories", ids: Err("down".to_string()) }];
    assert_eq!(hn_scored::cycle::plan_fetch(&state, &outage), None);
}

#[test]
fn expired_story_does_not_reenter_feeds() {
    let mut disk = Disk::default();
    let api = Api { lists: Some(vec![21]), items: BTreeMap::from([(21, sample_item(21, 120, 3))]) };
    assert_eq!(run_once(&mut disk, &api, "2025-04-14T12:00:00Z"), 0);
    assert!(feed(&disk, "feeds/article/100.xml").contains("item?id=21"));
    assert_eq!(run_once(&mut disk, &api, "2025-04-22T12:00:00Z"), 0);
    let state = load(&disk);
    assert_eq!(state.max_scores.get(&21), Some(&120));
    assert!(state.stories.get(&21).map_or(true, |s| s.thresholds.is_empty()));
    assert!(!feed(&disk, "feeds/article/100.xml").contains("item?id=21"));
    assert!(!feed(&disk, "feeds/article/0.xml").contains("item?id=21"));
}

#[test]
fn result_arrival_order_does_not_change_outputs() {
    let discovery = vec![DiscoveryResult { endpoint: "topstories", ids: Ok(vec![3, 1, 2]) }];
    let results = |order: &[u64]| {
        order
            .iter()
            .map(|id| ItemFetchResult { id: *id, item: Ok(sample_item(*id, 50 * *id as i64, *id)) })
            .collect::<Vec<_>>()
    };
    let mut outputs = Vec::new();
    for order in [[1u64, 2, 3], [3, 2, 1], [2, 3, 1]] {
        let when = Timestamp::parse("2025-04-14T12:00:00Z").unwrap();
        let (mut cycle, _) = Cycle::start(State::empty(), when, "https://hn.ysm.dev".to_string());
        match cycle.on_discovery(&discovery) {
            Action::FetchItems(ids) => assert_eq!(ids, vec![1, 2, 3]),
            other => panic!("unexpected {other:?}"),
        }
        cycle.on_items(&results(&order));
        assert_eq!(cycle.counts.fetched, 3);
        assert_eq!(cycle.counts.created, 3);
        let artifacts = cycle.artifacts.unwrap();
        outputs.push((artifacts.state_bytes, artifacts.feed_files));
    }
    assert_eq!(outputs[0], outputs[1]);
    assert_eq!(outputs[0], outputs[2]);
}
