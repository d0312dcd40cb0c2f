use std::collections::BTreeMap;

use hn_scored::feed;
use hn_scored::time::Timestamp;
use hn_scored::types::{FeedFormat, LinkKind, State, Story};

#[test]
fn rss_empty_feed_uses_epoch_timestamp() {
    let view = feed::common::build_view(
        &State::empty(),
        1000,
        LinkKind::Article,
        FeedFormat::Rss,
        "https://hn.ysm.dev",
    );
    let rss = String::from_utf8(feed::rss::render(&view)).unwrap();
    assert!(
        rss.contains("Thu, 1 Jan 1970 00:00:00 +0000")
            || rss.contains("Thu, 01 Jan 1970 00:00:00 +0000")
    );
    assert!(rss.contains("<title>Hacker News - 1000+ points</title>"));
}

#[test]
fn json_feed_swaps_comment_urls() {
    let mut state = State::empty();
    state.stories.insert(1, story("", 0));
    let view = feed::common::build_view(
        &state,
        0,
        LinkKind::Comments,
        FeedFormat::Json,
        "https://hn.ysm.dev",
    );
    let json = String::from_utf8(feed::json_feed::render(&view)).unwrap();
    assert!(json.contains("\"url\": \"https://news.ycombinator.com/item?id=1\""));
    assert!(json.contains("\"external_url\": \"https://news.ycombinator.com/item?id=1\""));
}

#[test]
fn build_view_orders_by_threshold_then_id_desc() {
    let mut state = State::empty();
    state.stories.insert(10, story("https://example.com/10", 100));
    state.stories.insert(20, story("https://example.com/20", 100));
    let view = feed::common::build_view(
        &state,
        100,
        LinkKind::Article,
        FeedFormat::Rss,
        "https://hn.ysm.dev",
    );
    assert_eq!(
        view.items[0].comments_url,
        "https://news.ycombinator.com/item?id=20"
    );
    assert_eq!(
        view.items[1].comments_url,
        "https://news.ycombinator.com/item?id=10"
    );
}

#[test]
fn elapsed_suffix_appears_in_all_three_formats() {
    let mut state = State::empty();
    state.stories.insert(
        1,
        story_with_timing(1, 100, unix("2025-04-14T00:00:00Z"), "2025-04-16T03:32:00Z"),
    );
    let view = feed::common::build_view(
        &state,
        100,
        LinkKind::Article,
        FeedFormat::Rss,
        "https://hn.ysm.dev",
    );
    let rss = String::from_utf8(feed::rss::render(&view)).unwrap();
    let atom = String::from_utf8(feed::atom::render(&view)).unwrap();
    let json = String::from_utf8(feed::json_feed::render(&view)).unwrap();
    assert!(rss.contains("<title>Story (2d 3h 32m)</title>"));
    assert!(atom.contains("<title>Story (2d 3h 32m)</title>"));
    assert!(json.contains("\"title\": \"Story (2d 3h 32m)\""));
}

#[test]
fn elapsed_suffix_omits_days_when_under_one_day() {
    let mut state = State::empty();
    state.stories.insert(
        1,
        story_with_timing(1, 100, unix("2025-04-14T10:00:00Z"), "2025-04-14T13:32:00Z"),
    );
    let view = feed::common::build_view(
        &state,
        100,
        LinkKind::Article,
        FeedFormat::Rss,
        "https://hn.ysm.dev",
    );
    let rss = String::from_utf8(feed::rss::render(&view)).unwrap();
    assert!(rss.contains("<title>Story (3h 32m)</title>"));
}

#[test]
fn elapsed_suffix_shows_minutes_only_under_one_hour() {
    let mut state = State::empty();
    state.stories.insert(
        1,
        story_with_timing(1, 100, unix("2025-04-14T10:00:00Z"), "2025-04-14T10:32:00Z"),
    );
    let view = feed::common::build_view(
        &state,
        100,
        LinkKind::Article,
        FeedFormat::Rss,
        "https://hn.ysm.dev",
    );
    let rss = String::from_utf8(feed::rss::render(&view)).unwrap();
    assert!(rss.contains("<title>Story (32m)</title>"));
}

#[test]
fn elapsed_suffix_at_exactly_one_day_omits_hours_keeps_minutes() {
    let mut state = State::empty();
    state.stories.insert(
        1,
        story_with_timing(1, 100, unix("2025-04-14T00:00:00Z"), "2025-04-15T00:00:00Z"),
    );
    let view = feed::common::build_view(
        &state,
        100,
        LinkKind::Article,
        FeedFormat::Rss,
        "https://hn.ysm.dev",
    );
    let rss = String::from_utf8(feed::rss::render(&view)).unwrap();
    assert!(rss.contains("<title>Story (1d 0m)</title>"));
}

#[test]
fn elapsed_suffix_at_exactly_one_hour_shows_zero_minutes() {
    let mut state = State::empty();
    state.stories.insert(
        1,
        story_with_timing(1, 100, unix("2025-04-14T10:00:00Z"), "2025-04-14T11:00:00Z"),
    );
    let view = feed::common::build_view(
        &state,
        100,
        LinkKind::Article,
        FeedFormat::Rss,
        "https://hn.ysm.dev",
    );
    let rss = String::from_utf8(feed::rss::render(&view)).unwrap();
    assert!(rss.contains("<title>Story (1h 0m)</title>"));
}

#[test]
fn threshold_zero_feed_has_no_elapsed_suffix() {
    let mut state = State::empty();
    state.stories.insert(
        1,
        story_with_timing(1, 0, unix("2025-04-14T00:00:00Z"), "2025-04-16T03:32:00Z"),
    );
    let view = feed::common::build_view(
        &state,
        0,
        LinkKind::Article,
        FeedFormat::Rss,
        "https://hn.ysm.dev",
    );
    let rss = String::from_utf8(feed::rss::render(&view)).unwrap();
    assert!(rss.contains("<title>Story</title>"));
    assert!(!rss.contains("<title>Story ("));
}

#[test]
fn missing_story_time_falls_back_to_plain_title() {
    let mut state = State::empty();
    state
        .stories
        .insert(1, story_with_timing(1, 100, 0, "2025-04-16T03:32:00Z"));
    let view = feed::common::build_view(
        &state,
        100,
        LinkKind::Article,
        FeedFormat::Rss,
        "https://hn.ysm.dev",
    );
    let rss = String::from_utf8(feed::rss::render(&view)).unwrap();
    assert!(rss.contains("<title>Story</title>"));
    assert!(!rss.contains("<title>Story ("));
}

#[test]
fn feed_paths_titles_and_types() {
    assert_eq!(
        feed::common::feed_path(LinkKind::Article, FeedFormat::Rss, 0),
        "feeds/article/0.xml"
    );
    assert_eq!(
        feed::common::feed_path(LinkKind::Comments, FeedFormat::Atom, 150),
        "feeds/comments/150.atom"
    );
    assert_eq!(
        feed::common::feed_path(LinkKind::Article, FeedFormat::Json, 1000),
        "feeds/article/1000.json"
    );
    assert_eq!(feed::common::mime_type(FeedFormat::Rss), "application/rss+xml");
    assert_eq!(feed::common::mime_type(FeedFormat::Atom), "application/atom+xml");
    assert_eq!(feed::common::mime_type(FeedFormat::Json), "application/feed+json");
    assert_eq!(feed::common::site_url(), "https://news.ycombinator.com");
    let headers = feed::common::headers_content();
    assert!(headers.starts_with("/feeds/article/*.xml\n  Content-Type: application/rss+xml; charset=utf-8\n"));
    assert!(headers.ends_with("/index.html\n  Cache-Control: public, max-age=60\n"));
}

#[test]
fn all_stories_feed_titles_and_description() {
    let view = feed::common::build_view(
        &State::empty(),
        0,
        LinkKind::Comments,
        FeedFormat::Atom,
        "https://hn.ysm.dev",
    );
    assert_eq!(view.title, "Hacker News - All Stories (comments)");
    assert_eq!(view.description, "All Hacker News stories (links to comments)");
    assert_eq!(view.self_url, "https://hn.ysm.dev/feeds/comments/0.atom");
    let view = feed::common::build_view(
        &State::empty(),
        250,
        LinkKind::Article,
        FeedFormat::Rss,
        "https://hn.ysm.dev",
    );
    assert_eq!(view.title, "Hacker News - 250+ points");
    assert_eq!(view.description, "Hacker News stories with 250 or more points");
}

#[test]
fn empty_json_feed_is_exact() {
    let view = feed::common::build_view(
        &State::empty(),
        50,
        LinkKind::Article,
        FeedFormat::Json,
        "https://hn.ysm.dev",
    );
    let json = String::from_utf8(feed::json_feed::render(&view)).unwrap();
    assert_eq!(
        json,
        "{\n  \"version\": \"https://jsonfeed.org/version/1.1\",\n  \"title\": \"Hacker News - 50+ points\",\n  \"home_page_url\": \"https://news.ycombinator.com\",\n  \"feed_url\": \"https://hn.ysm.dev/feeds/article/50.json\",\n  \"description\": \"Hacker News stories with 50 or more points\",\n  \"items\": []\n}\n"
    );
}

#[test]
fn json_feed_item_has_author_and_dates() {
    let mut state = State::empty();
    state.stories.insert(10, story("https://example.com/10", 100));
    let view = feed::common::build_view(
        &state,
        100,
        LinkKind::Article,
        FeedFormat::Json,
        "https://hn.ysm.dev",
    );
    let json = String::from_utf8(feed::json_feed::render(&view)).unwrap();
    assert!(json.contains("      \"authors\": [\n        {\n          \"name\": \"alice\"\n        }\n      ]\n"));
    assert!(json.contains("\"date_published\": \"2025-04-14T10:00:00Z\""));
    assert!(json.contains("\"url\": \"https://example.com/10\""));
    let value: serde_json::Value = serde_json::from_slice(&feed::json_feed::render(&view)).unwrap();
    assert_eq!(value["items"][0]["id"], "https://news.ycombinator.com/item?id=10");
}

#[test]
fn atom_and_rss_escape_markup_in_titles() {
    let mut state = State::empty();
    let mut s = story("https://example.com/7", 100);
    s.title = "A <b> & \"q\"".to_string();
    state.stories.insert(7, s);
    let view = feed::common::build_view(
        &state,
        100,
        LinkKind::Article,
        FeedFormat::Rss,
        "https://hn.ysm.dev",
    );
    let rss = String::from_utf8(feed::rss::render(&view)).unwrap();
    assert!(rss.contains("A &lt;b&gt; &amp; &quot;q&quot;"));
    let atom = String::from_utf8(feed::atom::render(&view)).unwrap();
    assert!(atom.contains("A &lt;b&gt; &amp; &quot;q&quot;"));
    assert!(!atom.contains("<b>"));
}

fn unix(iso: &str) -> i64 {
    Timestamp::parse(iso).unwrap().unix_seconds()
}

fn story_with_timing(id: u64, threshold: u16, story_time: i64, crossed_at: &str) -> Story {
    let crossed = Timestamp::parse(crossed_at).unwrap();
    Story {
        id,
        title: "Story".to_string(),
        url: String::new(),
        hn_url: format!("https://news.ycombinator.com/item?id={id}"),
        score: 120,
        max_score: 120,
        comments: 3,
        by: "alice".to_string(),
        first_seen: crossed,
        story_time,
        last_output_change_at: crossed,
        thresholds: BTreeMap::from([(threshold, crossed)]),
    }
}

fn story(url: &str, threshold: u16) -> Story {
    let id: u64 = if url.is_empty() {
        1
    } else {
        url.rsplit('/').next().unwrap().parse().unwrap()
    };
    Story {
        id,
        title: "Story".to_string(),
        url: url.to_string(),
        hn_url: format!("https://news.ycombinator.com/item?id={id}"),
        score: 120,
        max_score: 120,
        comments: 3,
        by: "alice".to_string(),
        first_seen: Timestamp::parse("2025-04-14T10:00:00Z").unwrap(),
        story_time: 1_700_000_000,
        last_output_change_at: Timestamp::parse("2025-04-14T11:00:00Z").unwrap(),
        thresholds: BTreeMap::from([(
            threshold,
            Timestamp::parse("2025-04-14T10:00:00Z").unwrap(),
        )]),
    }
}

#[test]
fn every_feed_path_is_distinct() {
    let mut paths = std::collections::BTreeSet::new();
    for threshold in hn_scored::config::THRESHOLDS {
        for kind in [LinkKind::Article, LinkKind::Comments] {
            for format in [FeedFormat::Rss, FeedFormat::Atom, FeedFormat::Json] {
                paths.insert(feed::common::feed_path(kind, format, threshold));
            }
        }
    }
    assert_eq!(paths.len(), 96);
}

#[test]
fn json_strings_are_escaped() {
    let mut state = State::empty();
    let mut s = story("https://example.com/3", 0);
    s.title = "say \"hi\"\\\n\u{1}".to_string();
    state.stories.insert(3, s);
    let view = feed::common::build_view(
        &state,
        0,
        LinkKind::Article,
        FeedFormat::Json,
        "https://hn.ysm.dev",
    );
    let json = String::from_utf8(feed::json_feed::render(&view)).unwrap();
    assert!(json.contains("\"title\": \"say \\\"hi\\\"\\\\\\n\\u0001\""));
}

#[test]
fn negative_story_time_still_gets_elapsed_suffix() {
    let mut state = State::empty();
    state.stories.insert(
        1,
        story_with_timing(1, 100, -3600, "1970-01-01T01:00:00Z"),
    );
    let view = feed::common::build_view(
        &state,
        100,
        LinkKind::Article,
        FeedFormat::Rss,
        "https://hn.ysm.dev",
    );
    assert_eq!(view.items[0].title, "Story (2h 0m)");
}
