use hn_scored::html;
use hn_scored::time::Timestamp;

#[test]
fn landing_page_uses_state_timestamp_and_lists_thresholds() {
    let html = String::from_utf8(html::index::render(
        "https://hn.ysm.dev",
        &Timestamp::parse("2025-04-14T12:34:56Z").unwrap(),
    ))
    .unwrap();
    assert!(html.contains("Last feed change: <code>2025-04-14T12:34:56Z</code>"));
    assert!(html.find("<td>0</td>").unwrap() < html.find("<td>1000</td>").unwrap());
    assert!(html.contains("navigator.clipboard.writeText"));
}

#[test]
fn landing_page_links_every_feed_with_copy_buttons() {
    let html = String::from_utf8(html::index::render("https://hn.ysm.dev", &Timestamp::epoch())).unwrap();
    assert!(html.starts_with("<!DOCTYPE html><html lang=\"en\">"));
    assert!(html.ends_with("</body></html>"));
    assert!(html.contains(
        "<div>RSS: <code>https://hn.ysm.dev/feeds/article/50.xml</code><button type=\"button\" onclick=\"copyUrl('https://hn.ysm.dev/feeds/article/50.xml')\">Copy</button></div>"
    ));
    assert!(html.contains("<div>JSON: <code>https://hn.ysm.dev/feeds/comments/1000.json</code>"));
    assert!(html.contains("Last feed change: <code>1970-01-01T00:00:00Z</code>"));
    assert_eq!(html.matches("<tr><td>").count(), 16);
    assert_eq!(html.matches("Copy</button>").count(), 96);
    assert!(html.contains("<a href=\"https://github.com/ysm-dev/hn-scored\">GitHub</a>"));
}
