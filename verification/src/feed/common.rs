use vstd::prelude::*;

use crate::config::HN_HOME_URL;
use crate::text::{is_digit, lemma_decimal_digits, lemma_decimal_injective, decimal, signed_decimal, write_decimal, write_signed_decimal};
use crate::time::Timestamp;
use crate::config::MAX_ITEMS_PER_FEED;
use crate::keys::ascending_keys;
use crate::types::{FeedFormat, LinkKind, State, Story, StoryModel};
use std::collections::BTreeMap;
use crate::util::{description_domain, description_domain_text};

verus! {

/// One entry of a feed, ready to render.
#[derive(Clone, Debug)]
pub struct FeedItemView {
    pub author: String,
    pub comments_url: String,
    pub external_url: String,
    pub link_url: String,
    pub modified: Timestamp,
    pub published: Timestamp,
    pub summary: String,
    pub title: String,
}

#[verifier::ext_equal]
pub struct FeedItemModel {
    pub author: Seq<char>,
    pub comments_url: Seq<char>,
    pub external_url: Seq<char>,
    pub link_url: Seq<char>,
    pub modified: Timestamp,
    pub published: Timestamp,
    pub summary: Seq<char>,
    pub title: Seq<char>,
}

impl View for FeedItemView {
    type V = FeedItemModel;

    open spec fn view(&self) -> FeedItemModel {
        FeedItemModel {
            author: self.author@,
            comments_url: self.comments_url@,
            external_url: self.external_url@,
            link_url: self.link_url@,
            modified: self.modified,
            published: self.published,
            summary: self.summary@,
            title: self.title@,
        }
    }
}

/// A whole feed, ready to render.
#[derive(Clone, Debug)]
pub struct FeedView {
    pub description: String,
    pub items: Vec<FeedItemView>,
    pub self_url: String,
    pub title: String,
    pub updated: Timestamp,
}

#[verifier::ext_equal]
pub struct FeedModel {
    pub description: Seq<char>,
    pub items: Seq<FeedItemModel>,
    pub self_url: Seq<char>,
    pub title: Seq<char>,
    pub updated: Timestamp,
}

impl View for FeedView {
    type V = FeedModel;

    open spec fn view(&self) -> FeedModel {
        FeedModel {
            description: self.description@,
            items: self.items@.map_values(|i: FeedItemView| i@),
            self_url: self.self_url@,
            title: self.title@,
            updated: self.updated,
        }
    }
}

pub open spec fn kind_dir_text(kind: LinkKind) -> Seq<char> {
    match kind {
        LinkKind::Article => "article"@,
        LinkKind::Comments => "comments"@,
    }
}

pub open spec fn extension_text(format: FeedFormat) -> Seq<char> {
    match format {
        FeedFormat::Rss => "xml"@,
        FeedFormat::Atom => "atom"@,
        FeedFormat::Json => "json"@,
    }
}

pub open spec fn mime_type_text(format: FeedFormat) -> Seq<char> {
    match format {
        FeedFormat::Rss => "application/rss+xml"@,
        FeedFormat::Atom => "application/atom+xml"@,
        FeedFormat::Json => "application/feed+json"@,
    }
}

/// `feeds/{article|comments}/{threshold}.{xml|atom|json}`.
pub open spec fn feed_path_text(kind: LinkKind, format: FeedFormat, threshold: u16) -> Seq<char> {
    "feeds/"@ + kind_dir_text(kind) + "/"@ + decimal(threshold as nat) + "."@ + extension_text(
        format,
    )
}

pub open spec fn feed_title_text(threshold: u16, kind: LinkKind) -> Seq<char> {
    if threshold == 0 {
        match kind {
            LinkKind::Article => "Hacker News - All Stories"@,
            LinkKind::Comments => "Hacker News - All Stories (comments)"@,
        }
    } else {
        match kind {
            LinkKind::Article => "Hacker News - "@ + decimal(threshold as nat) + "+ points"@,
            LinkKind::Comments => "Hacker News - "@ + decimal(threshold as nat)
                + "+ points (comments)"@,
        }
    }
}

pub open spec fn feed_description_text(threshold: u16, kind: LinkKind) -> Seq<char> {
    if threshold == 0 {
        match kind {
            LinkKind::Article => "All Hacker News stories"@,
            LinkKind::Comments => "All Hacker News stories (links to comments)"@,
        }
    } else {
        match kind {
            LinkKind::Article => "Hacker News stories with "@ + decimal(threshold as nat)
                + " or more points"@,
            LinkKind::Comments => "Hacker News stories with "@ + decimal(threshold as nat)
                + " or more points (links to comments)"@,
        }
    }
}

fn extension(format: FeedFormat) -> (r: &'static str)
    ensures
        r@ == extension_text(format),
{
    match format {
        FeedFormat::Rss => "xml",
        FeedFormat::Atom => "atom",
        FeedFormat::Json => "json",
    }
}

fn kind_dir(kind: LinkKind) -> (r: &'static str)
    ensures
        r@ == kind_dir_text(kind),
{
    match kind {
        LinkKind::Article => "article",
        LinkKind::Comments => "comments",
    }
}

/// The MIME type of a feed format.
pub fn mime_type(format: FeedFormat) -> (r: &'static str)
    ensures
        r@ == mime_type_text(format),
{
    match format {
        FeedFormat::Rss => "application/rss+xml",
        FeedFormat::Atom => "application/atom+xml",
        FeedFormat::Json => "application/feed+json",
    }
}

/// The site the feeds are about.
pub fn site_url() -> (r: &'static str)
    ensures
        r@ == "https://news.ycombinator.com"@,
{
    HN_HOME_URL
}

/// The path of a feed file below the output directory.
pub fn feed_path(kind: LinkKind, format: FeedFormat, threshold: u16) -> (r: String)
    ensures
        r@ == feed_path_text(kind, format, threshold),
{
    let mut r = String::from_str("feeds/");
    r.append(kind_dir(kind));
    r.append("/");
    write_decimal(&mut r, threshold as u64);
    r.append(".");
    r.append(extension(format));
    r
}

fn feed_title(threshold: u16, kind: LinkKind) -> (r: String)
    ensures
        r@ == feed_title_text(threshold, kind),
{
    if threshold == 0 {
        match kind {
            LinkKind::Article => String::from_str("Hacker News - All Stories"),
            LinkKind::Comments => String::from_str("Hacker News - All Stories (comments)"),
        }
    } else {
        let mut r = String::from_str("Hacker News - ");
        write_decimal(&mut r, threshold as u64);
        match kind {
            LinkKind::Article => r.append("+ points"),
            LinkKind::Comments => r.append("+ points (comments)"),
        }
        r
    }
}

fn feed_description(threshold: u16, kind: LinkKind) -> (r: String)
    ensures
        r@ == feed_description_text(threshold, kind),
{
    if threshold == 0 {
        match kind {
            LinkKind::Article => String::from_str("All Hacker News stories"),
            LinkKind::Comments => String::from_str("All Hacker News stories (links to comments)"),
        }
    } else {
        let mut r = String::from_str("Hacker News stories with ");
        write_decimal(&mut r, threshold as u64);
        match kind {
            LinkKind::Article => r.append(" or more points"),
            LinkKind::Comments => r.append(" or more points (links to comments)"),
        }
        r
    }
}

pub open spec fn headers_text() -> Seq<char> {
    "/feeds/article/*.xml\n  Content-Type: application/rss+xml; charset=utf-8\n  Cache-Control: public, max-age=60\n\n/feeds/comments/*.xml\n  Content-Type: application/rss+xml; charset=utf-8\n  Cache-Control: public, max-age=60\n\n/feeds/article/*.atom\n  Content-Type: application/atom+xml; charset=utf-8\n  Cache-Control: public, max-age=60\n\n/feeds/comments/*.atom\n  Content-Type: application/atom+xml; charset=utf-8\n  Cache-Control: public, max-age=60\n\n/feeds/article/*.json\n  Content-Type: application/feed+json; charset=utf-8\n  Cache-Control: public, max-age=60\n\n/feeds/comments/*.json\n  Content-Type: application/feed+json; charset=utf-8\n  Cache-Control: public, max-age=60\n\n/index.html\n  Cache-Control: public, max-age=60\n"@
}

/// The `_headers` file: content types and one-minute caching for every
/// feed and the landing page.
pub fn headers_content() -> (r: String)
    ensures
        r@ == headers_text(),
{
    String::from_str(
        "/feeds/article/*.xml\n  Content-Type: application/rss+xml; charset=utf-8\n  Cache-Control: public, max-age=60\n\n/feeds/comments/*.xml\n  Content-Type: application/rss+xml; charset=utf-8\n  Cache-Control: public, max-age=60\n\n/feeds/article/*.atom\n  Content-Type: application/atom+xml; charset=utf-8\n  Cache-Control: public, max-age=60\n\n/feeds/comments/*.atom\n  Content-Type: application/atom+xml; charset=utf-8\n  Cache-Control: public, max-age=60\n\n/feeds/article/*.json\n  Content-Type: application/feed+json; charset=utf-8\n  Cache-Control: public, max-age=60\n\n/feeds/comments/*.json\n  Content-Type: application/feed+json; charset=utf-8\n  Cache-Control: public, max-age=60\n\n/index.html\n  Cache-Control: public, max-age=60\n",
    )
}

/// Whole minutes from `story_time` to `published`, or 0 when `published`
/// is not later.
pub open spec fn elapsed_minutes(published: Timestamp, story_time: i64) -> int {
    let diff = published.seconds() - story_time;
    if diff <= 0 {
        0
    } else {
        diff / 60
    }
}

/// `{d}d {h}h {m}m`, without the `d` part when there are no whole days and
/// without the `h` part when there are no whole hours left.
pub open spec fn elapsed_text(total_minutes: int) -> Seq<char> {
    let days = total_minutes / 1440int;
    let hours = (total_minutes % 1440int) / 60int;
    let minutes = total_minutes % 60int;
    (if days > 0 {
        decimal(days as nat) + "d "@
    } else {
        Seq::empty()
    }) + (if hours > 0 {
        decimal(hours as nat) + "h "@
    } else {
        Seq::empty()
    }) + decimal(minutes as nat) + "m"@
}

impl Timestamp {
    /// Whole minutes from the Unix time `story_time` to this instant, or 0
    /// when this instant is not later.
    pub fn minutes_since(&self, story_time: i64) -> (r: i64)
        ensures
            r == elapsed_minutes(*self, story_time),
            r >= 0,
    {
        let diff: i128 = self.unix_seconds() as i128 - story_time as i128;
        if diff <= 0 {
            0
        } else {
            (diff / 60) as i64
        }
    }
}

/// The title with how long the story took to reach the threshold after it
/// was posted.
pub open spec fn title_with_elapsed_text(story: StoryModel, published: Timestamp) -> Seq<char> {
    story.title + " ("@ + elapsed_text(elapsed_minutes(published, story.story_time)) + ")"@
}

/// The rendered form of a story in the feed of `threshold` and `kind`,
/// for the threshold crossing time `published`.
pub open spec fn item_model(
    story: StoryModel,
    published: Timestamp,
    kind: LinkKind,
    threshold: u16,
) -> FeedItemModel {
    let article_url = if story.url.len() == 0 {
        story.hn_url
    } else {
        story.url
    };
    FeedItemModel {
        author: story.by,
        comments_url: story.hn_url,
        external_url: match kind {
            LinkKind::Article => story.hn_url,
            LinkKind::Comments => article_url,
        },
        link_url: match kind {
            LinkKind::Article => article_url,
            LinkKind::Comments => story.hn_url,
        },
        modified: story.last_output_change_at,
        published,
        summary: signed_decimal(story.score as int) + " points | "@ + decimal(story.comments as nat)
            + " comments | "@ + description_domain_text(story.url, story.id),
        title: if threshold == 0 || story.story_time == 0 {
            story.title
        } else {
            title_with_elapsed_text(story, published)
        },
    }
}

/// Appends the elapsed time from posting to the threshold crossing to the
/// title, e.g. "Title (2d 3h 32m)"; the `d` and `h` parts are left out when
/// zero, the `m` part is always there.
fn title_with_elapsed(story: &Story, published: &Timestamp) -> (r: String)
    ensures
        r@ == title_with_elapsed_text(story@, *published),
{
    let total = published.minutes_since(story.story_time);
    let days = total / 1440;
    let hours = (total % 1440) / 60;
    let minutes = total % 60;
    let mut r = story.title.clone();
    r.append(" (");
    let ghost base = r@;
    if days > 0 {
        write_decimal(&mut r, days as u64);
        r.append("d ");
    }
    if hours > 0 {
        write_decimal(&mut r, hours as u64);
        r.append("h ");
    }
    write_decimal(&mut r, minutes as u64);
    r.append("m)");
    proof {
        reveal_strlit("m)");
        reveal_strlit("m");
        reveal_strlit(")");
    }
    assert(r@ =~= title_with_elapsed_text(story@, *published));
    r
}

fn item_view(story: &Story, published: Timestamp, kind: LinkKind, threshold: u16) -> (r: FeedItemView)
    ensures
        r@ == item_model(story@, published, kind, threshold),
{
    let article_url = if story.url.unicode_len() == 0 {
        story.hn_url.clone()
    } else {
        story.url.clone()
    };
    let (link_url, external_url) = match kind {
        LinkKind::Article => (article_url, story.hn_url.clone()),
        LinkKind::Comments => (story.hn_url.clone(), article_url),
    };
    let title = if threshold == 0 || story.story_time == 0 {
        story.title.clone()
    } else {
        title_with_elapsed(story, &published)
    };
    let mut summary = String::new();
    write_signed_decimal(&mut summary, story.score);
    summary.append(" points | ");
    write_decimal(&mut summary, story.comments);
    summary.append(" comments | ");
    let domain = description_domain(story.url.as_str(), story.id);
    summary.append(domain.as_str());
    let r = FeedItemView {
        author: story.by.clone(),
        comments_url: story.hn_url.clone(),
        external_url,
        link_url,
        modified: story.last_output_change_at,
        published,
        summary,
        title,
    };
    assert(r@ =~= item_model(story@, published, kind, threshold));
    r
}

/// Feed order: the later threshold crossing first, then the higher id.
pub open spec fn ranks_before(a_secs: i64, a_id: u64, b_secs: i64, b_id: u64) -> bool {
    a_secs > b_secs || (a_secs == b_secs && a_id > b_id)
}

/// Whether the story is in the feed of `threshold`.
pub open spec fn in_feed(stories: Map<u64, StoryModel>, threshold: u16, id: u64) -> bool {
    stories.contains_key(id) && stories[id].thresholds.contains_key(threshold)
}

pub open spec fn crossed_at(stories: Map<u64, StoryModel>, threshold: u16, id: u64) -> Timestamp {
    stories[id].thresholds[threshold]
}

pub open spec fn id_before(stories: Map<u64, StoryModel>, threshold: u16, a: u64, b: u64) -> bool {
    ranks_before(
        crossed_at(stories, threshold, a).seconds(),
        a,
        crossed_at(stories, threshold, b).seconds(),
        b,
    )
}

/// The ids of a feed's entries: the first 200 of the stories in the feed,
/// in feed order (all of them when there are fewer).
pub open spec fn is_feed_selection(stories: Map<u64, StoryModel>, threshold: u16, sel: Seq<u64>) -> bool {
    &&& sel.len() <= MAX_ITEMS_PER_FEED
    &&& forall|i: int| 0 <= i < sel.len() ==> in_feed(stories, threshold, #[trigger] sel[i])
    &&& forall|i: int, j: int|
        0 <= i < j < sel.len() ==> id_before(stories, threshold, #[trigger] sel[i], #[trigger] sel[j])
    &&& forall|id: u64|
        in_feed(stories, threshold, id) && !sel.contains(id) ==> sel.len() == MAX_ITEMS_PER_FEED
            && id_before(stories, threshold, sel.last(), id)
}

pub proof fn lemma_ranks_before_transitive(a: i64, ai: u64, b: i64, bi: u64, c: i64, ci: u64)
    requires
        ranks_before(a, ai, b, bi),
        ranks_before(b, bi, c, ci),
    ensures
        ranks_before(a, ai, c, ci),
{
}

pub open spec fn entry_ids(entries: Seq<(u64, Timestamp)>) -> Seq<u64> {
    entries.map_values(|e: (u64, Timestamp)| e.0)
}

/// The feed's entries: the ids of the first 200 stories in feed order, with
/// their crossing times.
fn select_entries(stories: &BTreeMap<u64, Story>, threshold: u16) -> (r: Vec<(u64, Timestamp)>)
    ensures
        is_feed_selection(stories@.map_values(|s: Story| s@), threshold, entry_ids(r@)),
        forall|i: int| 0 <= i < r@.len() ==> #[trigger] r@[i].1 == crossed_at(
            stories@.map_values(|s: Story| s@),
            threshold,
            r@[i].0,
        ),
{
    let ghost m = stories@.map_values(|s: Story| s@);
    let ids = ascending_keys(stories);
    let mut top: Vec<(u64, Timestamp)> = Vec::new();
    let mut i: usize = 0;
    assert(m.dom() =~= stories@.dom());
    while i < ids.len()
        invariant
            0 <= i <= ids.len(),
            m == stories@.map_values(|s: Story| s@),
            m.dom() == stories@.dom(),
            ids@.to_set() == stories@.dom(),
            crate::keys::strictly_increasing(ids@),
            top@.len() <= MAX_ITEMS_PER_FEED,
            forall|a: int| 0 <= a < top@.len() ==> in_feed(m, threshold, #[trigger] top@[a].0)
                && top@[a].1 == crossed_at(m, threshold, top@[a].0)
                && ids@.take(i as int).contains(top@[a].0),
            forall|a: int, b: int|
                0 <= a < b < top@.len() ==> id_before(m, threshold, #[trigger] top@[a].0, #[trigger] top@[b].0),
            forall|id: u64|
                in_feed(m, threshold, id) && ids@.take(i as int).contains(id) && !entry_ids(top@).contains(id)
                    ==> top@.len() == MAX_ITEMS_PER_FEED && id_before(m, threshold, top@.last().0, id),
        decreases ids.len() - i,
    {
        let id = ids[i];
        assert(ids@.to_set().contains(id));
        let story = stories.get(&id).unwrap();
        assert(m[id] == story@);
        let ghost s0 = ids@.take(i as int);
        let ghost s1 = ids@.take(i + 1);
        proof {
            assert(s1 =~= s0.push(id));
            assert forall|k: u64| s1.contains(k) <==> (s0.contains(k) || k == id) by {
                if s1.contains(k) && k != id {
                    let j = choose|j: int| 0 <= j < s1.len() && #[trigger] s1[j] == k;
                    assert(s0[j] == k);
                }
                if k == id {
                    assert(s1[s0.len() as int] == k);
                }
                if s0.contains(k) {
                    let j = choose|j: int| 0 <= j < s0.len() && #[trigger] s0[j] == k;
                    assert(s1[j] == k);
                }
            }
            assert(!s0.contains(id)) by {
                if s0.contains(id) {
                    let j = choose|j: int| 0 <= j < s0.len() && #[trigger] s0[j] == id;
                    assert(ids@[j] < ids@[i as int]);
                }
            }
        }
        match story.thresholds.get(&threshold) {
            None => {
                assert(!in_feed(m, threshold, id));
            },
            Some(at) => {
                let at = *at;
                let secs = at.unix_seconds();
                assert(at == crossed_at(m, threshold, id));
                let mut pos: usize = 0;
                while pos < top.len()
                    invariant
                        0 <= pos <= top@.len(),
                        forall|a: int| 0 <= a < pos ==> !ranks_before(secs, id, #[trigger] top@[a].1.seconds(), top@[a].0),
                    ensures
                        0 <= pos <= top@.len(),
                        forall|a: int| 0 <= a < pos ==> !ranks_before(secs, id, #[trigger] top@[a].1.seconds(), top@[a].0),
                        pos < top@.len() ==> ranks_before(secs, id, top@[pos as int].1.seconds(), top@[pos as int].0),
                    decreases top.len() - pos,
                {
                    let other_secs = top[pos].1.unix_seconds();
                    let other_id = top[pos].0;
                    if secs > other_secs || (secs == other_secs && id > other_id) {
                        break;
                    }
                    pos = pos + 1;
                }
                let ghost old_top = top@;
                proof {
                    assert forall|a: int| 0 <= a < old_top.len() implies #[trigger] old_top[a].0 != id by {
                        assert(s0.contains(old_top[a].0));
                    }
                }
                if pos < top.len() {
                    top.insert(pos, (id, at));
                    proof {
                        assert forall|a: int, b: int|
                            0 <= a < b < top@.len() implies id_before(m, threshold, #[trigger] top@[a].0, #[trigger] top@[b].0) by {
                            if a < pos && b == pos {
                                assert(top@[a] == old_top[a]);
                                assert(old_top[a].0 != id);
                                assert(old_top[a].1 == crossed_at(m, threshold, old_top[a].0));
                            } else if a == pos {
                                assert(top@[b] == old_top[b - 1]);
                                assert(old_top[pos as int].1 == crossed_at(m, threshold, old_top[pos as int].0));
                                if b - 1 > pos {
                                    assert(id_before(m, threshold, old_top[pos as int].0, old_top[b - 1].0));
                                }
                            } else if a < pos && b > pos {
                                assert(top@[a] == old_top[a]);
                                assert(top@[b] == old_top[b - 1]);
                            } else if a > pos {
                                assert(top@[a] == old_top[a - 1]);
                                assert(top@[b] == old_top[b - 1]);
                            } else {
                                assert(top@[a] == old_top[a]);
                                assert(top@[b] == old_top[b]);
                            }
                        }
                    }
                    if top.len() > MAX_ITEMS_PER_FEED {
                        let ghost before_pop = top@;
                        let _ = top.pop();
                        proof {
                            assert forall|k: u64|
                                in_feed(m, threshold, k) && s1.contains(k) && !entry_ids(top@).contains(k)
                                implies top@.len() == MAX_ITEMS_PER_FEED && id_before(m, threshold, top@.last().0, k) by {
                                let last = before_pop.last();
                                if k == last.0 {
                                    assert(id_before(m, threshold, before_pop[199].0, before_pop[200].0));
                                } else {
                                    assert(!entry_ids(before_pop).contains(k)) by {
                                        if entry_ids(before_pop).contains(k) {
                                            let j = choose|j: int| 0 <= j < before_pop.len() && #[trigger] entry_ids(before_pop)[j] == k;
                                            assert(j < 200 ==> entry_ids(top@)[j] == k);
                                        }
                                    }
                                    assert(entry_ids(before_pop)[pos as int] == id);
                                    assert(k != id);
                                    assert(!entry_ids(old_top).contains(k)) by {
                                        if entry_ids(old_top).contains(k) {
                                            let j = choose|j: int| 0 <= j < old_top.len() && #[trigger] entry_ids(old_top)[j] == k;
                                            if j < pos {
                                                assert(entry_ids(before_pop)[j] == k);
                                            } else {
                                                assert(entry_ids(before_pop)[j + 1] == k);
                                            }
                                        }
                                    }
                                    assert(old_top.last() == before_pop[200]);
                                    assert(id_before(m, threshold, before_pop[199].0, before_pop[200].0));
                                }
                            }
                        }
                    } else {
                        proof {
                            assert forall|k: u64|
                                in_feed(m, threshold, k) && s1.contains(k) && !entry_ids(top@).contains(k)
                                implies top@.len() == MAX_ITEMS_PER_FEED && id_before(m, threshold, top@.last().0, k) by {
                                if k == id {
                                    assert(entry_ids(top@)[pos as int] == id);
                                } else {
                                    assert(!entry_ids(old_top).contains(k)) by {
                                        if entry_ids(old_top).contains(k) {
                                            let j = choose|j: int| 0 <= j < old_top.len() && #[trigger] entry_ids(old_top)[j] == k;
                                            if j < pos {
                                                assert(entry_ids(top@)[j] == k);
                                            } else {
                                                assert(entry_ids(top@)[j + 1] == k);
                                            }
                                        }
                                    }
                                }
                            }
                        }
                    }
                } else if top.len() < MAX_ITEMS_PER_FEED {
                    top.push((id, at));
                    proof {
                        assert forall|k: u64|
                            in_feed(m, threshold, k) && s1.contains(k) && !entry_ids(top@).contains(k)
                            implies top@.len() == MAX_ITEMS_PER_FEED && id_before(m, threshold, top@.last().0, k) by {
                            if k == id {
                                assert(entry_ids(top@)[pos as int] == id);
                            } else {
                                assert(!entry_ids(old_top).contains(k)) by {
                                    if entry_ids(old_top).contains(k) {
                                        let j = choose|j: int| 0 <= j < old_top.len() && #[trigger] entry_ids(old_top)[j] == k;
                                        assert(entry_ids(top@)[j] == k);
                                    }
                                }
                            }
                        }
                    }
                } else {
                    proof {
                        assert(!ranks_before(secs, id, old_top[199].1.seconds(), old_top[199].0));
                        assert forall|k: u64|
                            in_feed(m, threshold, k) && s1.contains(k) && !entry_ids(top@).contains(k)
                            implies top@.len() == MAX_ITEMS_PER_FEED && id_before(m, threshold, top@.last().0, k) by {
                        }
                    }
                }
            },
        }
        i = i + 1;
    }
    proof {
        assert(ids@.take(ids@.len() as int) =~= ids@);
        let sel = entry_ids(top@);
        assert forall|k: u64| in_feed(m, threshold, k) implies ids@.contains(k) by {
            assert(ids@.to_set().contains(k));
        }
        assert forall|x: int| 0 <= x < sel.len() implies in_feed(m, threshold, #[trigger] sel[x]) by {
            assert(sel[x] == top@[x].0);
        }
        assert forall|x: int, y: int| 0 <= x < y < sel.len() implies id_before(m, threshold, #[trigger] sel[x], #[trigger] sel[y]) by {
            assert(sel[x] == top@[x].0);
            assert(sel[y] == top@[y].0);
        }
    }
    top
}

/// Whether `t` is the latest change time among the items, or the epoch
/// when there are none.
pub open spec fn is_latest_modified(items: Seq<FeedItemModel>, t: Timestamp) -> bool {
    if items.len() == 0 {
        t.seconds() == 0
    } else {
        &&& exists|i: int| 0 <= i < items.len() && #[trigger] items[i].modified == t
        &&& forall|i: int| 0 <= i < items.len() ==> #[trigger] items[i].modified.seconds() <= t.seconds()
    }
}

/// The feed of the stories that crossed `threshold`: the items are the
/// rendered forms of its entries in feed order, the feed's update time is
/// their latest change time, and the self link is the feed's address
/// below the base URL.
pub open spec fn is_feed_view(
    stories: Map<u64, StoryModel>,
    threshold: u16,
    kind: LinkKind,
    format: FeedFormat,
    base_url: Seq<char>,
    view: FeedModel,
) -> bool {
    &&& exists|sel: Seq<u64>|
        #[trigger] is_feed_selection(stories, threshold, sel) && view.items == sel.map_values(
            |id: u64| item_model(stories[id], crossed_at(stories, threshold, id), kind, threshold),
        )
    &&& is_latest_modified(view.items, view.updated)
    &&& view.self_url == base_url + "/"@ + feed_path_text(kind, format, threshold)
    &&& view.title == feed_title_text(threshold, kind)
    &&& view.description == feed_description_text(threshold, kind)
}

/// Builds the feed of `threshold` for the given link kind and format.
pub fn build_view(
    state: &State,
    threshold: u16,
    kind: LinkKind,
    format: FeedFormat,
    base_url: &str,
) -> (r: FeedView)
    ensures
        is_feed_view(state@.stories, threshold, kind, format, base_url@, r@),
{
    let ghost m = state@.stories;
    let entries = select_entries(&state.stories, threshold);
    let ghost sel = entry_ids(entries@);
    let mut items: Vec<FeedItemView> = Vec::new();
    let mut updated = Timestamp::epoch();
    let mut i: usize = 0;
    while i < entries.len()
        invariant
            0 <= i <= entries@.len(),
            m == state@.stories,
            m.dom() == state.stories@.dom(),
            sel == entry_ids(entries@),
            is_feed_selection(m, threshold, sel),
            forall|j: int| 0 <= j < entries@.len() ==> #[trigger] entries@[j].1 == crossed_at(m, threshold, entries@[j].0),
            items@.len() == i,
            forall|j: int| 0 <= j < i ==> #[trigger] items@[j]@ == item_model(m[sel[j]], crossed_at(m, threshold, sel[j]), kind, threshold),
            is_latest_modified(items@.map_values(|v: FeedItemView| v@), updated),
        decreases entries.len() - i,
    {
        let (id, at) = entries[i];
        assert(sel[i as int] == id);
        assert(in_feed(m, threshold, sel[i as int]));
        let story = state.stories.get(&id).unwrap();
        assert(m[id] == story@);
        let item = item_view(story, at, kind, threshold);
        let ghost before = items@.map_values(|v: FeedItemView| v@);
        if i == 0 || item.modified.unix_seconds() > updated.unix_seconds() {
            updated = item.modified;
        }
        items.push(item);
        proof {
            let after = items@.map_values(|v: FeedItemView| v@);
            assert(after =~= before.push(item@));
            if i > 0 {
                assert(before.len() > 0);
            }
            assert(after[i as int] == item@);
            assert forall|j: int| 0 <= j < after.len() implies #[trigger] after[j].modified.seconds() <= updated.seconds() by {
                if j < i {
                    assert(after[j] == before[j]);
                }
            }
            if updated == item.modified {
                assert(after[i as int].modified == updated);
            } else {
                let w = choose|w: int| 0 <= w < before.len() && #[trigger] before[w].modified == updated;
                assert(after[w] == before[w]);
            }
        }
        i = i + 1;
    }
    let mut self_url = String::from_str(base_url);
    self_url.append("/");
    let path = feed_path(kind, format, threshold);
    self_url.append(path.as_str());
    let r = FeedView {
        description: feed_description(threshold, kind),
        items,
        self_url,
        title: feed_title(threshold, kind),
        updated,
    };
    proof {
        let mapped = sel.map_values(
            |id: u64| item_model(m[id], crossed_at(m, threshold, id), kind, threshold),
        );
        assert(r@.items =~= mapped);
        assert(is_feed_selection(m, threshold, sel));
    }
    r
}

/// Law: different feeds have different paths: the path of a feed fixes
/// its link kind, format and threshold.
pub proof fn law_feed_paths_are_distinct(
    k1: LinkKind,
    f1: FeedFormat,
    t1: u16,
    k2: LinkKind,
    f2: FeedFormat,
    t2: u16,
)
    requires
        feed_path_text(k1, f1, t1) == feed_path_text(k2, f2, t2),
    ensures
        k1 == k2,
        f1 == f2,
        t1 == t2,
{
    reveal_strlit("feeds/");
    reveal_strlit("article");
    reveal_strlit("comments");
    reveal_strlit("/");
    reveal_strlit(".");
    reveal_strlit("xml");
    reveal_strlit("atom");
    reveal_strlit("json");
    let p = feed_path_text(k1, f1, t1);
    let q = feed_path_text(k2, f2, t2);
    let kd1 = kind_dir_text(k1);
    let kd2 = kind_dir_text(k2);
    assert(p[6] == kd1[0]);
    assert(q[6] == kd2[0]);
    assert(k1 == k2);
    let start: int = 7 + kd1.len() as int;
    let d1 = decimal(t1 as nat);
    let d2 = decimal(t2 as nat);
    lemma_decimal_digits(t1 as nat);
    lemma_decimal_digits(t2 as nat);
    let e1 = extension_text(f1);
    let e2 = extension_text(f2);
    let r1 = d1 + "."@ + e1;
    let r2 = d2 + "."@ + e2;
    assert(p =~= "feeds/"@ + kd1 + "/"@ + r1);
    assert(q =~= "feeds/"@ + kd2 + "/"@ + r2);
    assert(r1 =~= p.skip(start));
    assert(r2 =~= q.skip(start));
    assert(r1 == r2);
    if d1.len() < d2.len() {
        assert(r1[d1.len() as int] == '.');
        assert(r2[d1.len() as int] == d2[d1.len() as int]);
        assert(is_digit(d2[d1.len() as int]));
    } else if d2.len() < d1.len() {
        assert(r2[d2.len() as int] == '.');
        assert(r1[d2.len() as int] == d1[d2.len() as int]);
        assert(is_digit(d1[d2.len() as int]));
    }
    assert(d1.len() == d2.len());
    assert(d1 =~= r1.take(d1.len() as int));
    assert(d2 =~= r2.take(d2.len() as int));
    lemma_decimal_injective(t1 as nat, t2 as nat);
    assert(e1 =~= r1.skip(d1.len() as int + 1));
    assert(e2 =~= r2.skip(d2.len() as int + 1));
    assert(e1 == e2);
    if f1 != f2 {
        assert(e1.len() != e2.len() || e1[0] != e2[0]);
    }
}

/// Law: a feed item's links follow the link kind. In a comments feed the
/// item links to the story's HN page and points to the article (the HN
/// page for a self-post) as its external URL; in an article feed the two
/// are the other way round. The comments URL is always the HN page, the
/// published time is the threshold crossing, and the modified time the
/// story's last change.
pub proof fn law_item_links_follow_kind(
    story: StoryModel,
    published: Timestamp,
    kind: LinkKind,
    threshold: u16,
)
    ensures
        ({
            let it = item_model(story, published, kind, threshold);
            let article = if story.url.len() == 0 {
                story.hn_url
            } else {
                story.url
            };
            &&& it.comments_url == story.hn_url
            &&& kind == LinkKind::Comments ==> it.link_url == story.hn_url && it.external_url
                == article
            &&& kind == LinkKind::Article ==> it.link_url == article && it.external_url
                == story.hn_url
            &&& it.published == published
            &&& it.modified == story.last_output_change_at
            &&& it.author == story.by
        }),
{
}

/// Law: in every feed, item `i` is the story at place `i` of the feed's
/// selection, linked by the feed's link kind, published at its crossing
/// of the threshold.
pub proof fn law_feed_items_follow_kind(
    stories: Map<u64, StoryModel>,
    threshold: u16,
    kind: LinkKind,
    format: FeedFormat,
    base_url: Seq<char>,
    view: FeedModel,
)
    requires
        is_feed_view(stories, threshold, kind, format, base_url, view),
    ensures
        exists|sel: Seq<u64>|
            #[trigger] is_feed_selection(stories, threshold, sel) && sel.len() == view.items.len()
                && forall|i: int|
                0 <= i < sel.len() ==> {
                    let s = stories[sel[i]];
                    let article = if s.url.len() == 0 {
                        s.hn_url
                    } else {
                        s.url
                    };
                    &&& (#[trigger] view.items[i]).comments_url == s.hn_url
                    &&& view.items[i].link_url == (if kind == LinkKind::Comments {
                        s.hn_url
                    } else {
                        article
                    })
                    &&& view.items[i].external_url == (if kind == LinkKind::Comments {
                        article
                    } else {
                        s.hn_url
                    })
                    &&& view.items[i].published == crossed_at(stories, threshold, sel[i])
                },
{
    let sel = choose|sel: Seq<u64>|
        #[trigger] is_feed_selection(stories, threshold, sel) && view.items == sel.map_values(
            |id: u64| item_model(stories[id], crossed_at(stories, threshold, id), kind, threshold),
        );
    assert forall|i: int| 0 <= i < sel.len() implies {
        let s = stories[sel[i]];
        let article = if s.url.len() == 0 {
            s.hn_url
        } else {
            s.url
        };
        &&& (#[trigger] view.items[i]).comments_url == s.hn_url
        &&& view.items[i].link_url == (if kind == LinkKind::Comments {
            s.hn_url
        } else {
            article
        })
        &&& view.items[i].external_url == (if kind == LinkKind::Comments {
            article
        } else {
            s.hn_url
        })
        &&& view.items[i].published == crossed_at(stories, threshold, sel[i])
    } by {
        law_item_links_follow_kind(stories[sel[i]], crossed_at(stories, threshold, sel[i]), kind, threshold);
    }
}

} // verus!
