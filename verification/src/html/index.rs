use vstd::prelude::*;

use crate::config::{threshold_list, REPOSITORY_URL, THRESHOLDS};
use crate::feed::common::{feed_path, feed_path_text};
use crate::text::{
    decimal,
    has_part,
    lemma_has_part_extend,
    lemma_has_part_head,
    lemma_has_part_tail1,
    lemma_has_part_tail3,
    lemma_has_part_transitive,
    write_decimal,
};
use crate::time::{iso8601_text, Timestamp};
use crate::types::{FeedFormat, LinkKind};

verus! {

/// The page up to the table: head, style and header.
pub const PAGE_HEAD: &'static str = "<!DOCTYPE html><html lang=\"en\"><head><meta charset=\"utf-8\"><meta name=\"viewport\" content=\"width=device-width, initial-scale=1\"><title>hn-scored</title><style>body{margin:0;background:#f6f6ef;color:#222;font:14px/1.4 SFMono-Regular,Menlo,Consolas,monospace}header{background:#ff6600;padding:10px 14px;font-weight:700}main{padding:14px}table{width:100%;border-collapse:collapse}th,td{padding:8px;vertical-align:top;border-bottom:1px solid #e5d7b5;text-align:left}code{word-break:break-all}button{margin-left:6px}footer{margin-top:16px;font-size:13px}</style></head><body><header>hn-scored</header><main><p>Hacker News stories filtered by score. Pick a threshold and subscribe.</p><table><thead><tr><th>Threshold</th><th>Article</th><th>Comments</th></tr></thead><tbody>";

/// The end of the page after the footer.
pub const PAGE_TAIL: &'static str = "</main><script>function copyUrl(url){navigator.clipboard.writeText(url)}</script></body></html>";

pub open spec fn label_text(format: FeedFormat) -> Seq<char> {
    match format {
        FeedFormat::Rss => "RSS"@,
        FeedFormat::Atom => "Atom"@,
        FeedFormat::Json => "JSON"@,
    }
}

/// One feed's line: its label, its URL and a button that copies the URL.
pub open spec fn link_text(base_url: Seq<char>, threshold: u16, kind: LinkKind, format: FeedFormat) -> Seq<char> {
    let url = base_url + "/"@ + feed_path_text(kind, format, threshold);
    "<div>"@ + label_text(format) + ": <code>"@ + url
        + "</code><button type=\"button\" onclick=\"copyUrl('"@ + url + "')\">Copy</button></div>"@
}

pub open spec fn link_group_text(base_url: Seq<char>, threshold: u16, kind: LinkKind) -> Seq<char> {
    link_text(base_url, threshold, kind, FeedFormat::Rss) + link_text(
        base_url,
        threshold,
        kind,
        FeedFormat::Atom,
    ) + link_text(base_url, threshold, kind, FeedFormat::Json)
}

#[verifier::opaque]
pub open spec fn row_text(base_url: Seq<char>, threshold: u16) -> Seq<char> {
    "<tr><td>"@ + decimal(threshold as nat) + "</td><td>"@ + link_group_text(
        base_url,
        threshold,
        LinkKind::Article,
    ) + "</td><td>"@ + link_group_text(base_url, threshold, LinkKind::Comments)
        + "</td></tr>"@
}

/// The rows of the given thresholds, one per line.
pub open spec fn rows_text(base_url: Seq<char>, thresholds: Seq<u16>) -> Seq<char>
    decreases thresholds.len(),
{
    if thresholds.len() == 0 {
        Seq::empty()
    } else if thresholds.len() == 1 {
        row_text(base_url, thresholds[0])
    } else {
        rows_text(base_url, thresholds.drop_last()) + "\n"@ + row_text(base_url, thresholds.last())
    }
}

/// The landing page: one row per threshold with the URLs of its six feeds,
/// and the time of the last feed change.
pub open spec fn index_text(base_url: Seq<char>, last_change: Timestamp) -> Seq<char> {
    PAGE_HEAD@ + rows_text(base_url, threshold_list()) + "</tbody></table>"@
        + "<footer>Last feed change: <code>"@ + iso8601_text(last_change.seconds())
        + "</code> | <a href=\""@ + REPOSITORY_URL@ + "\">GitHub</a></footer>"@ + PAGE_TAIL@
}

fn label(format: FeedFormat) -> (r: &'static str)
    ensures
        r@ == label_text(format),
{
    match format {
        FeedFormat::Rss => "RSS",
        FeedFormat::Atom => "Atom",
        FeedFormat::Json => "JSON",
    }
}

fn append_link(out: &mut String, base_url: &str, threshold: u16, kind: LinkKind, format: FeedFormat)
    ensures
        final(out)@ == old(out)@ + link_text(base_url@, threshold, kind, format),
{
    let mut url = String::from_str(base_url);
    url.append("/");
    let path = feed_path(kind, format, threshold);
    url.append(path.as_str());
    out.append("<div>");
    out.append(label(format));
    out.append(": <code>");
    out.append(url.as_str());
    out.append("</code><button type=\"button\" onclick=\"copyUrl('");
    out.append(url.as_str());
    out.append("')\">Copy</button></div>");
    assert(final(out)@ =~= old(out)@ + link_text(base_url@, threshold, kind, format)) by {
        assert(url@ =~= base_url@ + "/"@ + feed_path_text(kind, format, threshold));
    }
}

fn link_group(base_url: &str, threshold: u16, kind: LinkKind) -> (r: String)
    ensures
        r@ == link_group_text(base_url@, threshold, kind),
{
    let mut r = String::new();
    append_link(&mut r, base_url, threshold, kind, FeedFormat::Rss);
    append_link(&mut r, base_url, threshold, kind, FeedFormat::Atom);
    append_link(&mut r, base_url, threshold, kind, FeedFormat::Json);
    assert(r@ =~= link_group_text(base_url@, threshold, kind));
    r
}

fn row(base_url: &str, threshold: u16) -> (r: String)
    ensures
        r@ == row_text(base_url@, threshold),
{
    let mut r = String::from_str("<tr><td>");
    write_decimal(&mut r, threshold as u64);
    r.append("</td><td>");
    let article = link_group(base_url, threshold, LinkKind::Article);
    r.append(article.as_str());
    r.append("</td><td>");
    let comments = link_group(base_url, threshold, LinkKind::Comments);
    r.append(comments.as_str());
    r.append("</td></tr>");
    reveal(row_text);
    assert(r@ =~= row_text(base_url@, threshold));
    r
}

proof fn lemma_rows_step(base_url: Seq<char>, ts: Seq<u16>, i: int)
    requires
        0 <= i < ts.len(),
    ensures
        rows_text(base_url, ts.take(i + 1)) == if i == 0 {
            row_text(base_url, ts[0])
        } else {
            rows_text(base_url, ts.take(i)) + "\n"@ + row_text(base_url, ts[i])
        },
{
    let t = ts.take(i + 1);
    assert(t.drop_last() =~= ts.take(i));
    assert(t.last() == ts[i]);
    if i == 0 {
        assert(t[0] == ts[0]);
    }
}

/// Renders the landing page in UTF-8.
pub fn render(base_url: &str, last_change: &Timestamp) -> (r: Vec<u8>)
    ensures
        r@ == vstd::utf8::encode_utf8(index_text(base_url@, *last_change)),
{
    let mut page = String::from_str(PAGE_HEAD);
    let ghost start = page@;
    let ghost ts = THRESHOLDS@;
    assert(ts.take(0) =~= Seq::<u16>::empty());
    let mut i: usize = 0;
    while i < THRESHOLDS.len()
        invariant
            0 <= i <= ts.len(),
            ts == THRESHOLDS@,
            page@ == start + rows_text(base_url@, ts.take(i as int)),
        decreases ts.len() - i,
    {
        let ghost before = page@;
        if i > 0 {
            page.append("\n");
        }
        let r = row(base_url, THRESHOLDS[i]);
        page.append(r.as_str());
        proof {
            lemma_rows_step(base_url@, ts, i as int);
            if i == 0 {
                assert(page@ =~= start + rows_text(base_url@, ts.take(i + 1)));
            } else {
                assert(page@ =~= start + rows_text(base_url@, ts.take(i + 1)));
            }
        }
        i = i + 1;
    }
    assert(ts.take(ts.len() as int) =~= ts);
    assert(ts == threshold_list());
    page.append("</tbody></table>");
    page.append("<footer>Last feed change: <code>");
    let when = last_change.iso8601();
    page.append(when.as_str());
    page.append("</code> | <a href=\"");
    page.append(REPOSITORY_URL);
    page.append("\">GitHub</a></footer>");
    page.append(PAGE_TAIL);
    assert(page@ =~= index_text(base_url@, *last_change));
    page.as_str().as_bytes_vec()
}

/// Law: a feed's line shows the feed's URL (the base URL, `/`, and the
/// feed's path) and copies that URL.
pub proof fn law_link_shows_feed_url(base_url: Seq<char>, threshold: u16, kind: LinkKind, format: FeedFormat)
    ensures
        has_part(
            link_text(base_url, threshold, kind, format),
            ": <code>"@ + (base_url + "/"@ + feed_path_text(kind, format, threshold))
                + "</code><button type=\"button\" onclick=\"copyUrl('"@,
        ),
        has_part(
            link_text(base_url, threshold, kind, format),
            (base_url + "/"@ + feed_path_text(kind, format, threshold)) + "')\">Copy</button></div>"@,
        ),
{
    broadcast use lemma_has_part_extend;

    let url = base_url + "/"@ + feed_path_text(kind, format, threshold);
    let p = "<div>"@ + label_text(format);
    lemma_has_part_tail3(p, ": <code>"@, url, "</code><button type=\"button\" onclick=\"copyUrl('"@);
    lemma_has_part_tail1(
        p + ": <code>"@ + url + "</code><button type=\"button\" onclick=\"copyUrl('"@ + url,
        "')\">Copy</button></div>"@,
    );
    assert(link_text(base_url, threshold, kind, format) =~= p + ": <code>"@ + url
        + "</code><button type=\"button\" onclick=\"copyUrl('"@ + url + "')\">Copy</button></div>"@);
    let q = p + ": <code>"@ + url + "</code><button type=\"button\" onclick=\"copyUrl('"@;
    lemma_has_part_tail1(q, url + "')\">Copy</button></div>"@);
    assert(link_text(base_url, threshold, kind, format) =~= q + (url + "')\">Copy</button></div>"@));
}

/// Law: the links of a threshold and link kind cover all three formats,
/// each for that link kind.
pub proof fn law_link_group_covers_every_format(
    base_url: Seq<char>,
    threshold: u16,
    kind: LinkKind,
    format: FeedFormat,
)
    ensures
        has_part(link_group_text(base_url, threshold, kind), link_text(base_url, threshold, kind, format)),
{
    broadcast use lemma_has_part_extend;

    let r = link_text(base_url, threshold, kind, FeedFormat::Rss);
    let a = link_text(base_url, threshold, kind, FeedFormat::Atom);
    let j = link_text(base_url, threshold, kind, FeedFormat::Json);
    lemma_has_part_head(r, a);
    lemma_has_part_tail1(r, a);
    lemma_has_part_tail1(r + a, j);
    match format {
        FeedFormat::Rss => assert(has_part(r + a + j, r)),
        FeedFormat::Atom => assert(has_part(r + a + j, a)),
        FeedFormat::Json => {},
    }
}

/// Law: a threshold's row shows the threshold, then the article links,
/// then the comments links.
pub proof fn law_row_columns(base_url: Seq<char>, threshold: u16)
    ensures
        has_part(
            row_text(base_url, threshold),
            "<tr><td>"@ + decimal(threshold as nat) + "</td><td>"@ + link_group_text(
                base_url,
                threshold,
                LinkKind::Article,
            ) + "</td><td>"@,
        ),
        has_part(
            row_text(base_url, threshold),
            "</td><td>"@ + link_group_text(base_url, threshold, LinkKind::Comments) + "</td></tr>"@,
        ),
{
    broadcast use lemma_has_part_extend;

    reveal(row_text);
    let head = "<tr><td>"@ + decimal(threshold as nat) + "</td><td>"@ + link_group_text(
        base_url,
        threshold,
        LinkKind::Article,
    ) + "</td><td>"@;
    lemma_has_part_head(head, link_group_text(base_url, threshold, LinkKind::Comments));
    lemma_has_part_tail3(
        "<tr><td>"@ + decimal(threshold as nat) + "</td><td>"@ + link_group_text(
            base_url,
            threshold,
            LinkKind::Article,
        ),
        "</td><td>"@,
        link_group_text(base_url, threshold, LinkKind::Comments),
        "</td></tr>"@,
    );
    assert(head + link_group_text(base_url, threshold, LinkKind::Comments) + "</td></tr>"@
        =~= row_text(base_url, threshold));
    assert(has_part(
        head + link_group_text(base_url, threshold, LinkKind::Comments) + "</td></tr>"@,
        head,
    ));
}

proof fn lemma_rows_hold_row(base_url: Seq<char>, ts: Seq<u16>, i: int)
    requires
        0 <= i < ts.len(),
    ensures
        has_part(rows_text(base_url, ts), row_text(base_url, ts[i])),
    decreases ts.len(),
{
    broadcast use lemma_has_part_extend;

    if ts.len() == 1 {
        assert(Seq::empty() + row_text(base_url, ts[0]) + Seq::empty() =~= row_text(base_url, ts[0]));
    } else if i == ts.len() - 1 {
        lemma_has_part_tail1(rows_text(base_url, ts.drop_last()) + "\n"@, row_text(base_url, ts.last()));
    } else {
        lemma_rows_hold_row(base_url, ts.drop_last(), i);
        assert(ts.drop_last()[i] == ts[i]);
        let rest = rows_text(base_url, ts.drop_last());
        lemma_has_part_head(rest, "\n"@);
        assert(has_part(rest + "\n"@ + row_text(base_url, ts.last()), rest));
        lemma_has_part_transitive(rows_text(base_url, ts), rest, row_text(base_url, ts[i]));
    }
}

/// Law: the landing page shows, for every threshold, link kind and
/// format, the line of that feed, so all 96 feed URLs are on it.
pub proof fn law_index_links_every_feed(
    base_url: Seq<char>,
    last_change: Timestamp,
    i: int,
    kind: LinkKind,
    format: FeedFormat,
)
    requires
        0 <= i < threshold_list().len(),
    ensures
        has_part(index_text(base_url, last_change), row_text(base_url, threshold_list()[i])),
        has_part(
            index_text(base_url, last_change),
            link_text(base_url, threshold_list()[i], kind, format),
        ),
{
    broadcast use lemma_has_part_extend;

    let t = threshold_list()[i];
    let rows = rows_text(base_url, threshold_list());
    lemma_rows_hold_row(base_url, threshold_list(), i);
    lemma_has_part_tail1(PAGE_HEAD@, rows);
    assert(has_part(index_text(base_url, last_change), rows));
    lemma_has_part_transitive(index_text(base_url, last_change), rows, row_text(base_url, t));
    law_row_columns(base_url, t);
    law_link_group_covers_every_format(base_url, t, kind, format);
    let group = link_group_text(base_url, t, kind);
    let row = row_text(base_url, t);
    match kind {
        LinkKind::Article => {
            let part = "<tr><td>"@ + decimal(t as nat) + "</td><td>"@ + group + "</td><td>"@;
            lemma_has_part_tail1("<tr><td>"@ + decimal(t as nat) + "</td><td>"@, group);
            assert(has_part(part, group));
            lemma_has_part_transitive(row, part, group);
        },
        LinkKind::Comments => {
            let part = "</td><td>"@ + group + "</td></tr>"@;
            lemma_has_part_tail1("</td><td>"@, group);
            assert(has_part(part, group));
            lemma_has_part_transitive(row, part, group);
        },
    }
    lemma_has_part_transitive(index_text(base_url, last_change), row, group);
    lemma_has_part_transitive(
        index_text(base_url, last_change),
        group,
        link_text(base_url, t, kind, format),
    );
}

} // verus!
