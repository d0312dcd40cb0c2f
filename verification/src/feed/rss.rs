use vstd::prelude::*;

use crate::feed::common::{mime_type, site_url, FeedItemModel, FeedItemView, FeedModel, FeedView};
use crate::text::{
    has_part,
    lemma_has_part_extend,
    lemma_has_part_split,
    lemma_has_part_tail3,
    lemma_has_part_transitive,
};
use crate::time::rfc2822_text;
use crate::types::FeedFormat;
use crate::util::{xml_escape, xml_escaped};

verus! {

pub open spec fn rss_item_text(item: FeedItemModel) -> Seq<char> {
    "    <item>\n"@ + "      <title>"@ + xml_escaped(item.title) + "</title>\n"@ + "      <link>"@
        + xml_escaped(item.link_url) + "</link>\n"@ + "      <guid isPermaLink=\"false\">"@
        + xml_escaped(item.comments_url) + "</guid>\n"@ + "      <pubDate>"@ + rfc2822_text(
        item.published.seconds(),
    ) + "</pubDate>\n"@ + "      <description>"@ + xml_escaped(item.summary)
        + "</description>\n"@ + "      <comments>"@ + xml_escaped(item.comments_url)
        + "</comments>\n"@ + "    </item>\n"@
}

pub open spec fn rss_items_text(items: Seq<FeedItemModel>) -> Seq<char>
    decreases items.len(),
{
    if items.len() == 0 {
        Seq::empty()
    } else {
        rss_items_text(items.drop_last()) + rss_item_text(items.last())
    }
}

pub open spec fn rss_head_text(view: FeedModel) -> Seq<char> {
    "<?xml version=\"1.0\" encoding=\"UTF-8\"?>\n<rss version=\"2.0\" xmlns:atom=\"http://www.w3.org/2005/Atom\">\n  <channel>\n"@
        + "    <title>"@ + xml_escaped(view.title) + "</title>\n"@ + "    <link>"@
        + "https://news.ycombinator.com"@ + "</link>\n"@ + "    <description>"@ + xml_escaped(
        view.description,
    ) + "</description>\n"@ + "    <lastBuildDate>"@ + rfc2822_text(view.updated.seconds())
        + "</lastBuildDate>\n"@ + "    <ttl>1</ttl>\n    <generator>hn-scored</generator>\n"@
        + "    <atom:link href=\""@ + xml_escaped(view.self_url) + "\" rel=\"self\" type=\""@
        + "application/rss+xml"@ + "\"/>\n"@
}

/// The RSS 2.0 document of a feed.
pub open spec fn rss_text(view: FeedModel) -> Seq<char> {
    rss_head_text(view) + rss_items_text(view.items) + "  </channel>\n</rss>\n"@
}

fn append_escaped(out: &mut String, value: &String)
    ensures
        final(out)@ == old(out)@ + xml_escaped(value@),
{
    let e = xml_escape(value.as_str());
    out.append(e.as_str());
}

fn write_item(xml: &mut String, item: &FeedItemView)
    ensures
        final(xml)@ == old(xml)@ + rss_item_text(item@),
{
    xml.append("    <item>\n");
    xml.append("      <title>");
    append_escaped(xml, &item.title);
    xml.append("</title>\n");
    xml.append("      <link>");
    append_escaped(xml, &item.link_url);
    xml.append("</link>\n");
    xml.append("      <guid isPermaLink=\"false\">");
    append_escaped(xml, &item.comments_url);
    xml.append("</guid>\n");
    xml.append("      <pubDate>");
    let date = item.published.rfc2822();
    xml.append(date.as_str());
    xml.append("</pubDate>\n");
    xml.append("      <description>");
    append_escaped(xml, &item.summary);
    xml.append("</description>\n");
    xml.append("      <comments>");
    append_escaped(xml, &item.comments_url);
    xml.append("</comments>\n");
    xml.append("    </item>\n");
    assert(final(xml)@ =~= old(xml)@ + rss_item_text(item@));
}

/// Renders the feed as an RSS 2.0 document in UTF-8.
pub fn render(view: &FeedView) -> (r: Vec<u8>)
    ensures
        r@ == vstd::utf8::encode_utf8(rss_text(view@)),
{
    let mut xml = String::from_str(
        "<?xml version=\"1.0\" encoding=\"UTF-8\"?>\n<rss version=\"2.0\" xmlns:atom=\"http://www.w3.org/2005/Atom\">\n  <channel>\n",
    );
    xml.append("    <title>");
    append_escaped(&mut xml, &view.title);
    xml.append("</title>\n");
    xml.append("    <link>");
    xml.append(site_url());
    xml.append("</link>\n");
    xml.append("    <description>");
    append_escaped(&mut xml, &view.description);
    xml.append("</description>\n");
    xml.append("    <lastBuildDate>");
    let built = view.updated.rfc2822();
    xml.append(built.as_str());
    xml.append("</lastBuildDate>\n");
    xml.append("    <ttl>1</ttl>\n    <generator>hn-scored</generator>\n");
    xml.append("    <atom:link href=\"");
    append_escaped(&mut xml, &view.self_url);
    xml.append("\" rel=\"self\" type=\"");
    xml.append(mime_type(FeedFormat::Rss));
    xml.append("\"/>\n");
    assert(xml@ =~= rss_head_text(view@));
    let ghost items = view@.items;
    let mut i: usize = 0;
    while i < view.items.len()
        invariant
            0 <= i <= view.items@.len(),
            items == view@.items,
            items.len() == view.items@.len(),
            xml@ == rss_head_text(view@) + rss_items_text(items.take(i as int)),
        decreases view.items.len() - i,
    {
        write_item(&mut xml, &view.items[i]);
        proof {
            assert(items.take(i + 1).drop_last() =~= items.take(i as int));
            assert(items[i as int] == view.items@[i as int]@);
        }
        i = i + 1;
    }
    assert(items.take(items.len() as int) =~= items);
    xml.append("  </channel>\n</rss>\n");
    assert(xml@ =~= rss_text(view@));
    xml.as_str().as_bytes_vec()
}

/// Law: an RSS item links to the item's link URL, identifies itself and
/// its comments by the item's comments URL, and is dated at the item's
/// publication.
pub proof fn law_rss_item_fields(item: FeedItemModel)
    ensures
        ({
            let text = rss_item_text(item);
            let link = item.link_url;
            let page = item.comments_url;
            let crossing = item.published;
            &&& has_part(text, "      <link>"@ + xml_escaped(link) + "</link>\n"@)
            &&& has_part(text, "      <guid isPermaLink=\"false\">"@ + xml_escaped(page) + "</guid>\n"@)
            &&& has_part(text, "      <pubDate>"@ + rfc2822_text(crossing.seconds()) + "</pubDate>\n"@)
            &&& has_part(text, "      <comments>"@ + xml_escaped(page) + "</comments>\n"@)
        }),
{
    broadcast use lemma_has_part_extend;

    let p1 = "    <item>\n"@ + "      <title>"@ + xml_escaped(item.title) + "</title>\n"@;
    lemma_has_part_tail3(p1, "      <link>"@, xml_escaped(item.link_url), "</link>\n"@);
    let p2 = p1 + "      <link>"@ + xml_escaped(item.link_url) + "</link>\n"@;
    lemma_has_part_tail3(
        p2,
        "      <guid isPermaLink=\"false\">"@,
        xml_escaped(item.comments_url),
        "</guid>\n"@,
    );
    let p3 = p2 + "      <guid isPermaLink=\"false\">"@ + xml_escaped(item.comments_url)
        + "</guid>\n"@;
    lemma_has_part_tail3(p3, "      <pubDate>"@, rfc2822_text(item.published.seconds()), "</pubDate>\n"@);
    let p4 = p3 + "      <pubDate>"@ + rfc2822_text(item.published.seconds()) + "</pubDate>\n"@
        + "      <description>"@ + xml_escaped(item.summary) + "</description>\n"@;
    lemma_has_part_tail3(p4, "      <comments>"@, xml_escaped(item.comments_url), "</comments>\n"@);
}

proof fn lemma_items_hold_item(items: Seq<FeedItemModel>, i: int)
    requires
        0 <= i < items.len(),
    ensures
        has_part(rss_items_text(items), rss_item_text(items[i])),
    decreases items.len(),
{
    let rest = rss_items_text(items.drop_last());
    if i == items.len() - 1 {
        assert(rss_items_text(items) =~= rest + rss_item_text(items[i]) + Seq::empty());
        lemma_has_part_split(rest, rss_item_text(items[i]), Seq::empty());
    } else {
        lemma_items_hold_item(items.drop_last(), i);
        assert(items.drop_last()[i] == items[i]);
        let last = rss_item_text(items.last());
        assert(rss_items_text(items) =~= Seq::empty() + rest + last);
        lemma_has_part_split(Seq::empty(), rest, last);
        lemma_has_part_transitive(rss_items_text(items), rest, rss_item_text(items[i]));
    }
}

/// Law: the RSS document holds the item of every entry of the feed, in
/// which the link, guid, comments and date are those of the entry.
pub proof fn law_rss_holds_every_item(view: FeedModel, i: int)
    requires
        0 <= i < view.items.len(),
    ensures
        has_part(rss_text(view), rss_item_text(view.items[i])),
        has_part(
            rss_text(view),
            "      <link>"@ + xml_escaped(view.items[i].link_url) + "</link>\n"@,
        ),
{
    lemma_items_hold_item(view.items, i);
    let items = rss_items_text(view.items);
    lemma_has_part_split(rss_head_text(view), items, "  </channel>\n</rss>\n"@);
    lemma_has_part_transitive(rss_text(view), items, rss_item_text(view.items[i]));
    law_rss_item_fields(view.items[i]);
    lemma_has_part_transitive(
        rss_text(view),
        rss_item_text(view.items[i]),
        "      <link>"@ + xml_escaped(view.items[i].link_url) + "</link>\n"@,
    );
}

} // verus!
