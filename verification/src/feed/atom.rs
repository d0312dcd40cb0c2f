use vstd::prelude::*;

use crate::feed::common::{site_url, FeedItemModel, FeedItemView, FeedModel, FeedView};
use crate::text::{
    has_part,
    lemma_has_part_extend,
    lemma_has_part_split,
    lemma_has_part_tail3,
    lemma_has_part_transitive,
};
use crate::time::iso8601_text;
use crate::util::{xml_escape, xml_escaped};

verus! {

pub open spec fn atom_author_text(author: Seq<char>) -> Seq<char> {
    if author.len() == 0 {
        Seq::empty()
    } else {
        "    <author><name>"@ + xml_escaped(author) + "</name></author>\n"@
    }
}

pub open spec fn atom_entry_text(item: FeedItemModel) -> Seq<char> {
    "  <entry>\n"@ + "    <title>"@ + xml_escaped(item.title) + "</title>\n"@ + "    <link href=\""@
        + xml_escaped(item.link_url) + "\" rel=\"alternate\"/>\n"@ + "    <id>"@ + xml_escaped(
        item.comments_url,
    ) + "</id>\n"@ + "    <updated>"@ + iso8601_text(item.modified.seconds()) + "</updated>\n"@
        + "    <published>"@ + iso8601_text(item.published.seconds()) + "</published>\n"@
        + atom_author_text(item.author) + "    <summary>"@ + xml_escaped(item.summary)
        + "</summary>\n"@ + "  </entry>\n"@
}

pub open spec fn atom_entries_text(items: Seq<FeedItemModel>) -> Seq<char>
    decreases items.len(),
{
    if items.len() == 0 {
        Seq::empty()
    } else {
        atom_entries_text(items.drop_last()) + atom_entry_text(items.last())
    }
}

pub open spec fn atom_head_text(view: FeedModel) -> Seq<char> {
    "<?xml version=\"1.0\" encoding=\"UTF-8\"?>\n<feed xmlns=\"http://www.w3.org/2005/Atom\">\n"@
        + "  <title>"@ + xml_escaped(view.title) + "</title>\n"@ + "  <link href=\""@
        + "https://news.ycombinator.com"@ + "\" rel=\"alternate\"/>\n"@ + "  <link href=\""@
        + xml_escaped(view.self_url) + "\" rel=\"self\"/>\n"@ + "  <id>"@ + xml_escaped(
        view.self_url,
    ) + "</id>\n"@ + "  <updated>"@ + iso8601_text(view.updated.seconds()) + "</updated>\n"@
        + "  <subtitle>"@ + xml_escaped(view.description) + "</subtitle>\n"@
        + "  <generator>hn-scored</generator>\n"@
}

/// The Atom 1.0 document of a feed.
pub open spec fn atom_text(view: FeedModel) -> Seq<char> {
    atom_head_text(view) + atom_entries_text(view.items) + "</feed>\n"@
}

fn append_escaped(out: &mut String, value: &String)
    ensures
        final(out)@ == old(out)@ + xml_escaped(value@),
{
    let e = xml_escape(value.as_str());
    out.append(e.as_str());
}

fn write_entry(xml: &mut String, item: &FeedItemView)
    ensures
        final(xml)@ == old(xml)@ + atom_entry_text(item@),
{
    xml.append("  <entry>\n");
    xml.append("    <title>");
    append_escaped(xml, &item.title);
    xml.append("</title>\n");
    xml.append("    <link href=\"");
    append_escaped(xml, &item.link_url);
    xml.append("\" rel=\"alternate\"/>\n");
    xml.append("    <id>");
    append_escaped(xml, &item.comments_url);
    xml.append("</id>\n");
    xml.append("    <updated>");
    let modified = item.modified.iso8601();
    xml.append(modified.as_str());
    xml.append("</updated>\n");
    xml.append("    <published>");
    let published = item.published.iso8601();
    xml.append(published.as_str());
    xml.append("</published>\n");
    let ghost before_author = xml@;
    if item.author.unicode_len() > 0 {
        xml.append("    <author><name>");
        append_escaped(xml, &item.author);
        xml.append("</name></author>\n");
    }
    assert(xml@ =~= before_author + atom_author_text(item.author@));
    xml.append("    <summary>");
    append_escaped(xml, &item.summary);
    xml.append("</summary>\n");
    xml.append("  </entry>\n");
    assert(final(xml)@ =~= old(xml)@ + atom_entry_text(item@));
}

/// Renders the feed as an Atom 1.0 document in UTF-8.
pub fn render(view: &FeedView) -> (r: Vec<u8>)
    ensures
        r@ == vstd::utf8::encode_utf8(atom_text(view@)),
{
    let mut xml = String::from_str(
        "<?xml version=\"1.0\" encoding=\"UTF-8\"?>\n<feed xmlns=\"http://www.w3.org/2005/Atom\">\n",
    );
    xml.append("  <title>");
    append_escaped(&mut xml, &view.title);
    xml.append("</title>\n");
    xml.append("  <link href=\"");
    xml.append(site_url());
    xml.append("\" rel=\"alternate\"/>\n");
    xml.append("  <link href=\"");
    append_escaped(&mut xml, &view.self_url);
    xml.append("\" rel=\"self\"/>\n");
    xml.append("  <id>");
    append_escaped(&mut xml, &view.self_url);
    xml.append("</id>\n");
    xml.append("  <updated>");
    let updated = view.updated.iso8601();
    xml.append(updated.as_str());
    xml.append("</updated>\n");
    xml.append("  <subtitle>");
    append_escaped(&mut xml, &view.description);
    xml.append("</subtitle>\n");
    xml.append("  <generator>hn-scored</generator>\n");
    assert(xml@ =~= atom_head_text(view@));
    let ghost items = view@.items;
    let mut i: usize = 0;
    while i < view.items.len()
        invariant
            0 <= i <= view.items@.len(),
            items == view@.items,
            items.len() == view.items@.len(),
            xml@ == atom_head_text(view@) + atom_entries_text(items.take(i as int)),
        decreases view.items.len() - i,
    {
        write_entry(&mut xml, &view.items[i]);
        proof {
            assert(items.take(i + 1).drop_last() =~= items.take(i as int));
            assert(items[i as int] == view.items@[i as int]@);
        }
        i = i + 1;
    }
    assert(items.take(items.len() as int) =~= items);
    xml.append("</feed>\n");
    assert(xml@ =~= atom_text(view@));
    xml.as_str().as_bytes_vec()
}

/// Law: an Atom entry links to the item's link URL, is identified by its
/// comments URL, is updated at the item's last change and published at
/// the item's publication (the threshold crossing).
pub proof fn law_atom_entry_fields(item: FeedItemModel)
    ensures
        ({
            let entry = atom_entry_text(item);
            let crossing = item.published;
            let change = item.modified;
            &&& has_part(
                entry,
                "    <link href=\""@ + xml_escaped(item.link_url) + "\" rel=\"alternate\"/>\n"@,
            )
            &&& has_part(entry, "    <id>"@ + xml_escaped(item.comments_url) + "</id>\n"@)
            &&& has_part(entry, "    <updated>"@ + iso8601_text(change.seconds()) + "</updated>\n"@)
            &&& has_part(
                entry,
                "    <published>"@ + iso8601_text(crossing.seconds()) + "</published>\n"@,
            )
        }),
{
    broadcast use lemma_has_part_extend;

    let p1 = "  <entry>\n"@ + "    <title>"@ + xml_escaped(item.title) + "</title>\n"@;
    lemma_has_part_tail3(
        p1,
        "    <link href=\""@,
        xml_escaped(item.link_url),
        "\" rel=\"alternate\"/>\n"@,
    );
    let p2 = p1 + "    <link href=\""@ + xml_escaped(item.link_url) + "\" rel=\"alternate\"/>\n"@;
    lemma_has_part_tail3(p2, "    <id>"@, xml_escaped(item.comments_url), "</id>\n"@);
    let p3 = p2 + "    <id>"@ + xml_escaped(item.comments_url) + "</id>\n"@;
    lemma_has_part_tail3(p3, "    <updated>"@, iso8601_text(item.modified.seconds()), "</updated>\n"@);
    let p4 = p3 + "    <updated>"@ + iso8601_text(item.modified.seconds()) + "</updated>\n"@;
    lemma_has_part_tail3(
        p4,
        "    <published>"@,
        iso8601_text(item.published.seconds()),
        "</published>\n"@,
    );
}

proof fn lemma_entries_hold_entry(items: Seq<FeedItemModel>, i: int)
    requires
        0 <= i < items.len(),
    ensures
        has_part(atom_entries_text(items), atom_entry_text(items[i])),
    decreases items.len(),
{
    let rest = atom_entries_text(items.drop_last());
    if i == items.len() - 1 {
        assert(atom_entries_text(items) =~= rest + atom_entry_text(items[i]) + Seq::empty());
        lemma_has_part_split(rest, atom_entry_text(items[i]), Seq::empty());
    } else {
        lemma_entries_hold_entry(items.drop_last(), i);
        assert(items.drop_last()[i] == items[i]);
        let last = atom_entry_text(items.last());
        assert(atom_entries_text(items) =~= Seq::empty() + rest + last);
        lemma_has_part_split(Seq::empty(), rest, last);
        lemma_has_part_transitive(atom_entries_text(items), rest, atom_entry_text(items[i]));
    }
}

/// Law: the Atom document holds the entry of every item of the feed.
pub proof fn law_atom_holds_every_entry(view: FeedModel, i: int)
    requires
        0 <= i < view.items.len(),
    ensures
        has_part(atom_text(view), atom_entry_text(view.items[i])),
{
    lemma_entries_hold_entry(view.items, i);
    let entries = atom_entries_text(view.items);
    lemma_has_part_split(atom_head_text(view), entries, "</feed>\n"@);
    lemma_has_part_transitive(atom_text(view), entries, atom_entry_text(view.items[i]));
}

} // verus!
