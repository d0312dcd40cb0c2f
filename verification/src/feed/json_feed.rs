use vstd::prelude::*;

use crate::config::HN_HOME_URL;
use crate::feed::common::{FeedItemModel, FeedItemView, FeedModel, FeedView};
use crate::json::{lemma_same_json_pretty, nests_within, pretty, same_json, to_pretty_json, JsonValue};
use crate::state::store::text_member;
use crate::time::iso8601_text;

verus! {

/// The `authors` member: one author named `name`.
pub open spec fn is_authors_doc(doc: JsonValue, name: Seq<char>) -> bool {
    &&& doc is Array
    &&& doc->Array_0@.len() == 1
    &&& doc->Array_0@[0] is Object
    &&& doc->Array_0@[0]->Object_0@.len() == 1
    &&& text_member(doc->Array_0@[0]->Object_0@[0], "name"@, name)
}

/// One item of a JSON Feed 1.1 document; `authors` only where the item
/// has an author.
pub open spec fn is_json_item_doc(doc: JsonValue, item: FeedItemModel) -> bool {
    let ms = doc->Object_0@;
    &&& doc is Object
    &&& ms.len() == if item.author.len() == 0 {
        7int
    } else {
        8int
    }
    &&& text_member(ms[0], "id"@, item.comments_url)
    &&& text_member(ms[1], "title"@, item.title)
    &&& text_member(ms[2], "url"@, item.link_url)
    &&& text_member(ms[3], "external_url"@, item.external_url)
    &&& text_member(ms[4], "content_text"@, item.summary)
    &&& text_member(ms[5], "date_published"@, iso8601_text(item.published.seconds()))
    &&& text_member(ms[6], "date_modified"@, iso8601_text(item.modified.seconds()))
    &&& item.author.len() > 0 ==> ms[7].0@ == "authors"@ && is_authors_doc(ms[7].1, item.author)
}

/// A JSON Feed 1.1 document of the feed.
pub open spec fn is_json_feed_doc(doc: JsonValue, view: FeedModel) -> bool {
    let ms = doc->Object_0@;
    &&& doc is Object
    &&& ms.len() == 6
    &&& text_member(ms[0], "version"@, "https://jsonfeed.org/version/1.1"@)
    &&& text_member(ms[1], "title"@, view.title)
    &&& text_member(ms[2], "home_page_url"@, HN_HOME_URL@)
    &&& text_member(ms[3], "feed_url"@, view.self_url)
    &&& text_member(ms[4], "description"@, view.description)
    &&& ms[5].0@ == "items"@
    &&& ms[5].1 is Array
    &&& ms[5].1->Array_0@.len() == view.items.len()
    &&& forall|i: int|
        0 <= i < view.items.len() ==> is_json_item_doc(
            #[trigger] ms[5].1->Array_0@[i],
            view.items[i],
        )
}

fn text_pair(key: &str, text: String) -> (m: (String, JsonValue))
    ensures
        text_member(m, key@, text@),
{
    (String::from_str(key), JsonValue::Str(text))
}

fn item_document(item: &FeedItemView) -> (doc: JsonValue)
    ensures
        is_json_item_doc(doc, item@),
        nests_within(doc, 62),
{
    let mut ms: Vec<(String, JsonValue)> = Vec::new();
    ms.push(text_pair("id", item.comments_url.clone()));
    ms.push(text_pair("title", item.title.clone()));
    ms.push(text_pair("url", item.link_url.clone()));
    ms.push(text_pair("external_url", item.external_url.clone()));
    ms.push(text_pair("content_text", item.summary.clone()));
    ms.push(text_pair("date_published", item.published.iso8601()));
    ms.push(text_pair("date_modified", item.modified.iso8601()));
    if item.author.unicode_len() > 0 {
        let mut author: Vec<(String, JsonValue)> = Vec::new();
        author.push(text_pair("name", item.author.clone()));
        let author_doc = JsonValue::Object(author);
        assert(author_doc->Object_0@ == author@);
        assert(nests_within(author@[0].1, 59));
        assert(nests_within(author_doc, 60));
        let mut authors: Vec<JsonValue> = Vec::new();
        authors.push(author_doc);
        let authors_doc = JsonValue::Array(authors);
        assert(authors_doc->Array_0@ == authors@);
        assert(nests_within(authors@[0], 60));
        assert(nests_within(authors_doc, 61));
        ms.push((String::from_str("authors"), authors_doc));
    }
    let doc = JsonValue::Object(ms);
    assert(doc->Object_0@ == ms@);
    assert forall|j: int| 0 <= j < ms@.len() implies nests_within(#[trigger] ms@[j].1, 61) by {
        if j < 7 {
            assert(ms@[j].1 is Str);
        }
    }
    doc
}

/// The feed's JSON Feed 1.1 document.
pub fn feed_document(view: &FeedView) -> (doc: JsonValue)
    ensures
        is_json_feed_doc(doc, view@),
        nests_within(doc, 64),
{
    let mut items: Vec<JsonValue> = Vec::new();
    let mut i: usize = 0;
    while i < view.items.len()
        invariant
            0 <= i <= view.items@.len(),
            items@.len() == i,
            forall|j: int|
                0 <= j < i ==> is_json_item_doc(#[trigger] items@[j], view.items@[j]@)
                    && nests_within(items@[j], 62),
        decreases view.items.len() - i,
    {
        items.push(item_document(&view.items[i]));
        i = i + 1;
    }
    let items_doc = JsonValue::Array(items);
    assert(items_doc->Array_0@ == items@);
    assert(forall|j: int| 0 <= j < items@.len() ==> nests_within(#[trigger] items@[j], 62));
    assert(nests_within(items_doc, 63));
    let mut ms: Vec<(String, JsonValue)> = Vec::new();
    ms.push(text_pair("version", String::from_str("https://jsonfeed.org/version/1.1")));
    ms.push(text_pair("title", view.title.clone()));
    ms.push(text_pair("home_page_url", String::from_str(HN_HOME_URL)));
    ms.push(text_pair("feed_url", view.self_url.clone()));
    ms.push(text_pair("description", view.description.clone()));
    ms.push((String::from_str("items"), items_doc));
    let doc = JsonValue::Object(ms);
    assert(doc->Object_0@ == ms@);
    assert forall|j: int| 0 <= j < ms@.len() implies nests_within(#[trigger] ms@[j].1, 63) by {
        if j < 5 {
            assert(ms@[j].1 is Str);
        }
    }
    assert forall|j: int| 0 <= j < view@.items.len() implies is_json_item_doc(
        #[trigger] ms@[5].1->Array_0@[j],
        view@.items[j],
    ) by {
        assert(view@.items[j] == view.items@[j]@);
    }
    doc
}

/// The text of a JSON feed file: the document pretty-printed with
/// two-space indentation, then a newline.
pub open spec fn json_feed_text(doc: JsonValue) -> Seq<char> {
    pretty(doc, 0) + "\n"@
}

/// Renders the feed as a JSON Feed 1.1 document in UTF-8.
pub fn render(view: &FeedView) -> (r: Vec<u8>)
    ensures
        exists|doc: JsonValue|
            is_json_feed_doc(doc, view@) && r@ == vstd::utf8::encode_utf8(
                #[trigger] json_feed_text(doc),
            ),
{
    let doc = feed_document(view);
    let mut text = to_pretty_json(&doc);
    text.append("\n");
    assert(text@ =~= json_feed_text(doc));
    text.as_str().as_bytes_vec()
}

proof fn lemma_item_docs_same(a: JsonValue, b: JsonValue, item: FeedItemModel)
    requires
        is_json_item_doc(a, item),
        is_json_item_doc(b, item),
    ensures
        same_json(a, b),
{
    let ma = a->Object_0@;
    let mb = b->Object_0@;
    if item.author.len() > 0 {
        let aa = ma[7].1->Array_0@;
        let ab = mb[7].1->Array_0@;
        let na = aa[0]->Object_0@;
        let nb = ab[0]->Object_0@;
        assert forall|i: int| 0 <= i < na.len() implies (#[trigger] na[i]).0@ == nb[i].0@ && same_json(
            na[i].1,
            nb[i].1,
        ) by {
            assert(nb[i].1 is Str);
        }
        assert(same_json(aa[0], ab[0]));
        assert forall|i: int| 0 <= i < aa.len() implies same_json(#[trigger] aa[i], ab[i]) by {}
        assert(same_json(ma[7].1, mb[7].1));
    }
    assert forall|i: int| 0 <= i < ma.len() implies (#[trigger] ma[i]).0@ == mb[i].0@ && same_json(
        ma[i].1,
        mb[i].1,
    ) by {
        if i < 7 {
            assert(mb[i].1 is Str);
        }
    }
}

/// Law: the bytes of a JSON feed are fixed by the feed: any two documents
/// of the same feed print the same text.
pub proof fn law_json_feed_text_is_determined(a: JsonValue, b: JsonValue, view: FeedModel)
    requires
        is_json_feed_doc(a, view),
        is_json_feed_doc(b, view),
    ensures
        json_feed_text(a) == json_feed_text(b),
{
    let ma = a->Object_0@;
    let mb = b->Object_0@;
    let ia = ma[5].1->Array_0@;
    let ib = mb[5].1->Array_0@;
    assert forall|i: int| 0 <= i < ia.len() implies same_json(#[trigger] ia[i], ib[i]) by {
        lemma_item_docs_same(ia[i], ib[i], view.items[i]);
    }
    assert(same_json(ma[5].1, mb[5].1));
    assert forall|i: int| 0 <= i < ma.len() implies (#[trigger] ma[i]).0@ == mb[i].0@ && same_json(
        ma[i].1,
        mb[i].1,
    ) by {
        if i < 5 {
            assert(mb[i].1 is Str);
        }
    }
    lemma_same_json_pretty(a, b, 0);
}

} // verus!
