use vstd::prelude::*;

use crate::config::MAX_ITEMS_PER_FEED;
use crate::feed::common::{
    crossed_at,
    id_before,
    in_feed,
    is_feed_selection,
    is_feed_view,
    is_latest_modified,
    lemma_ranks_before_transitive,
    FeedItemModel,
    FeedModel,
};
use crate::time::Timestamp;
use crate::types::{FeedFormat, LinkKind, StoryModel};

verus! {

/// The entries of a feed in feed order.
pub open spec fn in_feed_order(stories: Map<u64, StoryModel>, threshold: u16, s: Seq<u64>) -> bool {
    forall|i: int, j: int|
        0 <= i < j < s.len() ==> id_before(stories, threshold, #[trigger] s[i], #[trigger] s[j])
}

proof fn lemma_before_strict(stories: Map<u64, StoryModel>, threshold: u16, x: u64, y: u64)
    ensures
        !id_before(stories, threshold, x, x),
        !(id_before(stories, threshold, x, y) && id_before(stories, threshold, y, x)),
        x != y ==> id_before(stories, threshold, x, y) || id_before(stories, threshold, y, x),
{
}

proof fn lemma_before_transitive(stories: Map<u64, StoryModel>, threshold: u16, x: u64, y: u64, z: u64)
    requires
        id_before(stories, threshold, x, y),
        id_before(stories, threshold, y, z),
    ensures
        id_before(stories, threshold, x, z),
{
    lemma_ranks_before_transitive(
        crossed_at(stories, threshold, x).seconds(),
        x,
        crossed_at(stories, threshold, y).seconds(),
        y,
        crossed_at(stories, threshold, z).seconds(),
        z,
    );
}

proof fn lemma_ordered_no_duplicates(stories: Map<u64, StoryModel>, threshold: u16, s: Seq<u64>)
    requires
        in_feed_order(stories, threshold, s),
    ensures
        s.no_duplicates(),
{
    assert forall|i: int, j: int| 0 <= i < s.len() && 0 <= j < s.len() && i != j implies s[i] != s[j] by {
        lemma_before_strict(stories, threshold, s[i], s[j]);
        if i < j {
            assert(id_before(stories, threshold, s[i], s[j]));
        } else {
            assert(id_before(stories, threshold, s[j], s[i]));
        }
    }
}

/// Every entry of one selection is in any other selection of the feed.
proof fn lemma_selection_within(stories: Map<u64, StoryModel>, threshold: u16, a: Seq<u64>, b: Seq<u64>)
    requires
        is_feed_selection(stories, threshold, a),
        is_feed_selection(stories, threshold, b),
    ensures
        forall|x: u64| a.contains(x) ==> b.contains(x),
{
    assert forall|x: u64| a.contains(x) implies b.contains(x) by {
        if !b.contains(x) {
            let p = choose|p: int| 0 <= p < a.len() && a[p] == x;
            assert(in_feed(stories, threshold, a[p]));
            assert(b.len() == MAX_ITEMS_PER_FEED && id_before(stories, threshold, b.last(), x));
            assert forall|j: int| 0 <= j < b.len() implies id_before(stories, threshold, #[trigger] b[j], x) by {
                if j < b.len() - 1 {
                    assert(id_before(stories, threshold, b[j], b[b.len() - 1]));
                    lemma_before_transitive(stories, threshold, b[j], b.last(), x);
                }
            }
            assert forall|j: int| 0 <= j < b.len() implies a.take(p).contains(#[trigger] b[j]) by {
                let y = b[j];
                assert(id_before(stories, threshold, y, x));
                assert(in_feed(stories, threshold, b[j]));
                if !a.contains(y) {
                    assert(a.len() == MAX_ITEMS_PER_FEED && id_before(stories, threshold, a.last(), y));
                    if p < a.len() - 1 {
                        assert(id_before(stories, threshold, a[p], a[a.len() - 1]));
                        lemma_before_transitive(stories, threshold, x, a.last(), y);
                    }
                    lemma_before_strict(stories, threshold, x, y);
                } else {
                    let q = choose|q: int| 0 <= q < a.len() && a[q] == y;
                    lemma_before_strict(stories, threshold, x, y);
                    if q > p {
                        assert(id_before(stories, threshold, a[p], a[q]));
                    }
                    assert(q != p);
                    assert(a.take(p)[q] == y);
                }
            }
            lemma_ordered_no_duplicates(stories, threshold, b);
            b.unique_seq_to_set();
            a.take(p).lemma_cardinality_of_set();
            assert(b.to_set().subset_of(a.take(p).to_set())) by {
                assert forall|y: u64| b.to_set().contains(y) implies a.take(p).to_set().contains(y) by {
                    let j = choose|j: int| 0 <= j < b.len() && b[j] == y;
                    assert(a.take(p).contains(b[j]));
                }
            }
            vstd::set_lib::lemma_len_subset(b.to_set(), a.take(p).to_set());
            assert(false);
        }
    }
}

/// Two sequences in feed order with the same entries are equal.
proof fn lemma_ordered_unique(stories: Map<u64, StoryModel>, threshold: u16, a: Seq<u64>, b: Seq<u64>)
    requires
        in_feed_order(stories, threshold, a),
        in_feed_order(stories, threshold, b),
        forall|x: u64| a.contains(x) <==> b.contains(x),
    ensures
        a == b,
    decreases a.len(),
{
    if a.len() == 0 {
        if b.len() > 0 {
            assert(b.contains(b[0]));
        }
        assert(a =~= b);
    } else {
        assert(a.contains(a[0]));
        assert(b.len() > 0);
        assert(b.contains(b[0]));
        let i = choose|i: int| 0 <= i < a.len() && a[i] == b[0];
        let j = choose|j: int| 0 <= j < b.len() && b[j] == a[0];
        lemma_before_strict(stories, threshold, a[0], b[0]);
        if i > 0 && j > 0 {
            assert(id_before(stories, threshold, a[0], a[i]));
            assert(id_before(stories, threshold, b[0], b[j]));
        }
        assert(a[0] == b[0]);
        let a1 = a.drop_first();
        let b1 = b.drop_first();
        lemma_ordered_no_duplicates(stories, threshold, a);
        lemma_ordered_no_duplicates(stories, threshold, b);
        assert forall|x: u64| a1.contains(x) <==> b1.contains(x) by {
            if a1.contains(x) {
                let k = choose|k: int| 0 <= k < a1.len() && a1[k] == x;
                assert(a[k + 1] == x);
                assert(x != a[0]);
                assert(a.contains(x));
                let m = choose|m: int| 0 <= m < b.len() && b[m] == x;
                assert(m != 0);
                assert(b1[m - 1] == x);
            }
            if b1.contains(x) {
                let k = choose|k: int| 0 <= k < b1.len() && b1[k] == x;
                assert(b[k + 1] == x);
                assert(x != b[0]);
                assert(b.contains(x));
                let m = choose|m: int| 0 <= m < a.len() && a[m] == x;
                assert(m != 0);
                assert(a1[m - 1] == x);
            }
        }
        assert forall|p: int, q: int| 0 <= p < q < a1.len() implies id_before(
            stories,
            threshold,
            #[trigger] a1[p],
            #[trigger] a1[q],
        ) by {
            assert(a1[p] == a[p + 1] && a1[q] == a[q + 1]);
        }
        assert forall|p: int, q: int| 0 <= p < q < b1.len() implies id_before(
            stories,
            threshold,
            #[trigger] b1[p],
            #[trigger] b1[q],
        ) by {
            assert(b1[p] == b[p + 1] && b1[q] == b[q + 1]);
        }
        lemma_ordered_unique(stories, threshold, a1, b1);
        assert(a.len() == b.len());
        assert forall|k: int| 0 <= k < a.len() implies a[k] == b[k] by {
            if k > 0 {
                assert(a[k] == a1[k - 1]);
                assert(b[k] == b1[k - 1]);
            }
        }
        assert(a =~= b);
    }
}

/// Law: a feed holds one selection only: the first 200 stories that
/// crossed the threshold, the later crossing first, then the higher id.
pub proof fn law_feed_selection_is_unique(
    stories: Map<u64, StoryModel>,
    threshold: u16,
    a: Seq<u64>,
    b: Seq<u64>,
)
    requires
        is_feed_selection(stories, threshold, a),
        is_feed_selection(stories, threshold, b),
    ensures
        a == b,
{
    lemma_selection_within(stories, threshold, a, b);
    lemma_selection_within(stories, threshold, b, a);
    lemma_ordered_unique(stories, threshold, a, b);
}

/// Two latest change times of the same items are the same instant.
proof fn lemma_latest_modified_unique(items: Seq<FeedItemModel>, x: Timestamp, y: Timestamp)
    requires
        is_latest_modified(items, x),
        is_latest_modified(items, y),
    ensures
        x == y,
{
    if items.len() > 0 {
        let i = choose|i: int| 0 <= i < items.len() && #[trigger] items[i].modified == x;
        let j = choose|j: int| 0 <= j < items.len() && #[trigger] items[j].modified == y;
        assert(items[i].modified.seconds() <= y.seconds());
        assert(items[j].modified.seconds() <= x.seconds());
    }
    Timestamp::lemma_at_seconds(x.seconds(), x);
    Timestamp::lemma_at_seconds(x.seconds(), y);
}

/// Law: a feed is fixed by the stories, its threshold, link kind, format
/// and base URL, so its bytes are too.
pub proof fn law_feed_view_is_determined(
    stories: Map<u64, StoryModel>,
    threshold: u16,
    kind: LinkKind,
    format: FeedFormat,
    base_url: Seq<char>,
    v: FeedModel,
    w: FeedModel,
)
    requires
        is_feed_view(stories, threshold, kind, format, base_url, v),
        is_feed_view(stories, threshold, kind, format, base_url, w),
    ensures
        v == w,
{
    let sv = choose|sel: Seq<u64>|
        #[trigger] is_feed_selection(stories, threshold, sel) && v.items == sel.map_values(
            |id: u64| crate::feed::common::item_model(stories[id], crossed_at(stories, threshold, id), kind, threshold),
        );
    let sw = choose|sel: Seq<u64>|
        #[trigger] is_feed_selection(stories, threshold, sel) && w.items == sel.map_values(
            |id: u64| crate::feed::common::item_model(stories[id], crossed_at(stories, threshold, id), kind, threshold),
        );
    law_feed_selection_is_unique(stories, threshold, sv, sw);
    assert(v.items == w.items);
    lemma_latest_modified_unique(v.items, v.updated, w.updated);
    assert(v =~= w);
}

} // verus!
