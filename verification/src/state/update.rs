use std::collections::BTreeMap;
use vstd::prelude::*;

use crate::config::is_threshold;
use crate::state::threshold::{previously_crossed, record_crossings, score_reaches, thresholds_after};
use crate::time::Timestamp;
use crate::types::{ApiItem, Story, StoryModel};
use crate::util::{decode_title, hn_item_url, hn_item_url_text, html_entities_decoded};

verus! {

/// What applying one fetched item did.
#[derive(Clone, Copy, Debug, PartialEq, Eq, Structural)]
pub struct UpdateStats {
    pub created: bool,
    pub removed: bool,
    pub dead_removed: bool,
    pub crossings: usize,
    pub changed: bool,
    /// The score of a valid, live story, for the durable score history.
    pub observed_score: Option<i64>,
}

pub open spec fn no_update() -> UpdateStats {
    UpdateStats {
        created: false,
        removed: false,
        dead_removed: false,
        crossings: 0,
        changed: false,
        observed_score: None,
    }
}

/// A response without `type` or `title` says nothing about the story.
pub open spec fn item_is_invalid(item: ApiItem) -> bool {
    item.item_type is None || item.title is None
}

pub open spec fn item_is_story(item: ApiItem) -> bool {
    item.item_type matches Some(t) && t@ == "story"@
}

pub open spec fn item_is_dead(item: ApiItem) -> bool {
    item.dead == Some(true) || item.deleted == Some(true)
}

pub open spec fn text_or_empty(o: Option<String>) -> Seq<char> {
    match o {
        Some(s) => s@,
        None => Seq::empty(),
    }
}

/// The decoded title of an item that has one.
pub open spec fn item_title(item: ApiItem) -> Seq<char> {
    html_entities_decoded(text_or_empty(item.title))
}

pub open spec fn item_score(item: ApiItem) -> i64 {
    match item.score {
        Some(s) => s,
        None => 0,
    }
}

pub open spec fn item_comments(item: ApiItem) -> u64 {
    match item.descendants {
        Some(c) => c,
        None => 0,
    }
}

pub open spec fn item_time(item: ApiItem) -> i64 {
    match item.time {
        Some(t) => t,
        None => 0,
    }
}

/// The story first made from a valid, live item.
pub open spec fn created_story(
    item: ApiItem,
    previous_max_score: Option<i64>,
    cycle_time: Timestamp,
) -> StoryModel {
    StoryModel {
        id: item.id,
        title: item_title(item),
        url: text_or_empty(item.url),
        hn_url: hn_item_url_text(item.id),
        score: item_score(item),
        max_score: item_score(item),
        comments: item_comments(item),
        by: text_or_empty(item.by),
        first_seen: cycle_time,
        story_time: item_time(item),
        last_output_change_at: cycle_time,
        thresholds: thresholds_after(
            Map::empty(),
            previous_max_score,
            item_score(item),
            cycle_time,
        ),
    }
}

/// The thresholds that observing the item records on a story.
pub open spec fn crossings_of(
    story: StoryModel,
    item: ApiItem,
    previous_max_score: Option<i64>,
    cycle_time: Timestamp,
) -> int {
    thresholds_after(story.thresholds, previous_max_score, item_score(item), cycle_time).len()
        - story.thresholds.len()
}

/// Whether observing the item changes any persisted field of the story.
pub open spec fn update_changes(
    story: StoryModel,
    item: ApiItem,
    previous_max_score: Option<i64>,
    cycle_time: Timestamp,
) -> bool {
    ||| story.title != item_title(item)
    ||| story.url != text_or_empty(item.url)
    ||| story.score != item_score(item)
    ||| story.comments != item_comments(item)
    ||| story.by != text_or_empty(item.by)
    ||| story.story_time != item_time(item)
    ||| item_score(item) > story.max_score
    ||| crossings_of(story, item, previous_max_score, cycle_time) > 0
}

/// A tracked story after a valid, live item for it was observed: the
/// fields follow the item, the maximum score only rises, thresholds are
/// only added, and the change time moves to the cycle when anything changed.
pub open spec fn updated_story(
    story: StoryModel,
    item: ApiItem,
    previous_max_score: Option<i64>,
    cycle_time: Timestamp,
) -> StoryModel {
    StoryModel {
        title: item_title(item),
        url: text_or_empty(item.url),
        score: item_score(item),
        max_score: if item_score(item) > story.max_score {
            item_score(item)
        } else {
            story.max_score
        },
        comments: item_comments(item),
        by: text_or_empty(item.by),
        story_time: item_time(item),
        last_output_change_at: if update_changes(story, item, previous_max_score, cycle_time) {
            cycle_time
        } else {
            story.last_output_change_at
        },
        thresholds: thresholds_after(
            story.thresholds,
            previous_max_score,
            item_score(item),
            cycle_time,
        ),
        ..story
    }
}

pub open spec fn story_model(s: Option<Story>) -> Option<StoryModel> {
    match s {
        Some(s) => Some(s@),
        None => None,
    }
}

/// What applying a fetched item to the tracked story (if any) gives.
pub open spec fn applied(
    existing: Option<StoryModel>,
    previous_max_score: Option<i64>,
    item: ApiItem,
    cycle_time: Timestamp,
) -> (Option<StoryModel>, UpdateStats) {
    if item_is_invalid(item) {
        (existing, no_update())
    } else if !item_is_story(item) {
        (None, UpdateStats { removed: existing is Some, changed: existing is Some, ..no_update() })
    } else if item_is_dead(item) {
        (
            None,
            UpdateStats {
                removed: existing is Some,
                dead_removed: existing is Some,
                changed: existing is Some,
                ..no_update()
            },
        )
    } else {
        match existing {
            None => {
                let story = created_story(item, previous_max_score, cycle_time);
                (
                    Some(story),
                    UpdateStats {
                        created: true,
                        crossings: story.thresholds.len() as usize,
                        changed: true,
                        observed_score: Some(item_score(item)),
                        ..no_update()
                    },
                )
            },
            Some(story) => (
                Some(updated_story(story, item, previous_max_score, cycle_time)),
                UpdateStats {
                    crossings: crossings_of(story, item, previous_max_score, cycle_time) as usize,
                    changed: update_changes(story, item, previous_max_score, cycle_time),
                    observed_score: Some(item_score(item)),
                    ..no_update()
                },
            ),
        }
    }
}

fn copy_text(o: &Option<String>) -> (r: String)
    ensures
        r@ == text_or_empty(*o),
{
    match o {
        Some(s) => s.clone(),
        None => String::new(),
    }
}

/// Replaces the text when it differs; says whether it did.
fn replace_if_needed(target: &mut String, next: String) -> (changed: bool)
    ensures
        final(target)@ == next@,
        changed == (old(target)@ != next@),
{
    if *target == next {
        false
    } else {
        *target = next;
        true
    }
}

fn is_story_type(item: &ApiItem) -> (r: bool)
    ensures
        r == item_is_story(*item),
{
    match &item.item_type {
        Some(t) => {
            proof {
                reveal_strlit("story");
            }
            crate::text::text_equal(t.as_str(), "story")
        },
        None => false,
    }
}

fn create_story(
    item: &ApiItem,
    previous_max_score: Option<i64>,
    cycle_time: &Timestamp,
) -> (r: (Option<Story>, UpdateStats))
    requires
        !item_is_invalid(*item),
        item_is_story(*item),
        !item_is_dead(*item),
    ensures
        (story_model(r.0), r.1) == applied(None, previous_max_score, *item, *cycle_time),
{
    let score = match item.score {
        Some(s) => s,
        None => 0,
    };
    let mut thresholds: BTreeMap<u16, Timestamp> = BTreeMap::new();
    assert(thresholds@.len() == 0);
    let crossings = record_crossings(&mut thresholds, previous_max_score, score, cycle_time);
    let title = match &item.title {
        Some(t) => decode_title(t.as_str()),
        None => String::new(),
    };
    let story = Story {
        id: item.id,
        title,
        url: copy_text(&item.url),
        hn_url: hn_item_url(item.id),
        score,
        max_score: score,
        comments: match item.descendants {
            Some(c) => c,
            None => 0,
        },
        by: copy_text(&item.by),
        first_seen: *cycle_time,
        story_time: match item.time {
            Some(t) => t,
            None => 0,
        },
        last_output_change_at: *cycle_time,
        thresholds,
    };
    let stats = UpdateStats {
        created: true,
        removed: false,
        dead_removed: false,
        crossings,
        changed: true,
        observed_score: Some(score),
    };
    assert(story@ =~= created_story(*item, previous_max_score, *cycle_time));
    (Some(story), stats)
}

fn update_existing(
    story: &Story,
    item: &ApiItem,
    previous_max_score: Option<i64>,
    cycle_time: &Timestamp,
) -> (r: (Option<Story>, UpdateStats))
    requires
        !item_is_invalid(*item),
    ensures
        r.0 matches Some(s) && s@ == updated_story(story@, *item, previous_max_score, *cycle_time),
        r.1 == (UpdateStats {
            crossings: crossings_of(story@, *item, previous_max_score, *cycle_time) as usize,
            changed: update_changes(story@, *item, previous_max_score, *cycle_time),
            observed_score: Some(item_score(*item)),
            ..no_update()
        }),
{
    let mut next = story.duplicate();
    let mut changed = false;
    let title = match &item.title {
        Some(t) => decode_title(t.as_str()),
        None => String::new(),
    };
    let score = match item.score {
        Some(s) => s,
        None => 0,
    };
    let comments = match item.descendants {
        Some(c) => c,
        None => 0,
    };
    let story_time = match item.time {
        Some(t) => t,
        None => 0,
    };
    changed = replace_if_needed(&mut next.title, title) || changed;
    changed = replace_if_needed(&mut next.url, copy_text(&item.url)) || changed;
    if next.score != score {
        next.score = score;
        changed = true;
    }
    if next.comments != comments {
        next.comments = comments;
        changed = true;
    }
    changed = replace_if_needed(&mut next.by, copy_text(&item.by)) || changed;
    if next.story_time != story_time {
        next.story_time = story_time;
        changed = true;
    }
    if score > next.max_score {
        next.max_score = score;
        changed = true;
    }
    let ghost before = next.thresholds@;
    let crossings = record_crossings(&mut next.thresholds, previous_max_score, score, cycle_time);
    changed = changed || crossings > 0;
    if changed {
        next.last_output_change_at = *cycle_time;
    }
    let stats = UpdateStats {
        created: false,
        removed: false,
        dead_removed: false,
        crossings,
        changed,
        observed_score: Some(score),
    };
    assert(next@ =~= updated_story(story@, *item, previous_max_score, *cycle_time));
    (Some(next), stats)
}

/// Applies a fetched item to the tracked story with its id, if any.
///
/// A response without `type` or `title` leaves everything as it was; a
/// non-story item or a dead or deleted story removes the tracked story;
/// a valid, live story is created or updated, and only thresholds that its
/// score crosses above `previous_max_score` (the durable maximum) are
/// recorded, at `cycle_time`.
pub fn apply_item(
    existing: Option<&Story>,
    previous_max_score: Option<i64>,
    item: &ApiItem,
    cycle_time: &Timestamp,
) -> (r: (Option<Story>, UpdateStats))
    ensures
        (story_model(r.0), r.1) == applied(
            match existing {
                Some(s) => Some(s@),
                None => None,
            },
            previous_max_score,
            *item,
            *cycle_time,
        ),
{
    if item.item_type.is_none() || item.title.is_none() {
        let kept = match existing {
            Some(s) => Some(s.duplicate()),
            None => None,
        };
        let stats = UpdateStats {
            created: false,
            removed: false,
            dead_removed: false,
            crossings: 0,
            changed: false,
            observed_score: None,
        };
        return (kept, stats);
    }
    if !is_story_type(item) {
        let removed = existing.is_some();
        let stats = UpdateStats {
            created: false,
            removed,
            dead_removed: false,
            crossings: 0,
            changed: removed,
            observed_score: None,
        };
        return (None, stats);
    }
    let dead = match item.dead {
        Some(d) => d,
        None => false,
    };
    let deleted = match item.deleted {
        Some(d) => d,
        None => false,
    };
    if dead || deleted {
        let removed = existing.is_some();
        let stats = UpdateStats {
            created: false,
            removed,
            dead_removed: removed,
            crossings: 0,
            changed: removed,
            observed_score: None,
        };
        return (None, stats);
    }
    match existing {
        Some(story) => update_existing(story, item, previous_max_score, cycle_time),
        None => create_story(item, previous_max_score, cycle_time),
    }
}

/// Law: a response without `type` or `title` changes nothing.
pub proof fn law_invalid_response_keeps_story(
    existing: Option<StoryModel>,
    previous_max_score: Option<i64>,
    item: ApiItem,
    cycle_time: Timestamp,
)
    requires
        item_is_invalid(item),
    ensures
        applied(existing, previous_max_score, item, cycle_time).0 == existing,
        !applied(existing, previous_max_score, item, cycle_time).1.changed,
{
}

/// Law: a threshold timestamp, once written, is never changed by an update,
/// and the maximum score never falls.
pub proof fn law_update_keeps_history(
    story: StoryModel,
    previous_max_score: Option<i64>,
    item: ApiItem,
    cycle_time: Timestamp,
)
    ensures
        applied(Some(story), previous_max_score, item, cycle_time).0 matches Some(next) ==> {
            &&& forall|t: u16| #[trigger]
                story.thresholds.contains_key(t) ==> next.thresholds.contains_key(t)
                    && next.thresholds[t] == story.thresholds[t]
            &&& next.max_score >= story.max_score
            &&& next.first_seen == story.first_seen
        },
{
}

/// Law: a threshold is recorded only when the observed score reaches it
/// and the durable score history has not reached it before; it is recorded
/// at the cycle time.
pub proof fn law_new_thresholds_are_first_crossings(
    existing: Option<StoryModel>,
    previous_max_score: Option<i64>,
    item: ApiItem,
    cycle_time: Timestamp,
    t: u16,
)
    requires
        applied(existing, previous_max_score, item, cycle_time).0 matches Some(next)
            && next.thresholds.contains_key(t),
        !(existing matches Some(s) && s.thresholds.contains_key(t)),
    ensures
        is_threshold(t),
        score_reaches(item_score(item), t),
        !previously_crossed(previous_max_score, t),
        applied(existing, previous_max_score, item, cycle_time).0->Some_0.thresholds[t]
            == cycle_time,
{
}

/// Law: observing the same response again, once the durable history holds
/// its score, changes nothing, in this cycle or a later one.
pub proof fn law_repeated_response_changes_nothing(
    existing: Option<StoryModel>,
    previous_max_score: Option<i64>,
    item: ApiItem,
    cycle_time: Timestamp,
    history: i64,
    later_cycle: Timestamp,
)
    requires
        applied(existing, previous_max_score, item, cycle_time).0 is Some,
        history >= item_score(item),
    ensures
        applied(
            applied(existing, previous_max_score, item, cycle_time).0,
            Some(history),
            item,
            later_cycle,
        ).0 == applied(existing, previous_max_score, item, cycle_time).0,
        !applied(
            applied(existing, previous_max_score, item, cycle_time).0,
            Some(history),
            item,
            later_cycle,
        ).1.changed,
{
    if !item_is_invalid(item) {
        let next = applied(existing, previous_max_score, item, cycle_time).0->Some_0;
        match existing {
            Some(s) => {
                assert(next == updated_story(s, item, previous_max_score, cycle_time));
            },
            None => {
                assert(next == created_story(item, previous_max_score, cycle_time));
            },
        }
        assert(next.max_score >= item_score(item));
        let th = thresholds_after(next.thresholds, Some(history), item_score(item), later_cycle);
        assert(th =~= next.thresholds);
        assert(crossings_of(next, item, Some(history), later_cycle) == 0);
        assert(!update_changes(next, item, Some(history), later_cycle));
        assert(updated_story(next, item, Some(history), later_cycle) =~= next);
    }
}

/// Law: applying a valid, live story item sets the story's comment count
/// to the item's `descendants` (0 when missing); on a tracked story whose
/// count differs, the update counts as a change and the story's change
/// time moves to the cycle time.
pub proof fn law_comments_follow_the_item(
    existing: Option<StoryModel>,
    previous_max_score: Option<i64>,
    item: ApiItem,
    cycle_time: Timestamp,
)
    requires
        item.item_type matches Some(t) && t@ == "story"@,
        item.title is Some,
        item.dead != Some(true),
        item.deleted != Some(true),
    ensures
        ({
            let (next, stats) = applied(existing, previous_max_score, item, cycle_time);
            let count: u64 = match item.descendants {
                Some(c) => c,
                None => 0,
            };
            &&& next matches Some(s) && s.comments == count
            &&& (existing matches Some(old) && old.comments != count) ==> stats.changed
                && next->Some_0.last_output_change_at == cycle_time
        }),
{
}

} // verus!
