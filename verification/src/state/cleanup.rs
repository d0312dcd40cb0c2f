use std::collections::BTreeMap;
use vstd::prelude::*;

use crate::config::{retention_seconds, RETENTION_DAYS};
use crate::keys::{ascending_keys, ascending_small_keys};
use crate::time::Timestamp;
use crate::types::{is_latest_change, keyed_by_id, State, Story, StoryModel};

verus! {

/// The threshold entries crossed at or after the cutoff.
pub open spec fn retained_thresholds(thresholds: Map<u16, Timestamp>, cutoff: int) -> Map<u16, Timestamp> {
    Map::new(
        |t: u16| thresholds.contains_key(t) && thresholds[t].seconds() >= cutoff,
        |t: u16| thresholds[t],
    )
}

/// The stories after expired threshold entries are dropped: stories left
/// with no entry are removed, the others keep every other field.
pub open spec fn cleaned_stories(stories: Map<u64, StoryModel>, cutoff: int) -> Map<u64, StoryModel> {
    Map::new(
        |k: u64|
            stories.contains_key(k) && !retained_thresholds(
                stories[k].thresholds,
                cutoff,
            ).dom().is_empty(),
        |k: u64| StoryModel { thresholds: retained_thresholds(stories[k].thresholds, cutoff), ..stories[k] },
    )
}

/// Whether some story holds a threshold entry older than the cutoff.
pub open spec fn has_expired_entry(stories: Map<u64, StoryModel>, cutoff: int) -> bool {
    exists|k: u64, t: u16|
        #![trigger stories[k].thresholds[t]]
        stories.contains_key(k) && stories[k].thresholds.contains_key(t)
            && stories[k].thresholds[t].seconds() < cutoff
}

/// The oldest crossing time still retained at `cycle_time`.
pub open spec fn retention_cutoff(cycle_time: Timestamp) -> int {
    cycle_time.seconds() - retention_seconds()
}

fn retain_recent(thresholds: &BTreeMap<u16, Timestamp>, cutoff: i64) -> (r: BTreeMap<u16, Timestamp>)
    ensures
        r@ == retained_thresholds(thresholds@, cutoff as int),
{
    let keys = ascending_small_keys(thresholds);
    let mut kept: BTreeMap<u16, Timestamp> = BTreeMap::new();
    let mut i: usize = 0;
    while i < keys.len()
        invariant
            0 <= i <= keys.len(),
            keys@.to_set() == thresholds@.dom(),
            forall|t: u16| #[trigger]
                kept@.contains_key(t) <==> (keys@.take(i as int).contains(t) && thresholds@[t].seconds()
                    >= cutoff),
            forall|t: u16| #[trigger] kept@.contains_key(t) ==> kept@[t] == thresholds@[t],
        decreases keys.len() - i,
    {
        let t = keys[i];
        assert(keys@.to_set().contains(t));
        let at = *thresholds.get(&t).unwrap();
        proof {
            let s0 = keys@.take(i as int);
            let s1 = keys@.take(i + 1);
            assert(s1 =~= s0.push(t));
            assert forall|k: u16| s1.contains(k) <==> (s0.contains(k) || k == t) by {
                if s1.contains(k) && k != t {
                    let j = choose|j: int| 0 <= j < s1.len() && #[trigger] s1[j] == k;
                    assert(s0[j] == k);
                }
                if k == t {
                    assert(s1[s0.len() as int] == k);
                }
                if s0.contains(k) {
                    let j = choose|j: int| 0 <= j < s0.len() && #[trigger] s0[j] == k;
                    assert(s1[j] == k);
                }
            }
        }
        if at.unix_seconds() >= cutoff {
            kept.insert(t, at);
        }
        i = i + 1;
    }
    proof {
        assert(keys@.take(keys@.len() as int) =~= keys@);
        assert forall|t: u16| keys@.contains(t) <==> thresholds@.contains_key(t) by {
            assert(keys@.to_set().contains(t) <==> keys@.contains(t));
        }
    }
    assert(kept@ =~= retained_thresholds(thresholds@, cutoff as int));
    kept
}

/// Drops the threshold entries crossed more than seven days before
/// `cycle_time`, and the stories left with none; keeps the score history;
/// recomputes the state's change time. Says whether any entry was dropped.
pub fn cleanup_state(state: &mut State, cycle_time: &Timestamp) -> (changed: bool)
    ensures
        final(state)@.stories == cleaned_stories(old(state)@.stories, retention_cutoff(*cycle_time)),
        final(state)@.max_scores == old(state)@.max_scores,
        final(state)@.version == old(state)@.version,
        is_latest_change(final(state)@.stories, final(state)@.last_output_change_at),
        changed == has_expired_entry(old(state)@.stories, retention_cutoff(*cycle_time)),
{
    let cutoff: i64 = cycle_time.unix_seconds() - RETENTION_DAYS * 86400;
    let ghost stories = state@.stories;
    let ids = ascending_keys(&state.stories);
    let mut kept: BTreeMap<u64, Story> = BTreeMap::new();
    let mut changed = false;
    let mut i: usize = 0;
    assert(stories.dom() =~= state.stories@.dom());
    while i < ids.len()
        invariant
            0 <= i <= ids.len(),
            ids@.to_set() == state.stories@.dom(),
            stories == state@.stories,
            stories.dom() == state.stories@.dom(),
            cutoff == retention_cutoff(*cycle_time),
            strictly_increasing_ids(ids@),
            forall|k: u64| #[trigger]
                kept@.contains_key(k) <==> (ids@.take(i as int).contains(k)
                    && cleaned_stories(stories, cutoff as int).contains_key(k)),
            forall|k: u64| #[trigger]
                kept@.contains_key(k) ==> kept@[k]@ == cleaned_stories(stories, cutoff as int)[k],
            changed == expired_before(stories, ids@, i as int, cutoff as int),
        decreases ids.len() - i,
    {
        let id = ids[i];
        assert(ids@.to_set().contains(id));
        let story = state.stories.get(&id).unwrap();
        assert(stories[id] == story@);
        let recent = retain_recent(&story.thresholds, cutoff);
        let ghost old_changed = changed;
        if recent.len() != story.thresholds.len() {
            changed = true;
        }
        proof {
            let th = story@.thresholds;
            let rt = retained_thresholds(th, cutoff as int);
            assert(rt.dom().subset_of(th.dom()));
            assert(stories[ids@[i as int]].thresholds == th);
            if rt.len() != th.len() {
                if forall|t: u16| th.contains_key(t) ==> rt.contains_key(t) {
                    assert(rt.dom() =~= th.dom());
                    assert(false);
                }
                let t = choose|t: u16| th.contains_key(t) && !rt.contains_key(t);
                assert(stories[ids@[i as int]].thresholds[t].seconds() < cutoff);
                assert(expired_before(stories, ids@, i + 1, cutoff as int));
            } else {
                if exists|t: u16| th.contains_key(t) && !rt.contains_key(t) {
                    let t = choose|t: u16| th.contains_key(t) && !rt.contains_key(t);
                    assert(rt.dom().subset_of(th.dom().remove(t)));
                    vstd::set_lib::lemma_len_subset(rt.dom(), th.dom().remove(t));
                    assert(false);
                }
                assert(expired_before(stories, ids@, i + 1, cutoff as int) == expired_before(
                    stories,
                    ids@,
                    i as int,
                    cutoff as int,
                )) by {
                    if expired_before(stories, ids@, i + 1, cutoff as int) {
                        let (j, t) = choose|j: int, t: u16|
                            #![trigger stories[ids[j]].thresholds[t]]
                            0 <= j < i + 1 && stories[ids@[j]].thresholds.contains_key(t)
                                && stories[ids@[j]].thresholds[t].seconds() < cutoff;
                        if j == i {
                            assert(rt.contains_key(t));
                        }
                    }
                }
            }
        }
        if recent.len() > 0 {
            let mut next = story.duplicate();
            next.thresholds = recent;
            kept.insert(id, next);
        }
        proof {
            let s0 = ids@.take(i as int);
            let s1 = ids@.take(i + 1);
            assert(s1 =~= s0.push(id));
            assert forall|k: u64| s1.contains(k) <==> (s0.contains(k) || k == id) by {
                if s1.contains(k) && k != id {
                    let j = choose|j: int| 0 <= j < s1.len() && #[trigger] s1[j] == k;
                    assert(s0[j] == k);
                }
                if k == id {
                    assert(s1[s0.len() as int] == k);
                }
                if s0.contains(k) {
                    let j = choose|j: int| 0 <= j < s0.len() && #[trigger] s0[j] == k;
                    assert(s1[j] == k);
                }
            }
        }
        i = i + 1;
    }
    proof {
        assert(ids@.take(ids@.len() as int) =~= ids@);
        assert forall|k: u64| ids@.contains(k) <==> stories.contains_key(k) by {
            assert(ids@.to_set().contains(k) <==> ids@.contains(k));
        }
        assert(kept@.map_values(|s: Story| s@) =~= cleaned_stories(stories, cutoff as int));
        if has_expired_entry(stories, cutoff as int) {
            let (k, t) = choose|k: u64, t: u16|
                #![trigger stories[k].thresholds[t]]
                stories.contains_key(k) && stories[k].thresholds.contains_key(t)
                    && stories[k].thresholds[t].seconds() < cutoff;
            assert(ids@.contains(k));
            let j = choose|j: int| 0 <= j < ids@.len() && ids@[j] == k;
            assert(stories[ids@[j]].thresholds[t] == stories[k].thresholds[t]);
        }
        if expired_before(stories, ids@, ids@.len() as int, cutoff as int) {
            let (j, t) = choose|j: int, t: u16|
                #![trigger stories[ids@[j]].thresholds[t]]
                0 <= j < ids@.len() && stories[ids@[j]].thresholds.contains_key(t)
                    && stories[ids@[j]].thresholds[t].seconds() < cutoff;
            assert(ids@.to_set().contains(ids@[j]));
            assert(stories[ids@[j]].thresholds[t] == stories[ids@[j]].thresholds[t]);
        }
    }
    state.stories = kept;
    state.recompute_last_output_change_at();
    changed
}

/// Whether one of the first `n` listed stories holds an expired entry.
pub open spec fn expired_before(stories: Map<u64, StoryModel>, ids: Seq<u64>, n: int, cutoff: int) -> bool {
    exists|j: int, t: u16|
        #![trigger stories[ids[j]].thresholds[t]]
        0 <= j < n && stories[ids[j]].thresholds.contains_key(t)
            && stories[ids[j]].thresholds[t].seconds() < cutoff
}

pub open spec fn strictly_increasing_ids(s: Seq<u64>) -> bool {
    crate::keys::strictly_increasing(s)
}

/// Law: after cleanup every story keeps at least one threshold entry, every
/// kept entry was crossed at or after the cutoff and is unchanged, and every
/// such entry of the old state is kept.
pub proof fn law_cleanup_keeps_exactly_recent_entries(stories: Map<u64, StoryModel>, cutoff: int)
    ensures
        forall|k: u64| #[trigger]
            cleaned_stories(stories, cutoff).contains_key(k) ==> !cleaned_stories(
                stories,
                cutoff,
            )[k].thresholds.dom().is_empty(),
        forall|k: u64, t: u16|
            #![trigger cleaned_stories(stories, cutoff)[k].thresholds[t]]
            cleaned_stories(stories, cutoff).contains_key(k) && cleaned_stories(
                stories,
                cutoff,
            )[k].thresholds.contains_key(t) ==> {
                &&& stories.contains_key(k)
                &&& stories[k].thresholds.contains_key(t)
                &&& stories[k].thresholds[t].seconds() >= cutoff
                &&& cleaned_stories(stories, cutoff)[k].thresholds[t] == stories[k].thresholds[t]
            },
        forall|k: u64, t: u16|
            #![trigger stories[k].thresholds[t]]
            stories.contains_key(k) && stories[k].thresholds.contains_key(t)
                && stories[k].thresholds[t].seconds() >= cutoff ==> {
                &&& cleaned_stories(stories, cutoff).contains_key(k)
                &&& cleaned_stories(stories, cutoff)[k].thresholds.contains_key(t)
                &&& cleaned_stories(stories, cutoff)[k].thresholds[t] == stories[k].thresholds[t]
            },
{
    let c = cleaned_stories(stories, cutoff);
    assert forall|k: u64, t: u16|
        stories.contains_key(k) && stories[k].thresholds.contains_key(t)
            && stories[k].thresholds[t].seconds() >= cutoff implies c.contains_key(k)
        && c[k].thresholds.contains_key(t) && c[k].thresholds[t] == stories[k].thresholds[t] by {
        assert(retained_thresholds(stories[k].thresholds, cutoff).dom().contains(t));
    }
}

/// Law: cleaning up twice with the same cutoff is cleaning up once.
pub proof fn law_cleanup_idempotent(stories: Map<u64, StoryModel>, cutoff: int)
    ensures
        cleaned_stories(cleaned_stories(stories, cutoff), cutoff) == cleaned_stories(stories, cutoff),
{
    let c = cleaned_stories(stories, cutoff);
    let cc = cleaned_stories(c, cutoff);
    assert forall|k: u64| c.contains_key(k) implies retained_thresholds(c[k].thresholds, cutoff)
        == c[k].thresholds by {
        assert(retained_thresholds(c[k].thresholds, cutoff) =~= c[k].thresholds);
    }
    assert forall|k: u64| #[trigger] cc.contains_key(k) <==> c.contains_key(k) by {
        if c.contains_key(k) {
            assert(retained_thresholds(c[k].thresholds, cutoff) == c[k].thresholds);
        }
    }
    assert forall|k: u64| cc.contains_key(k) implies #[trigger] cc[k] == c[k] by {
        assert(retained_thresholds(c[k].thresholds, cutoff) == c[k].thresholds);
        assert(cc[k] =~= c[k]);
    }
    assert(cc =~= c);
}

/// Law: cleanup keeps stories under their own ids.
pub proof fn law_cleanup_keeps_stories_keyed_by_id(stories: Map<u64, StoryModel>, cutoff: int)
    requires
        keyed_by_id(stories),
    ensures
        keyed_by_id(cleaned_stories(stories, cutoff)),
{
}

} // verus!
