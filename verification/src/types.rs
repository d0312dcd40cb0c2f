use std::collections::BTreeMap;
use vstd::prelude::*;

use crate::config::STATE_VERSION;
use crate::keys::{ascending_keys, strictly_increasing};
use crate::time::Timestamp;

verus! {

/// The three feed formats.
#[derive(Clone, Copy, Debug, Eq, PartialEq, Structural)]
pub enum FeedFormat {
    Rss,
    Atom,
    Json,
}

/// Whether a feed's entries link to the article or to the HN comments.
#[derive(Clone, Copy, Debug, Eq, PartialEq, Structural)]
pub enum LinkKind {
    Article,
    Comments,
}

/// A tracked story, as kept in `state.json`.
#[derive(Clone, Debug, Eq, PartialEq)]
pub struct Story {
    pub id: u64,
    pub title: String,
    pub url: String,
    pub hn_url: String,
    pub score: i64,
    pub max_score: i64,
    pub comments: u64,
    pub by: String,
    pub first_seen: Timestamp,
    pub story_time: i64,
    pub last_output_change_at: Timestamp,
    pub thresholds: BTreeMap<u16, Timestamp>,
}

/// The mathematical content of a story.
#[verifier::ext_equal]
pub struct StoryModel {
    pub id: u64,
    pub title: Seq<char>,
    pub url: Seq<char>,
    pub hn_url: Seq<char>,
    pub score: i64,
    pub max_score: i64,
    pub comments: u64,
    pub by: Seq<char>,
    pub first_seen: Timestamp,
    pub story_time: i64,
    pub last_output_change_at: Timestamp,
    pub thresholds: Map<u16, Timestamp>,
}

impl View for Story {
    type V = StoryModel;

    open spec fn view(&self) -> StoryModel {
        StoryModel {
            id: self.id,
            title: self.title@,
            url: self.url@,
            hn_url: self.hn_url@,
            score: self.score,
            max_score: self.max_score,
            comments: self.comments,
            by: self.by@,
            first_seen: self.first_seen,
            story_time: self.story_time,
            last_output_change_at: self.last_output_change_at,
            thresholds: self.thresholds@,
        }
    }
}

impl Story {
    /// A copy of the story.
    pub fn duplicate(&self) -> (r: Story)
        ensures
            r@ == self@,
    {
        Story {
            id: self.id,
            title: self.title.clone(),
            url: self.url.clone(),
            hn_url: self.hn_url.clone(),
            score: self.score,
            max_score: self.max_score,
            comments: self.comments,
            by: self.by.clone(),
            first_seen: self.first_seen,
            story_time: self.story_time,
            last_output_change_at: self.last_output_change_at,
            thresholds: self.thresholds.clone(),
        }
    }
}

/// The whole persisted state.
#[derive(Clone, Debug, Eq, PartialEq)]
pub struct State {
    pub version: u64,
    pub last_output_change_at: Timestamp,
    pub max_scores: BTreeMap<u64, i64>,
    pub stories: BTreeMap<u64, Story>,
}

#[verifier::ext_equal]
pub struct StateModel {
    pub version: u64,
    pub last_output_change_at: Timestamp,
    pub max_scores: Map<u64, i64>,
    pub stories: Map<u64, StoryModel>,
}

impl View for State {
    type V = StateModel;

    open spec fn view(&self) -> StateModel {
        StateModel {
            version: self.version,
            last_output_change_at: self.last_output_change_at,
            max_scores: self.max_scores@,
            stories: self.stories@.map_values(|s: Story| s@),
        }
    }
}

/// A story item as the HN API returns it; every field may be missing.
#[derive(Clone, Debug, Eq, PartialEq)]
pub struct ApiItem {
    pub id: u64,
    pub item_type: Option<String>,
    pub title: Option<String>,
    pub url: Option<String>,
    pub score: Option<i64>,
    pub dead: Option<bool>,
    pub deleted: Option<bool>,
    pub descendants: Option<u64>,
    pub by: Option<String>,
    pub time: Option<i64>,
}

/// Whether `t` is the latest change time of the stories, or the epoch when
/// there are none.
pub open spec fn is_latest_change(stories: Map<u64, StoryModel>, t: Timestamp) -> bool {
    if stories.dom().is_empty() {
        t.seconds() == 0
    } else {
        &&& exists|k: u64| #[trigger]
            stories.contains_key(k) && stories[k].last_output_change_at == t
        &&& forall|k: u64| #[trigger]
            stories.contains_key(k) ==> stories[k].last_output_change_at.seconds() <= t.seconds()
    }
}

/// Whether each story is kept under its own id.
pub open spec fn keyed_by_id(stories: Map<u64, StoryModel>) -> bool {
    forall|k: u64| #[trigger] stories.contains_key(k) ==> stories[k].id == k
}

impl State {
    /// The state of a first run: no stories, no score history.
    pub fn empty() -> (r: State)
        ensures
            r@.version == STATE_VERSION,
            r@.last_output_change_at.seconds() == 0,
            r@.max_scores == Map::<u64, i64>::empty(),
            r@.stories == Map::<u64, StoryModel>::empty(),
    {
        let r = State {
            version: STATE_VERSION,
            last_output_change_at: Timestamp::epoch(),
            max_scores: BTreeMap::new(),
            stories: BTreeMap::new(),
        };
        assert(r@.stories =~= Map::<u64, StoryModel>::empty());
        r
    }

    /// The ids of all tracked stories, ascending.
    pub fn retained_ids(&self) -> (r: Vec<u64>)
        ensures
            r@.to_set() == self.stories@.dom(),
            strictly_increasing(r@),
    {
        ascending_keys(&self.stories)
    }

    /// Sets the state's change time to the latest change time of its
    /// stories, or the epoch when there are none.
    pub fn recompute_last_output_change_at(&mut self)
        ensures
            is_latest_change(final(self)@.stories, final(self)@.last_output_change_at),
            final(self)@.stories == old(self)@.stories,
            final(self)@.max_scores == old(self)@.max_scores,
            final(self)@.version == old(self)@.version,
    {
        let ids = ascending_keys(&self.stories);
        let ghost stories = self@.stories;
        assert(stories.dom() =~= self.stories@.dom());
        let mut latest = Timestamp::epoch();
        let mut i: usize = 0;
        while i < ids.len()
            invariant
                0 <= i <= ids.len(),
                ids@.to_set() == self.stories@.dom(),
                stories == self@.stories,
                stories.dom() == self.stories@.dom(),
                i == 0 ==> latest.seconds() == 0,
                i > 0 ==> exists|j: int| 0 <= j < i && #[trigger] stories[ids@[j]].last_output_change_at == latest,
                forall|j: int| 0 <= j < i ==> #[trigger] stories[ids@[j]].last_output_change_at.seconds() <= latest.seconds(),
            decreases ids.len() - i,
        {
            let id = ids[i];
            assert(ids@.to_set().contains(id));
            let story = self.stories.get(&id).unwrap();
            assert(stories[id] == story@);
            let ghost old_latest = latest;
            if i == 0 || story.last_output_change_at.unix_seconds() > latest.unix_seconds() {
                latest = story.last_output_change_at;
                assert(stories[ids@[i as int]].last_output_change_at == latest);
            } else {
                proof {
                    let j = choose|j: int| 0 <= j < i && #[trigger] stories[ids@[j]].last_output_change_at == old_latest;
                    assert(stories[ids@[j]].last_output_change_at == latest);
                }
            }
            i = i + 1;
        }
        proof {
            if !stories.dom().is_empty() {
                let k = stories.dom().choose();
                assert(ids@.to_set().contains(k));
                assert(ids.len() > 0);
                let j = choose|j: int| 0 <= j < ids.len() && stories[ids@[j]].last_output_change_at == latest;
                assert(stories.contains_key(ids@[j]));
                assert forall|k: u64| #[trigger] stories.contains_key(k) implies stories[k].last_output_change_at.seconds() <= latest.seconds() by {
                    assert(ids@.to_set().contains(k));
                    let m = choose|m: int| 0 <= m < ids.len() && ids@[m] == k;
                    assert(stories[ids@[m]].last_output_change_at.seconds() <= latest.seconds());
                }
            } else {
                assert(ids@.len() == 0) by {
                    if ids@.len() > 0 {
                        assert(ids@.to_set().contains(ids@[0]));
                    }
                }
            }
        }
        self.last_output_change_at = latest;
    }
}

} // verus!
