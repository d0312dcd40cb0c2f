use std::collections::BTreeMap;
use vstd::prelude::*;

use crate::api::firebase::{DiscoveryResult, ItemFetchResult};
use crate::config::{threshold_list, THRESHOLDS};
use crate::error::AppError;
use crate::feed::atom::{self, atom_text};
use crate::feed::common::{build_view, feed_path, feed_path_text, headers_content, headers_text, is_feed_view, FeedModel};
use crate::feed::json_feed::{self, is_json_feed_doc, json_feed_text, law_json_feed_text_is_determined};
use crate::feed::order::law_feed_view_is_determined;
use crate::feed::rss::{self, rss_text};
use crate::html::index::{self, index_text};
use crate::json::JsonValue;
use crate::keys::{ascending_keys, ascending_seq, strictly_increasing};
use crate::output::{
    expected_path_set,
    feed_file_same,
    has_persisted_changes,
    persisted_changed,
    Artifacts,
    PersistedOutput,
};
use crate::state::round_trip::lemma_latest_change_unique;
use crate::state::cleanup::{cleaned_stories, cleanup_state, retention_cutoff};
use crate::state::store::{is_state_doc, law_state_text_is_determined, serialize_state, state_file_text};
use crate::state::threshold::previously_crossed;
use crate::state::update::{applied, apply_item};
use crate::time::Timestamp;
use crate::types::{is_latest_change, keyed_by_id, ApiItem, FeedFormat, LinkKind, State, StateModel, Story, StoryModel};
use vstd::utf8::encode_utf8;

verus! {

/// Whether one discovery list at least was fetched.
pub open spec fn discovery_ok(d: Seq<DiscoveryResult>) -> bool {
    exists|i: int| 0 <= i < d.len() && (#[trigger] d[i]).ids is Ok
}

/// Whether a fetched discovery list holds `x`.
pub open spec fn list_holds(r: DiscoveryResult, x: u64) -> bool {
    r.ids matches Ok(ids) && ids@.contains(x)
}

/// Whether one of the first `n` discovery lists holds `x`.
pub open spec fn discovered_in(d: Seq<DiscoveryResult>, n: int, x: u64) -> bool {
    exists|i: int| 0 <= i < n && list_holds(#[trigger] d[i], x)
}

/// The ids to fetch: every id of a fetched discovery list and every
/// kept story.
pub open spec fn fetch_set(d: Seq<DiscoveryResult>, kept: Set<u64>) -> Set<u64> {
    Set::new(|x: u64| discovered_in(d, d.len() as int, x) || kept.contains(x))
}

/// The ids to fetch this cycle, ascending, or `None` when no discovery list
/// could be fetched (the cycle then fails and changes nothing).
pub fn plan_fetch(state: &State, discovery: &Vec<DiscoveryResult>) -> (r: Option<Vec<u64>>)
    ensures
        r is None <==> !discovery_ok(discovery@),
        r matches Some(ids) ==> ids@ == ascending_seq(
            fetch_set(discovery@, state@.stories.dom()),
        ) && strictly_increasing(ids@) && ids@.to_set() == fetch_set(
            discovery@,
            state@.stories.dom(),
        ),
{
    let ghost d = discovery@;
    let mut any_ok = false;
    let mut set: BTreeMap<u64, bool> = BTreeMap::new();
    let kept_ids = ascending_keys(&state.stories);
    let mut j: usize = 0;
    while j < kept_ids.len()
        invariant
            0 <= j <= kept_ids@.len(),
            set@.dom() == kept_ids@.take(j as int).to_set(),
        decreases kept_ids.len() - j,
    {
        let ghost before = set@.dom();
        set.insert(kept_ids[j], true);
        assert(kept_ids@.take(j + 1) =~= kept_ids@.take(j as int).push(kept_ids@[j as int]));
        assert(set@.dom() =~= kept_ids@.take(j + 1).to_set()) by {
            broadcast use vstd::seq_lib::lemma_seq_contains_after_push;

        }
        j = j + 1;
    }
    assert(kept_ids@.take(kept_ids@.len() as int) =~= kept_ids@);
    let ghost kept = state@.stories.dom();
    assert(set@.dom() == kept);
    let mut i: usize = 0;
    while i < discovery.len()
        invariant
            0 <= i <= d.len(),
            d == discovery@,
            any_ok <==> exists|k: int| 0 <= k < i && (#[trigger] d[k]).ids is Ok,
            set@.dom() == Set::new(|x: u64| discovered_in(d, i as int, x) || kept.contains(x)),
        decreases d.len() - i,
    {
        match &discovery[i].ids {
            Ok(ids) => {
                any_ok = true;
                let mut k: usize = 0;
                while k < ids.len()
                    invariant
                        0 <= k <= ids@.len(),
                        d == discovery@,
                        i < d.len(),
                        d[i as int].ids == Ok::<Vec<u64>, String>(*ids),
                        set@.dom() == Set::new(
                            |x: u64|
                                discovered_in(d, i as int, x) || kept.contains(x) || ids@.take(
                                    k as int,
                                ).contains(x),
                        ),
                    decreases ids.len() - k,
                {
                    let id = ids[k];
                    set.insert(id, true);
                    assert(ids@.take(k + 1) =~= ids@.take(k as int).push(id));
                    assert(set@.dom() =~= Set::new(
                        |x: u64|
                            discovered_in(d, i as int, x) || kept.contains(x) || ids@.take(
                                k + 1,
                            ).contains(x),
                    )) by {
                        broadcast use vstd::seq_lib::lemma_seq_contains_after_push;

                    }
                    k = k + 1;
                }
                assert(ids@.take(ids@.len() as int) =~= ids@);
                assert forall|x: u64| #![trigger discovered_in(d, i + 1, x)]
                    discovered_in(d, i + 1, x) <==> (discovered_in(d, i as int, x) || ids@.contains(x)) by {
                    if discovered_in(d, i + 1, x) {
                        let w = choose|w: int| 0 <= w < i + 1 && list_holds(#[trigger] d[w], x);
                        if w < i {
                            assert(discovered_in(d, i as int, x));
                        }
                    }
                    if discovered_in(d, i as int, x) {
                        let w = choose|w: int| 0 <= w < i && list_holds(#[trigger] d[w], x);
                        assert(list_holds(d[w], x));
                    }
                    if ids@.contains(x) {
                        assert(list_holds(d[i as int], x));
                    }
                }
                assert(set@.dom() =~= Set::new(|x: u64| discovered_in(d, i + 1, x) || kept.contains(x)));
            },
            Err(_) => {
                assert forall|x: u64| #![trigger discovered_in(d, i + 1, x)]
                    discovered_in(d, i + 1, x) <==> discovered_in(d, i as int, x) by {
                    if discovered_in(d, i + 1, x) {
                        let w = choose|w: int| 0 <= w < i + 1 && list_holds(#[trigger] d[w], x);
                        assert(w != i);
                    }
                    if discovered_in(d, i as int, x) {
                        let w = choose|w: int| 0 <= w < i && list_holds(#[trigger] d[w], x);
                        assert(list_holds(d[w], x));
                    }
                }
                assert(set@.dom() =~= Set::new(|x: u64| discovered_in(d, i + 1, x) || kept.contains(x)));
            },
        }
        i = i + 1;
    }
    if !any_ok {
        return None;
    }
    assert(set@.dom() =~= fetch_set(d, kept));
    Some(ascending_keys(&set))
}

/// What a cycle did, for its log line.
#[derive(Clone, Copy, Debug)]
pub struct CycleCounts {
    pub fetched: usize,
    pub created: usize,
    pub crossings: usize,
    pub dead: usize,
}

/// The kept stories, the durable score history and the counts, as a
/// fold over fetch results sees them.
pub struct CycleModel {
    pub stories: Map<u64, StoryModel>,
    pub ledger: Map<u64, i64>,
    pub fetched: nat,
    pub created: nat,
    pub crossings: nat,
    pub dead: nat,
}

pub open spec fn story_at(stories: Map<u64, StoryModel>, id: u64) -> Option<StoryModel> {
    if stories.contains_key(id) {
        Some(stories[id])
    } else {
        None
    }
}

pub open spec fn ledger_at(ledger: Map<u64, i64>, id: u64) -> Option<i64> {
    if ledger.contains_key(id) {
        Some(ledger[id])
    } else {
        None
    }
}

/// The score history after observing `score` for `id`: the higher of the
/// two stays.
pub open spec fn raised_ledger(ledger: Map<u64, i64>, id: u64, observed: Option<i64>) -> Map<u64, i64> {
    match observed {
        Some(score) => ledger.insert(
            id,
            if ledger.contains_key(id) && ledger[id] > score {
                ledger[id]
            } else {
                score
            },
        ),
        None => ledger,
    }
}

pub open spec fn saturating(n: int) -> nat {
    if n > usize::MAX {
        usize::MAX as nat
    } else {
        n as nat
    }
}

/// One fetch result applied: a failed fetch changes nothing; a fetched item
/// goes through `applied` with the kept story and the durable maximum
/// of its id.
pub open spec fn result_applied(m: CycleModel, r: ItemFetchResult, cycle_time: Timestamp) -> CycleModel {
    match r.item {
        Err(_) => m,
        Ok(item) => {
            let (next, stats) = applied(
                story_at(m.stories, item.id),
                ledger_at(m.ledger, item.id),
                item,
                cycle_time,
            );
            CycleModel {
                stories: match next {
                    Some(s) => m.stories.insert(s.id, s),
                    None => m.stories.remove(item.id),
                },
                ledger: raised_ledger(m.ledger, item.id, stats.observed_score),
                fetched: m.fetched + 1,
                created: m.created + if stats.created {
                    1nat
                } else {
                    0nat
                },
                crossings: saturating(m.crossings + stats.crossings),
                dead: m.dead + if stats.dead_removed {
                    1nat
                } else {
                    0nat
                },
            }
        },
    }
}

/// The fetch results applied in order.
pub open spec fn results_applied(
    m: CycleModel,
    rs: Seq<ItemFetchResult>,
    cycle_time: Timestamp,
) -> CycleModel
    decreases rs.len(),
{
    if rs.len() == 0 {
        m
    } else {
        result_applied(results_applied(m, rs.drop_last(), cycle_time), rs.last(), cycle_time)
    }
}

pub open spec fn start_model(state: StateModel) -> CycleModel {
    CycleModel {
        stories: state.stories,
        ledger: state.max_scores,
        fetched: 0,
        created: 0,
        crossings: 0,
        dead: 0,
    }
}

/// Where the first result for `id` stands among the results.
pub open spec fn first_index(rs: Seq<ItemFetchResult>, id: u64) -> Option<int>
    decreases rs.len(),
{
    if rs.len() == 0 {
        None
    } else {
        match first_index(rs.drop_last(), id) {
            Some(i) => Some(i),
            None => if rs.last().id == id {
                Some(rs.len() - 1)
            } else {
                None
            },
        }
    }
}

/// The results in the order of the fetch plan: for each planned id, the
/// first result for it, if any. The order in which results arrived does
/// not matter.
pub open spec fn in_plan_order(plan: Seq<u64>, rs: Seq<ItemFetchResult>) -> Seq<ItemFetchResult>
    decreases plan.len(),
{
    if plan.len() == 0 {
        Seq::empty()
    } else {
        let prev = in_plan_order(plan.drop_last(), rs);
        match first_index(rs, plan.last()) {
            Some(i) => prev.push(rs[i]),
            None => prev,
        }
    }
}

proof fn lemma_first_index_facts(rs: Seq<ItemFetchResult>, id: u64)
    ensures
        first_index(rs, id) matches Some(i) ==> 0 <= i < rs.len() && rs[i].id == id && forall|j: int|
            0 <= j < i ==> (#[trigger] rs[j]).id != id,
        first_index(rs, id) is None ==> forall|j: int| 0 <= j < rs.len() ==> (#[trigger] rs[j]).id != id,
    decreases rs.len(),
{
    if rs.len() > 0 {
        lemma_first_index_facts(rs.drop_last(), id);
        assert forall|j: int| 0 <= j < rs.len() - 1 implies rs.drop_last()[j] == rs[j] by {}
    }
}

proof fn lemma_first_index_prefix(rs: Seq<ItemFetchResult>, id: u64, n: int)
    requires
        0 <= n <= rs.len(),
        first_index(rs.take(n), id) is Some,
    ensures
        first_index(rs, id) == first_index(rs.take(n), id),
    decreases rs.len() - n,
{
    if n < rs.len() {
        assert(rs.take(n + 1).drop_last() =~= rs.take(n));
        lemma_first_index_prefix(rs, id, n + 1);
    } else {
        assert(rs.take(n) =~= rs);
    }
}

fn find_result(results: &Vec<ItemFetchResult>, id: u64) -> (r: Option<usize>)
    ensures
        r matches Some(j) ==> first_index(results@, id) == Some(j as int),
        r is None ==> first_index(results@, id) is None,
{
    let mut j: usize = 0;
    assert(results@.take(0) =~= Seq::<ItemFetchResult>::empty());
    while j < results.len()
        invariant
            0 <= j <= results@.len(),
            first_index(results@.take(j as int), id) is None,
        decreases results.len() - j,
    {
        assert(results@.take(j + 1).drop_last() =~= results@.take(j as int));
        assert(results@.take(j + 1).last() == results@[j as int]);
        if results[j].id == id {
            proof {
                lemma_first_index_prefix(results@, id, j + 1);
            }
            return Some(j);
        }
        j = j + 1;
    }
    assert(results@.take(results@.len() as int) =~= results@);
    None
}

/// Applies one fetch result to the state and the counts.
fn apply_one(state: &mut State, result: &ItemFetchResult, counts: &mut CycleCounts, cycle_time: &Timestamp)
    requires
        old(counts).fetched < usize::MAX,
        ({
            let m = CycleModel {
                stories: old(state)@.stories,
                ledger: old(state)@.max_scores,
                fetched: old(counts).fetched as nat,
                created: old(counts).created as nat,
                crossings: old(counts).crossings as nat,
                dead: old(counts).dead as nat,
            };
            m.created <= m.fetched && m.dead <= m.fetched
        }),
    ensures
        ({
            let m = CycleModel {
                stories: old(state)@.stories,
                ledger: old(state)@.max_scores,
                fetched: old(counts).fetched as nat,
                created: old(counts).created as nat,
                crossings: old(counts).crossings as nat,
                dead: old(counts).dead as nat,
            };
            let n = result_applied(m, *result, *cycle_time);
            &&& final(state)@.stories == n.stories
            &&& final(state)@.max_scores == n.ledger
            &&& final(counts).fetched == n.fetched
            &&& final(counts).created == n.created
            &&& final(counts).crossings == n.crossings
            &&& final(counts).dead == n.dead
        }),
        final(counts).created <= final(counts).fetched,
        final(counts).dead <= final(counts).fetched,
        final(counts).fetched <= old(counts).fetched + 1,
        final(state)@.version == old(state)@.version,
{
    match &result.item {
        Ok(item) => {
            let id = item.id;
            let previous_max_score = match state.max_scores.get(&id) {
                Some(v) => Some(*v),
                None => None,
            };
            let ghost stories = state@.stories;
            let (next, stats) = apply_item(state.stories.get(&id), previous_max_score, item, cycle_time);
            proof {
                assert(story_at(stories, id) == match state.stories@.get(id) {
                    Some(s) => Some(s@),
                    None => None::<StoryModel>,
                });
            }
            counts.fetched = counts.fetched + 1;
            if stats.created {
                counts.created = counts.created + 1;
            }
            if stats.dead_removed {
                counts.dead = counts.dead + 1;
            }
            counts.crossings = counts.crossings.saturating_add(stats.crossings);
            match stats.observed_score {
                Some(score) => {
                    let raised = match state.max_scores.get(&id) {
                        Some(v) => if *v > score {
                            *v
                        } else {
                            score
                        },
                        None => score,
                    };
                    state.max_scores.insert(id, raised);
                },
                None => {},
            }
            let ghost before = state.stories@;
            match next {
                Some(story) => {
                    let ghost model = story@;
                    state.stories.insert(story.id, story);
                    assert(state.stories@.map_values(|s: Story| s@) =~= before.map_values(
                        |s: Story| s@,
                    ).insert(model.id, model));
                },
                None => {
                    state.stories.remove(&id);
                    assert(state.stories@.map_values(|s: Story| s@) =~= before.map_values(
                        |s: Story| s@,
                    ).remove(id));
                },
            }
        },
        Err(_) => {},
    }
}

/// Applies the fetch results to the state in the order of the fetch plan
/// (ascending ids), the first result for each planned id, keeps the durable
/// score history, and sets the state's change time.
pub fn apply_results(
    state: &mut State,
    plan: &Vec<u64>,
    results: &Vec<ItemFetchResult>,
    cycle_time: &Timestamp,
) -> (counts: CycleCounts)
    ensures
        ({
            let m = results_applied(
                start_model(old(state)@),
                in_plan_order(plan@, results@),
                *cycle_time,
            );
            &&& final(state)@.stories == m.stories
            &&& final(state)@.max_scores == m.ledger
            &&& counts.fetched == m.fetched
            &&& counts.created == m.created
            &&& counts.crossings == m.crossings
            &&& counts.dead == m.dead
        }),
        final(state)@.version == old(state)@.version,
        is_latest_change(final(state)@.stories, final(state)@.last_output_change_at),
{
    let ghost start = start_model(old(state)@);
    let mut counts = CycleCounts { fetched: 0, created: 0, crossings: 0, dead: 0 };
    let mut i: usize = 0;
    assert(plan@.take(0) =~= Seq::<u64>::empty());
    while i < plan.len()
        invariant
            0 <= i <= plan@.len(),
            start == start_model(old(state)@),
            state@.version == old(state)@.version,
            ({
                let m = results_applied(start, in_plan_order(plan@.take(i as int), results@), *cycle_time);
                &&& state@.stories == m.stories
                &&& state@.max_scores == m.ledger
                &&& counts.fetched == m.fetched
                &&& counts.created == m.created
                &&& counts.crossings == m.crossings
                &&& counts.dead == m.dead
            }),
            counts.created <= counts.fetched,
            counts.dead <= counts.fetched,
            counts.fetched <= i,
        decreases plan.len() - i,
    {
        let ghost before = in_plan_order(plan@.take(i as int), results@);
        assert(plan@.take(i + 1).drop_last() =~= plan@.take(i as int));
        assert(plan@.take(i + 1).last() == plan@[i as int]);
        match find_result(results, plan[i]) {
            Some(j) => {
                proof {
                    lemma_first_index_facts(results@, plan@[i as int]);
                    assert(before.push(results@[j as int]).drop_last() =~= before);
                }
                apply_one(state, &results[j], &mut counts, cycle_time);
            },
            None => {},
        }
        i = i + 1;
    }
    assert(plan@.take(plan@.len() as int) =~= plan@);
    state.recompute_last_output_change_at();
    counts
}

/// Law: the order in which fetch results arrive does not matter: two
/// lists of results with the same entries, one per id, are applied alike.
pub proof fn law_arrival_order_does_not_matter(plan: Seq<u64>, a: Seq<ItemFetchResult>, b: Seq<ItemFetchResult>)
    requires
        forall|i: int, j: int| 0 <= i < j < a.len() ==> (#[trigger] a[i]).id != (#[trigger] a[j]).id,
        forall|i: int, j: int| 0 <= i < j < b.len() ==> (#[trigger] b[i]).id != (#[trigger] b[j]).id,
        forall|r: ItemFetchResult| a.contains(r) <==> b.contains(r),
    ensures
        in_plan_order(plan, a) == in_plan_order(plan, b),
    decreases plan.len(),
{
    if plan.len() > 0 {
        law_arrival_order_does_not_matter(plan.drop_last(), a, b);
        let id = plan.last();
        lemma_first_index_facts(a, id);
        lemma_first_index_facts(b, id);
        match first_index(a, id) {
            Some(i) => {
                assert(a.contains(a[i]));
                assert(b.contains(a[i]));
                let k = choose|k: int| 0 <= k < b.len() && b[k] == a[i];
                match first_index(b, id) {
                    Some(j) => {
                        if j != k {
                            if j < k {
                                assert(b[j].id != b[k].id);
                            } else {
                                assert(b[k].id != b[j].id);
                            }
                        }
                    },
                    None => {
                        assert(b[k].id == id);
                    },
                }
            },
            None => {
                match first_index(b, id) {
                    Some(j) => {
                        assert(b.contains(b[j]));
                        assert(a.contains(b[j]));
                        let k = choose|k: int| 0 <= k < a.len() && a[k] == b[j];
                        assert(a[k].id == id);
                    },
                    None => {},
                }
            },
        }
    }
}

/// Law: the score history is durable: through any fetch results, no id
/// leaves it and no recorded maximum falls; an observed score is never
/// above the recorded maximum of its id afterwards.
pub proof fn law_score_history_is_durable(m: CycleModel, rs: Seq<ItemFetchResult>, cycle_time: Timestamp)
    ensures
        forall|k: u64| #[trigger]
            m.ledger.contains_key(k) ==> results_applied(m, rs, cycle_time).ledger.contains_key(k)
                && results_applied(m, rs, cycle_time).ledger[k] >= m.ledger[k],
    decreases rs.len(),
{
    if rs.len() > 0 {
        law_score_history_is_durable(m, rs.drop_last(), cycle_time);
    }
}

/// Law: applying one fetched item records its observed score in the
/// history.
pub proof fn law_observed_score_is_recorded(m: CycleModel, r: ItemFetchResult, cycle_time: Timestamp)
    requires
        r.item matches Ok(item) && applied(
            story_at(m.stories, item.id),
            ledger_at(m.ledger, item.id),
            item,
            cycle_time,
        ).1.observed_score is Some,
    ensures
        ({
            let item = r.item->Ok_0;
            let score = applied(
                story_at(m.stories, item.id),
                ledger_at(m.ledger, item.id),
                item,
                cycle_time,
            ).1.observed_score->Some_0;
            let after = result_applied(m, r, cycle_time).ledger;
            after.contains_key(item.id) && after[item.id] >= score
        }),
{
}

/// Law: stories stay kept under their own ids through any fetch results.
pub proof fn law_results_keep_stories_keyed_by_id(m: CycleModel, rs: Seq<ItemFetchResult>, cycle_time: Timestamp)
    requires
        keyed_by_id(m.stories),
    ensures
        keyed_by_id(results_applied(m, rs, cycle_time).stories),
    decreases rs.len(),
{
    if rs.len() > 0 {
        law_results_keep_stories_keyed_by_id(m, rs.drop_last(), cycle_time);
    }
}

/// Whether story `k` holds threshold `t` from before the cycle, with its
/// timestamp unchanged, in `after`.
pub open spec fn kept_from_before(m: CycleModel, after: CycleModel, k: u64, t: u16) -> bool {
    &&& m.stories.contains_key(k)
    &&& m.stories[k].thresholds.contains_key(t)
    &&& after.stories[k].thresholds[t] == m.stories[k].thresholds[t]
}

pub open spec fn holds_threshold(c: CycleModel, k: u64, t: u16) -> bool {
    c.stories.contains_key(k) && c.stories[k].thresholds.contains_key(t)
}

proof fn lemma_step_keeps_other_stories(c: CycleModel, r: ItemFetchResult, cycle_time: Timestamp, k: u64)
    requires
        keyed_by_id(c.stories),
        r.item matches Ok(item) && item.id != k,
    ensures
        result_applied(c, r, cycle_time).stories.contains_key(k) == c.stories.contains_key(k),
        c.stories.contains_key(k) ==> result_applied(c, r, cycle_time).stories[k] == c.stories[k],
{
    let item = r.item->Ok_0;
    let (next, stats) = applied(story_at(c.stories, item.id), ledger_at(c.ledger, item.id), item, cycle_time);
    if let Some(s) = next {
        if !item_is_invalid_or_gone(item) {
            if c.stories.contains_key(item.id) {
                assert(c.stories[item.id].id == item.id);
            }
        }
        assert(s.id == item.id);
    }
}

pub open spec fn item_is_invalid_or_gone(item: ApiItem) -> bool {
    crate::state::update::item_is_invalid(item) || !crate::state::update::item_is_story(item)
        || crate::state::update::item_is_dead(item)
}

/// Law: within a cycle, a story gains a threshold only where the score
/// history from before the cycle had not reached it, and records it at the
/// cycle time; every other threshold it holds was held before the cycle,
/// with the same timestamp.
pub proof fn law_thresholds_are_first_crossings_in_a_cycle(
    m: CycleModel,
    rs: Seq<ItemFetchResult>,
    cycle_time: Timestamp,
)
    requires
        keyed_by_id(m.stories),
    ensures
        forall|k: u64, t: u16|
            #[trigger] holds_threshold(results_applied(m, rs, cycle_time), k, t) ==> kept_from_before(
                m,
                results_applied(m, rs, cycle_time),
                k,
                t,
            ) || (!previously_crossed(ledger_at(m.ledger, k), t) && results_applied(
                m,
                rs,
                cycle_time,
            ).stories[k].thresholds[t] == cycle_time),
    decreases rs.len(),
{
    if rs.len() > 0 {
        let prev = results_applied(m, rs.drop_last(), cycle_time);
        let after = results_applied(m, rs, cycle_time);
        let r = rs.last();
        law_thresholds_are_first_crossings_in_a_cycle(m, rs.drop_last(), cycle_time);
        law_results_keep_stories_keyed_by_id(m, rs.drop_last(), cycle_time);
        law_score_history_is_durable(m, rs.drop_last(), cycle_time);
        assert(after == result_applied(prev, r, cycle_time));
        assert forall|k: u64, t: u16| #[trigger] holds_threshold(after, k, t) implies kept_from_before(
            m,
            after,
            k,
            t,
        ) || (!previously_crossed(ledger_at(m.ledger, k), t) && after.stories[k].thresholds[t]
            == cycle_time) by {
            match r.item {
                Err(_) => {
                    assert(holds_threshold(prev, k, t));
                },
                Ok(item) => {
                    if item.id != k {
                        lemma_step_keeps_other_stories(prev, r, cycle_time, k);
                        assert(holds_threshold(prev, k, t));
                    } else {
                        let existing = story_at(prev.stories, k);
                        let previous = ledger_at(prev.ledger, k);
                        let (next, stats) = applied(existing, previous, item, cycle_time);
                        if crate::state::update::item_is_invalid(item) {
                            assert(holds_threshold(prev, k, t));
                        } else {
                            let s = next->Some_0;
                            assert(after.stories[k] == s);
                            match existing {
                                Some(e) => {
                                    if e.thresholds.contains_key(t) {
                                        assert(holds_threshold(prev, k, t));
                                        assert(s.thresholds[t] == e.thresholds[t]);
                                    } else {
                                        assert(!previously_crossed(previous, t));
                                    }
                                },
                                None => {
                                    assert(!previously_crossed(previous, t));
                                },
                            }
                        }
                    }
                },
            }
        }
    }
}

/// Law: a failed fetch changes nothing, and a story for which no item
/// was fetched keeps every field.
pub proof fn law_unfetched_stories_are_unchanged(
    m: CycleModel,
    rs: Seq<ItemFetchResult>,
    cycle_time: Timestamp,
    k: u64,
)
    requires
        keyed_by_id(m.stories),
        forall|i: int| 0 <= i < rs.len() ==> !((#[trigger] rs[i]).item matches Ok(item) && item.id == k),
    ensures
        results_applied(m, rs, cycle_time).stories.contains_key(k) == m.stories.contains_key(k),
        m.stories.contains_key(k) ==> results_applied(m, rs, cycle_time).stories[k] == m.stories[k],
    decreases rs.len(),
{
    if rs.len() > 0 {
        let prev = results_applied(m, rs.drop_last(), cycle_time);
        assert forall|i: int| 0 <= i < rs.drop_last().len() implies !((#[trigger] rs.drop_last()[i]).item matches Ok(
            item,
        ) && item.id == k) by {
            assert(rs.drop_last()[i] == rs[i]);
        }
        law_unfetched_stories_are_unchanged(m, rs.drop_last(), cycle_time, k);
        law_results_keep_stories_keyed_by_id(m, rs.drop_last(), cycle_time);
        assert(!(rs[rs.len() - 1].item matches Ok(item) && item.id == k));
        if rs.last().item is Ok {
            lemma_step_keeps_other_stories(prev, rs.last(), cycle_time, k);
        }
    }
}

/// Law: every threshold a cycle records enters the score history: after
/// the cycle the history counts it as crossed, so no later cycle records
/// it again, even once it has expired.
pub proof fn law_recorded_thresholds_enter_history(
    m: CycleModel,
    rs: Seq<ItemFetchResult>,
    cycle_time: Timestamp,
)
    requires
        keyed_by_id(m.stories),
    ensures
        forall|k: u64, t: u16|
            #[trigger] holds_threshold(results_applied(m, rs, cycle_time), k, t) ==> kept_from_before(
                m,
                results_applied(m, rs, cycle_time),
                k,
                t,
            ) || previously_crossed(ledger_at(results_applied(m, rs, cycle_time).ledger, k), t),
    decreases rs.len(),
{
    if rs.len() > 0 {
        let prev = results_applied(m, rs.drop_last(), cycle_time);
        let after = results_applied(m, rs, cycle_time);
        let r = rs.last();
        law_recorded_thresholds_enter_history(m, rs.drop_last(), cycle_time);
        law_results_keep_stories_keyed_by_id(m, rs.drop_last(), cycle_time);
        assert(after == result_applied(prev, r, cycle_time));
        assert forall|k: u64, t: u16| #[trigger] holds_threshold(after, k, t) implies kept_from_before(
            m,
            after,
            k,
            t,
        ) || previously_crossed(ledger_at(after.ledger, k), t) by {
            match r.item {
                Err(_) => {
                    assert(holds_threshold(prev, k, t));
                },
                Ok(item) => {
                    let existing = story_at(prev.stories, item.id);
                    let previous = ledger_at(prev.ledger, item.id);
                    let (next, stats) = applied(existing, previous, item, cycle_time);
                    if item.id != k {
                        lemma_step_keeps_other_stories(prev, r, cycle_time, k);
                        assert(holds_threshold(prev, k, t));
                        assert(ledger_at(after.ledger, k) == ledger_at(prev.ledger, k));
                    } else if crate::state::update::item_is_invalid(item) {
                        assert(holds_threshold(prev, k, t));
                    } else {
                        let s = next->Some_0;
                        assert(after.stories[k] == s);
                        let score = crate::state::update::item_score(item);
                        assert(stats.observed_score == Some(score));
                        assert(after.ledger.contains_key(k) && after.ledger[k] >= score);
                        match existing {
                            Some(e) => {
                                if e.thresholds.contains_key(t) {
                                    assert(holds_threshold(prev, k, t));
                                    assert(s.thresholds[t] == e.thresholds[t]);
                                    if !kept_from_before(m, prev, k, t) {
                                        assert(previously_crossed(ledger_at(prev.ledger, k), t));
                                    }
                                }
                            },
                            None => {},
                        }
                    }
                },
            }
        }
    }
}

pub open spec fn kind_at(j: int) -> LinkKind {
    if j == 0 {
        LinkKind::Article
    } else {
        LinkKind::Comments
    }
}

pub open spec fn format_at(k: int) -> FeedFormat {
    if k == 0 {
        FeedFormat::Rss
    } else if k == 1 {
        FeedFormat::Atom
    } else {
        FeedFormat::Json
    }
}

/// Where the feed of threshold number `i`, link kind number `j` and format
/// number `k` stands among the feed files.
pub open spec fn feed_slot(i: int, j: int, k: int) -> int {
    6 * i + 3 * j + k
}

/// The bytes of a feed in its format.
pub open spec fn is_feed_bytes(format: FeedFormat, view: FeedModel, bytes: Seq<u8>) -> bool {
    match format {
        FeedFormat::Rss => bytes == encode_utf8(rss_text(view)),
        FeedFormat::Atom => bytes == encode_utf8(atom_text(view)),
        FeedFormat::Json => exists|doc: JsonValue|
            is_json_feed_doc(doc, view) && bytes == encode_utf8(#[trigger] json_feed_text(doc)),
    }
}

/// A feed file: its path, and the bytes of the feed of `threshold` for the
/// stories.
pub open spec fn is_feed_file(
    file: (String, Vec<u8>),
    stories: Map<u64, StoryModel>,
    base_url: Seq<char>,
    threshold: u16,
    kind: LinkKind,
    format: FeedFormat,
) -> bool {
    &&& file.0@ == feed_path_text(kind, format, threshold)
    &&& exists|view: FeedModel|
        is_feed_view(stories, threshold, kind, format, base_url, view) && #[trigger] is_feed_bytes(
            format,
            view,
            file.1@,
        )
}

/// The first `n` feed files are in place.
pub open spec fn feeds_filled(
    files: Seq<(String, Vec<u8>)>,
    stories: Map<u64, StoryModel>,
    base_url: Seq<char>,
    n: int,
) -> bool {
    forall|i: int, j: int, k: int|
        #![trigger feed_slot(i, j, k)]
        0 <= i < 16 && 0 <= j < 2 && 0 <= k < 3 && feed_slot(i, j, k) < n ==> is_feed_file(
            files[feed_slot(i, j, k)],
            stories,
            base_url,
            threshold_list()[i],
            kind_at(j),
            format_at(k),
        )
}

/// The artifacts of a state: every feed of every threshold, link kind and
/// format, `_headers`, the landing page and `state.json`.
pub open spec fn is_artifacts(a: Artifacts, state: StateModel, base_url: Seq<char>) -> bool {
    &&& a.feed_files@.len() == 96
    &&& feeds_filled(a.feed_files@, state.stories, base_url, 96)
    &&& a.headers_bytes@ == encode_utf8(headers_text())
    &&& a.index_bytes@ == encode_utf8(index_text(base_url, state.last_output_change_at))
    &&& exists|doc: JsonValue|
        is_state_doc(doc, state) && a.state_bytes@ == encode_utf8(#[trigger] state_file_text(doc))
}

fn kind_of(j: usize) -> (r: LinkKind)
    ensures
        r == kind_at(j as int),
{
    if j == 0 {
        LinkKind::Article
    } else {
        LinkKind::Comments
    }
}

fn format_of(k: usize) -> (r: FeedFormat)
    ensures
        r == format_at(k as int),
{
    if k == 0 {
        FeedFormat::Rss
    } else if k == 1 {
        FeedFormat::Atom
    } else {
        FeedFormat::Json
    }
}

fn feed_file(state: &State, threshold: u16, kind: LinkKind, format: FeedFormat, base_url: &str) -> (r: (
    String,
    Vec<u8>,
))
    ensures
        is_feed_file(r, state@.stories, base_url@, threshold, kind, format),
{
    let view = build_view(state, threshold, kind, format, base_url);
    let bytes = match format {
        FeedFormat::Rss => rss::render(&view),
        FeedFormat::Atom => atom::render(&view),
        FeedFormat::Json => json_feed::render(&view),
    };
    let r = (feed_path(kind, format, threshold), bytes);
    assert(is_feed_view(state@.stories, threshold, kind, format, base_url@, view@));
    assert(is_feed_bytes(format, view@, r.1@));
    r
}

proof fn lemma_slot_unique(i: int, j: int, k: int, a: int, b: int, c: int)
    requires
        0 <= i < 16 && 0 <= j < 2 && 0 <= k < 3,
        0 <= a < 16 && 0 <= b < 2 && 0 <= c < 3,
        feed_slot(i, j, k) == feed_slot(a, b, c),
    ensures
        i == a && j == b && k == c,
{
}

/// Renders every output of the state: the 96 feed files, `_headers`, the
/// landing page and `state.json`.
pub fn build_artifacts(state: &State, base_url: &str) -> (r: Result<Artifacts, AppError>)
    ensures
        r matches Ok(a) && is_artifacts(a, state@, base_url@),
{
    let mut files: Vec<(String, Vec<u8>)> = Vec::new();
    let ghost stories = state@.stories;
    let mut i: usize = 0;
    while i < 16
        invariant
            0 <= i <= 16,
            stories == state@.stories,
            THRESHOLDS@ == threshold_list(),
            files@.len() == 6 * i,
            feeds_filled(files@, stories, base_url@, 6 * i),
        decreases 16 - i,
    {
        let threshold = THRESHOLDS[i];
        let mut j: usize = 0;
        while j < 2
            invariant
                0 <= i < 16,
                0 <= j <= 2,
                stories == state@.stories,
                THRESHOLDS@ == threshold_list(),
                threshold == threshold_list()[i as int],
                files@.len() == 6 * i + 3 * j,
                feeds_filled(files@, stories, base_url@, 6 * i + 3 * j),
            decreases 2 - j,
        {
            let kind = kind_of(j);
            let mut k: usize = 0;
            while k < 3
                invariant
                    0 <= i < 16,
                    0 <= j < 2,
                    0 <= k <= 3,
                    stories == state@.stories,
                    THRESHOLDS@ == threshold_list(),
                    threshold == threshold_list()[i as int],
                    kind == kind_at(j as int),
                    files@.len() == 6 * i + 3 * j + k,
                    feeds_filled(files@, stories, base_url@, 6 * i + 3 * j + k),
                decreases 3 - k,
            {
                let format = format_of(k);
                let file = feed_file(state, threshold, kind, format, base_url);
                let ghost before = files@;
                files.push(file);
                proof {
                    let n = 6 * i + 3 * j + k;
                    assert(feed_slot(i as int, j as int, k as int) == n);
                    assert forall|a: int, b: int, c: int|
                        #![trigger feed_slot(a, b, c)]
                        0 <= a < 16 && 0 <= b < 2 && 0 <= c < 3 && feed_slot(a, b, c) < n + 1
                            implies is_feed_file(
                            files@[feed_slot(a, b, c)],
                            stories,
                            base_url@,
                            threshold_list()[a],
                            kind_at(b),
                            format_at(c),
                        ) by {
                        if feed_slot(a, b, c) == n {
                            lemma_slot_unique(a, b, c, i as int, j as int, k as int);
                        } else {
                            assert(files@[feed_slot(a, b, c)] == before[feed_slot(a, b, c)]);
                        }
                    }
                }
                k = k + 1;
            }
            j = j + 1;
        }
        i = i + 1;
    }
    let headers = headers_content();
    let state_bytes = match serialize_state(state) {
        Ok(bytes) => bytes,
        Err(e) => return Err(e),
    };
    let a = Artifacts {
        feed_files: files,
        headers_bytes: headers.as_str().as_bytes_vec(),
        index_bytes: index::render(base_url, &state.last_output_change_at),
        state_bytes,
    };
    Ok(a)
}

/// What the program must do next in a cycle.
#[derive(Debug)]
pub enum Action {
    /// Fetch the three discovery lists.
    FetchDiscovery,
    /// Fetch these items.
    FetchItems(Vec<u64>),
    /// Read what the previous cycle left on disk, to compare.
    CompareOutputs,
    /// Write the artifacts.
    Persist,
    /// Stop with this exit code: 0 written, 1 failed, 2 nothing changed.
    Exit(u8),
}

/// One update cycle: the state it works on and what it has done.
pub struct Cycle {
    pub state: State,
    pub cycle_time: Timestamp,
    pub base_url: String,
    pub plan: Vec<u64>,
    pub counts: CycleCounts,
    pub artifacts: Option<Artifacts>,
}

impl Cycle {
    /// Starts a cycle on the loaded state: expired thresholds and stories
    /// without thresholds go, then the discovery lists are fetched.
    pub fn start(state: State, cycle_time: Timestamp, base_url: String) -> (r: (Cycle, Action))
        ensures
            r.0.state@.stories == cleaned_stories(state@.stories, retention_cutoff(cycle_time)),
            r.0.state@.max_scores == state@.max_scores,
            r.0.state@.version == state@.version,
            is_latest_change(r.0.state@.stories, r.0.state@.last_output_change_at),
            r.0.cycle_time == cycle_time,
            r.0.base_url@ == base_url@,
            r.0.artifacts is None,
            r.0.plan@.len() == 0,
            r.0.counts == (CycleCounts { fetched: 0, created: 0, crossings: 0, dead: 0 }),
            r.1 is FetchDiscovery,
    {
        let mut state = state;
        cleanup_state(&mut state, &cycle_time);
        let cycle = Cycle {
            state,
            cycle_time,
            base_url,
            plan: Vec::new(),
            counts: CycleCounts { fetched: 0, created: 0, crossings: 0, dead: 0 },
            artifacts: None,
        };
        (cycle, Action::FetchDiscovery)
    }

    /// After discovery: without one fetched list the cycle fails; otherwise
    /// every discovered id and every kept story is fetched.
    pub fn on_discovery(&mut self, discovery: &Vec<DiscoveryResult>) -> (r: Action)
        ensures
            !discovery_ok(discovery@) ==> r == Action::Exit(1),
            discovery_ok(discovery@) ==> (r matches Action::FetchItems(ids) && ids@ == ascending_seq(
                fetch_set(discovery@, old(self).state@.stories.dom()),
            ) && final(self).plan@ == ids@),
            final(self).state == old(self).state,
            final(self).cycle_time == old(self).cycle_time,
            final(self).base_url == old(self).base_url,
            final(self).counts == old(self).counts,
            final(self).artifacts == old(self).artifacts,
    {
        match plan_fetch(&self.state, discovery) {
            Some(ids) => {
                self.plan = ids.clone();
                Action::FetchItems(ids)
            },
            None => Action::Exit(1),
        }
    }

    /// After the items: they are applied in the order of the fetch plan,
    /// and the outputs are rendered and compared with what is on disk.
    pub fn on_items(&mut self, results: &Vec<ItemFetchResult>) -> (r: Action)
        ensures
            ({
                let m = results_applied(
                    start_model(old(self).state@),
                    in_plan_order(old(self).plan@, results@),
                    old(self).cycle_time,
                );
                &&& final(self).state@.stories == m.stories
                &&& final(self).state@.max_scores == m.ledger
                &&& final(self).counts.fetched == m.fetched
                &&& final(self).counts.created == m.created
                &&& final(self).counts.crossings == m.crossings
                &&& final(self).counts.dead == m.dead
            }),
            final(self).state@.version == old(self).state@.version,
            is_latest_change(final(self).state@.stories, final(self).state@.last_output_change_at),
            final(self).cycle_time == old(self).cycle_time,
            final(self).base_url@ == old(self).base_url@,
            final(self).artifacts matches Some(a) && is_artifacts(a, final(self).state@, final(self).base_url@),
            r is CompareOutputs,
    {
        self.counts = apply_results(&mut self.state, &self.plan, results, &self.cycle_time);
        match build_artifacts(&self.state, self.base_url.as_str()) {
            Ok(a) => self.artifacts = Some(a),
            Err(_) => {},
        }
        Action::CompareOutputs
    }

    /// After reading the previous outputs: write only when something
    /// changed, else stop with 2.
    pub fn on_compared(&self, existing: &PersistedOutput) -> (r: Action)
        requires
            self.artifacts is Some,
        ensures
            persisted_changed(*existing, self.artifacts->Some_0) ==> r is Persist,
            !persisted_changed(*existing, self.artifacts->Some_0) ==> r == Action::Exit(2),
    {
        match &self.artifacts {
            Some(a) => if has_persisted_changes(existing, a) {
                Action::Persist
            } else {
                Action::Exit(2)
            },
            None => Action::Exit(2),
        }
    }

    /// After writing: the cycle succeeded.
    pub fn on_persisted(&self) -> (r: Action)
        ensures
            r == Action::Exit(0),
    {
        Action::Exit(0)
    }
}

proof fn lemma_feed_files_same(
    x: (String, Vec<u8>),
    y: (String, Vec<u8>),
    stories: Map<u64, StoryModel>,
    base_url: Seq<char>,
    threshold: u16,
    kind: LinkKind,
    format: FeedFormat,
)
    requires
        is_feed_file(x, stories, base_url, threshold, kind, format),
        is_feed_file(y, stories, base_url, threshold, kind, format),
    ensures
        x.0@ == y.0@,
        x.1@ == y.1@,
{
    let vx = choose|view: FeedModel|
        is_feed_view(stories, threshold, kind, format, base_url, view) && #[trigger] is_feed_bytes(
            format,
            view,
            x.1@,
        );
    let vy = choose|view: FeedModel|
        is_feed_view(stories, threshold, kind, format, base_url, view) && #[trigger] is_feed_bytes(
            format,
            view,
            y.1@,
        );
    law_feed_view_is_determined(stories, threshold, kind, format, base_url, vx, vy);
    if format == FeedFormat::Json {
        let dx = choose|doc: JsonValue|
            is_json_feed_doc(doc, vx) && x.1@ == encode_utf8(#[trigger] json_feed_text(doc));
        let dy = choose|doc: JsonValue|
            is_json_feed_doc(doc, vx) && y.1@ == encode_utf8(#[trigger] json_feed_text(doc));
        law_json_feed_text_is_determined(dx, dy, vx);
    }
}

/// Law: the outputs of a cycle are fixed by the state and the base URL:
/// two sets of artifacts of the same state hold the same paths and the
/// same bytes, file for file.
#[verifier::spinoff_prover]
#[verifier::rlimit(40)]
pub proof fn law_artifacts_are_determined(a: Artifacts, b: Artifacts, state: StateModel, base_url: Seq<char>)
    requires
        is_artifacts(a, state, base_url),
        is_artifacts(b, state, base_url),
    ensures
        a.feed_files@.len() == b.feed_files@.len(),
        forall|n: int|
            0 <= n < a.feed_files@.len() ==> (#[trigger] a.feed_files@[n]).0@ == b.feed_files@[n].0@
                && a.feed_files@[n].1@ == b.feed_files@[n].1@,
        a.headers_bytes@ == b.headers_bytes@,
        a.index_bytes@ == b.index_bytes@,
        a.state_bytes@ == b.state_bytes@,
{
    assert forall|n: int| 0 <= n < a.feed_files@.len() implies (#[trigger] a.feed_files@[n]).0@
        == b.feed_files@[n].0@ && a.feed_files@[n].1@ == b.feed_files@[n].1@ by {
        let i = n / 6;
        let j = (n % 6) / 3;
        let k = n % 3;
        assert(feed_slot(i, j, k) == n && 0 <= i < 16 && 0 <= j < 2 && 0 <= k < 3) by {
            assert(n == 6 * (n / 6) + n % 6);
            assert(n % 6 == 3 * ((n % 6) / 3) + (n % 6) % 3);
            assert((n % 6) % 3 == n % 3);
        }
        lemma_feed_files_same(
            a.feed_files@[n],
            b.feed_files@[n],
            state.stories,
            base_url,
            threshold_list()[i],
            kind_at(j),
            format_at(k),
        );
    }
    let da = choose|doc: JsonValue|
        is_state_doc(doc, state) && a.state_bytes@ == encode_utf8(#[trigger] state_file_text(doc));
    let db = choose|doc: JsonValue|
        is_state_doc(doc, state) && b.state_bytes@ == encode_utf8(#[trigger] state_file_text(doc));
    law_state_text_is_determined(da, db, state);
}

/// The state a cycle ends with, as the steps of `Cycle` state it: the
/// stories of `before` cleaned up at the cycle time, the results applied
/// in the order of the fetch plan made from the discovery lists, the
/// version kept, and the change time the latest of the stories'.
pub open spec fn is_cycle_outcome(
    before: StateModel,
    cycle_time: Timestamp,
    discovery: Seq<DiscoveryResult>,
    results: Seq<ItemFetchResult>,
    after: StateModel,
) -> bool {
    let cleaned = cleaned_stories(before.stories, retention_cutoff(cycle_time));
    let plan = ascending_seq(fetch_set(discovery, cleaned.dom()));
    let m = results_applied(
        CycleModel {
            stories: cleaned,
            ledger: before.max_scores,
            fetched: 0,
            created: 0,
            crossings: 0,
            dead: 0,
        },
        in_plan_order(plan, results),
        cycle_time,
    );
    &&& after.stories == m.stories
    &&& after.max_scores == m.ledger
    &&& after.version == before.version
    &&& is_latest_change(after.stories, after.last_output_change_at)
}

/// Law: a cycle is deterministic: from the same state, cycle time,
/// discovery lists, fetch results and base URL, it ends with the same
/// state, renders byte-identical outputs, and decides alike whether to
/// write them, whatever is on disk.
pub proof fn law_cycle_is_determined(
    before: StateModel,
    cycle_time: Timestamp,
    discovery: Seq<DiscoveryResult>,
    results: Seq<ItemFetchResult>,
    base_url: Seq<char>,
    s1: StateModel,
    s2: StateModel,
    a1: Artifacts,
    a2: Artifacts,
)
    requires
        is_cycle_outcome(before, cycle_time, discovery, results, s1),
        is_cycle_outcome(before, cycle_time, discovery, results, s2),
        is_artifacts(a1, s1, base_url),
        is_artifacts(a2, s2, base_url),
    ensures
        s1 == s2,
        a1.feed_files@.len() == a2.feed_files@.len(),
        forall|n: int|
            0 <= n < a1.feed_files@.len() ==> (#[trigger] a1.feed_files@[n]).0@ == a2.feed_files@[n].0@
                && a1.feed_files@[n].1@ == a2.feed_files@[n].1@,
        a1.headers_bytes@ == a2.headers_bytes@,
        a1.index_bytes@ == a2.index_bytes@,
        a1.state_bytes@ == a2.state_bytes@,
        forall|o: PersistedOutput| #[trigger] persisted_changed(o, a1) == persisted_changed(o, a2),
{
    lemma_latest_change_unique(s1.stories, s1.last_output_change_at, s2.last_output_change_at);
    assert(s1 =~= s2);
    law_artifacts_are_determined(a1, a2, s1, base_url);
    assert(expected_path_set(a1) =~= expected_path_set(a2)) by {
        assert forall|p: Seq<char>| expected_path_set(a1).contains(p) implies expected_path_set(
            a2,
        ).contains(p) by {
            if exists|i: int| 0 <= i < a1.feed_files@.len() && #[trigger] a1.feed_files@[i].0@ == p {
                let i = choose|i: int| 0 <= i < a1.feed_files@.len() && #[trigger] a1.feed_files@[i].0@ == p;
                assert(a2.feed_files@[i].0@ == p);
            }
        }
        assert forall|p: Seq<char>| expected_path_set(a2).contains(p) implies expected_path_set(
            a1,
        ).contains(p) by {
            if exists|i: int| 0 <= i < a2.feed_files@.len() && #[trigger] a2.feed_files@[i].0@ == p {
                let i = choose|i: int| 0 <= i < a2.feed_files@.len() && #[trigger] a2.feed_files@[i].0@ == p;
                assert(a1.feed_files@[i].0@ == p);
            }
        }
    }
    assert forall|o: PersistedOutput| #[trigger] persisted_changed(o, a1) == persisted_changed(o, a2) by {
        assert forall|i: int| 0 <= i < a1.feed_files@.len() implies #[trigger] feed_file_same(o, a1, i)
            == feed_file_same(o, a2, i) by {
            assert(a1.feed_files@[i].1@ == a2.feed_files@[i].1@);
        }
        if exists|i: int| 0 <= i < a1.feed_files@.len() && !#[trigger] feed_file_same(o, a1, i) {
            let i = choose|i: int| 0 <= i < a1.feed_files@.len() && !#[trigger] feed_file_same(o, a1, i);
            assert(!feed_file_same(o, a2, i));
        }
        if exists|i: int| 0 <= i < a2.feed_files@.len() && !#[trigger] feed_file_same(o, a2, i) {
            let i = choose|i: int| 0 <= i < a2.feed_files@.len() && !#[trigger] feed_file_same(o, a2, i);
            assert(!feed_file_same(o, a1, i));
        }
    }
}

} // verus!
