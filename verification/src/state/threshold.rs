use std::collections::BTreeMap;
use vstd::prelude::*;

use crate::config::{is_threshold, threshold_list, THRESHOLDS};
use crate::time::Timestamp;

verus! {

/// A score reaches threshold `t` when it is at least `t`; every score
/// reaches threshold 0, negative ones too.
pub open spec fn score_reaches(score: i64, t: u16) -> bool {
    t == 0 || score >= t
}

/// Whether the durable score history already counts threshold `t` as crossed.
pub open spec fn previously_crossed(previous_max_score: Option<i64>, t: u16) -> bool {
    match previous_max_score {
        None => false,
        Some(previous) => t == 0 || previous >= t,
    }
}

/// A threshold that this score crosses for the first time.
pub open spec fn newly_crossed(previous_max_score: Option<i64>, score: i64, t: u16) -> bool {
    is_threshold(t) && score_reaches(score, t) && !previously_crossed(previous_max_score, t)
}

/// The threshold map after a score is observed at `at`: every existing entry
/// keeps its timestamp, and each threshold crossed for the first time, that
/// has no entry yet, gets `at`.
pub open spec fn thresholds_after(
    old: Map<u16, Timestamp>,
    previous_max_score: Option<i64>,
    score: i64,
    at: Timestamp,
) -> Map<u16, Timestamp> {
    Map::new(
        |t: u16| old.contains_key(t) || newly_crossed(previous_max_score, score, t),
        |t: u16| if old.contains_key(t) { old[t] } else { at },
    )
}

pub open spec fn reaches_pred(score: i64) -> spec_fn(u16) -> bool {
    |t: u16| score_reaches(score, t)
}

/// The thresholds that `score` reaches, ascending.
pub fn crossed_thresholds(score: i64) -> (r: Vec<u16>)
    ensures
        r@ == threshold_list().filter(reaches_pred(score)),
{
    let mut r: Vec<u16> = Vec::new();
    let ts = THRESHOLDS;
    assert(ts@ =~= threshold_list());
    let mut i: usize = 0;
    while i < 16
        invariant
            0 <= i <= 16,
            ts@ == threshold_list(),
            r@ == threshold_list().take(i as int).filter(reaches_pred(score)),
        decreases 16 - i,
    {
        let t = ts[i];
        proof {
            reveal_with_fuel(Seq::<_>::filter, 1);
            assert(threshold_list().take(i + 1).drop_last() =~= threshold_list().take(i as int));
        }
        if t == 0 || score >= t as i64 {
            r.push(t);
        }
        i = i + 1;
    }
    assert(threshold_list().take(16) =~= threshold_list());
    r
}

/// Records, at `cycle_time`, each threshold that `score` crosses for the
/// first time and that has no entry yet; returns how many were recorded.
pub fn record_crossings(
    thresholds: &mut BTreeMap<u16, Timestamp>,
    previous_max_score: Option<i64>,
    score: i64,
    cycle_time: &Timestamp,
) -> (added: usize)
    ensures
        final(thresholds)@ == thresholds_after(old(thresholds)@, previous_max_score, score, *cycle_time),
        added == final(thresholds)@.len() - old(thresholds)@.len(),
{
    let crossed = crossed_thresholds(score);
    let ghost old_map = thresholds@;
    let ghost pred = reaches_pred(score);
    let mut added: usize = 0;
    let mut i: usize = 0;
    while i < crossed.len()
        invariant
            0 <= i <= crossed.len(),
            crossed@ == threshold_list().filter(pred),
            pred == reaches_pred(score),
            forall|k: u16| #[trigger]
                thresholds@.contains_key(k) <==> old_map.contains_key(k) || (
                crossed@.take(i as int).contains(k) && !previously_crossed(previous_max_score, k)),
            forall|k: u16| #[trigger]
                thresholds@.contains_key(k) ==> thresholds@[k] == if old_map.contains_key(k) {
                    old_map[k]
                } else {
                    *cycle_time
                },
            thresholds@.dom().finite(),
            old_map.dom().finite(),
            added == thresholds@.len() - old_map.len(),
            added <= i,
        decreases crossed.len() - i,
    {
        let t = crossed[i];
        proof {
            assert(crossed@.take(i + 1) =~= crossed@.take(i as int).push(t));
        }
        let previously = match previous_max_score {
            None => false,
            Some(previous) => t == 0 || previous >= t as i64,
        };
        if !previously {
            if !thresholds.contains_key(&t) {
                thresholds.insert(t, *cycle_time);
                added = added + 1;
            }
        }
        proof {
            let s0 = crossed@.take(i as int);
            let s1 = crossed@.take(i + 1);
            assert(s1 =~= s0.push(t));
            assert forall|k: u16| s1.contains(k) <==> (s0.contains(k) || k == t) by {
                if s1.contains(k) && k != t {
                    let j = choose|j: int| 0 <= j < s1.len() && #[trigger] s1[j] == k;
                    assert(s0[j] == k);
                }
                if k == t {
                    assert(s1[s0.len() as int] == k);
                }
                if s0.contains(k) {
                    let j = choose|j: int| 0 <= j < s0.len() && #[trigger] s0[j] == k;
                    assert(s1[j] == k);
                }
            }
        }
        i = i + 1;
    }
    proof {
        assert(crossed@.take(crossed@.len() as int) =~= crossed@);
        assert forall|k: u16| #[trigger] crossed@.contains(k) <==> is_threshold(k) && score_reaches(score, k) by {
            if is_threshold(k) && score_reaches(score, k) {
                let j = choose|j: int| 0 <= j < threshold_list().len() && threshold_list()[j] == k;
                assert(pred(threshold_list()[j]));
            }
            if crossed@.contains(k) {
                let j = choose|j: int| 0 <= j < crossed@.len() && crossed@[j] == k;
                assert(pred(crossed@[j]));
                threshold_list().lemma_filter_contains_rev(pred, k);
            }
        }
        assert(thresholds@ =~= thresholds_after(old_map, previous_max_score, score, *cycle_time));
    }
    added
}

proof fn lemma_reached_prefix(s: Seq<u16>, score: i64) -> (k: int)
    requires
        forall|i: int, j: int| 0 <= i < j < s.len() ==> s[i] < s[j],
    ensures
        0 <= k <= s.len(),
        s.filter(reaches_pred(score)) == s.take(k),
        forall|i: int| 0 <= i < k ==> score_reaches(score, #[trigger] s[i]),
        forall|i: int| k <= i < s.len() ==> !score_reaches(score, #[trigger] s[i]),
    decreases s.len(),
{
    reveal_with_fuel(Seq::<_>::filter, 1);
    if s.len() == 0 {
        assert(s.take(0) =~= s);
        0
    } else {
        let d = s.drop_last();
        let k0 = lemma_reached_prefix(d, score);
        let n = s.len() - 1;
        if score_reaches(score, s[n]) {
            assert forall|i: int| 0 <= i < n implies score_reaches(score, #[trigger] s[i]) by {
                assert(s[i] < s[n]);
            }
            if k0 < n {
                assert(score_reaches(score, s[k0]));
                assert(!score_reaches(score, d[k0]));
            }
            assert(d.take(k0) =~= d);
            assert(s.filter(reaches_pred(score)) =~= s);
            assert(s.take(s.len() as int) =~= s);
            s.len() as int
        } else {
            assert(s.take(k0) =~= d.take(k0));
            assert forall|i: int| k0 <= i < s.len() implies !score_reaches(score, #[trigger] s[i]) by {
                if i < n {
                    assert(d[i] == s[i]);
                }
            }
            assert forall|i: int| 0 <= i < k0 implies score_reaches(score, #[trigger] s[i]) by {
                assert(d[i] == s[i]);
            }
            k0
        }
    }
}

/// Law: the thresholds a score reaches are the first few of the threshold
/// list, always starting with 0; a higher score reaches an extension of
/// them.
pub proof fn law_crossings_grow_with_score(score: i64, higher: i64)
    requires
        score <= higher,
    ensures
        threshold_list().filter(reaches_pred(score)).len() >= 1,
        threshold_list().filter(reaches_pred(score))[0] == 0,
        threshold_list().filter(reaches_pred(score)) == threshold_list().take(
            threshold_list().filter(reaches_pred(score)).len() as int,
        ),
        threshold_list().filter(reaches_pred(score)).len() <= threshold_list().filter(
            reaches_pred(higher),
        ).len(),
        threshold_list().filter(reaches_pred(higher)).take(
            threshold_list().filter(reaches_pred(score)).len() as int,
        ) == threshold_list().filter(reaches_pred(score)),
{
    let s = threshold_list();
    let k = lemma_reached_prefix(s, score);
    let h = lemma_reached_prefix(s, higher);
    assert(score_reaches(score, s[0]));
    if h < k {
        assert(score_reaches(score, s[h]));
        assert(!score_reaches(higher, s[h]));
    }
    assert(s.take(h).take(k) =~= s.take(k));
}

} // verus!
