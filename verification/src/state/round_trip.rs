use vstd::prelude::*;

use crate::config::STATE_VERSION;
use crate::json::JsonValue;
use crate::keys::{ascending_seq, ascending_seq_u16};
use crate::state::store::{
    field,
    is_state_doc,
    is_story_doc,
    is_thresholds_doc,
    ledger_malformed,
    ledger_of,
    lookup,
    parsed_ledger,
    parsed_stories,
    parsed_story,
    parsed_thresholds,
    stories_of,
    story_fields_ok,
    thresholds_of,
    version_ok,
};
use crate::text::{decimal, is_digit, lemma_decimal_digits, parse_unsigned, unsigned_digits};
use crate::time::Timestamp;
use crate::types::{is_latest_change, keyed_by_id, StateModel, StoryModel};

verus! {

/// A state as the program keeps it: the current version, each story under
/// its own id, and the state's change time the latest of its stories'.
pub open spec fn is_valid_state(m: StateModel) -> bool {
    &&& m.version == STATE_VERSION
    &&& keyed_by_id(m.stories)
    &&& is_latest_change(m.stories, m.last_output_change_at)
}

/// The decimal text of a number reads back as the number.
pub proof fn lemma_parse_decimal(n: nat, max: int)
    requires
        n <= max,
    ensures
        parse_unsigned(decimal(n), max) == Some(n as int),
{
    lemma_decimal_digits(n);
    let d = decimal(n);
    assert(is_digit(d[0]));
    assert(unsigned_digits(d) == d);
}

proof fn lemma_take_next<A>(s: Seq<A>, n: int)
    requires
        0 < n <= s.len(),
    ensures
        forall|x: A| #[trigger] s.take(n).contains(x) <==> (s.take(n - 1).contains(x) || x == s[n - 1]),
{
    assert forall|x: A| #[trigger] s.take(n).contains(x) <==> (s.take(n - 1).contains(x) || x
        == s[n - 1]) by {
        if s.take(n).contains(x) {
            let j = choose|j: int| 0 <= j < n && #[trigger] s.take(n)[j] == x;
            if j < n - 1 {
                assert(s.take(n - 1)[j] == x);
            }
        }
        if s.take(n - 1).contains(x) {
            let j = choose|j: int| 0 <= j < n - 1 && #[trigger] s.take(n - 1)[j] == x;
            assert(s.take(n)[j] == x);
        }
        if x == s[n - 1] {
            assert(s.take(n)[n - 1] == x);
        }
    }
}

/// The member `i` is the last one named `key`, so a lookup finds it.
proof fn lemma_lookup_at(ms: Seq<(String, JsonValue)>, i: int, key: Seq<char>)
    requires
        0 <= i < ms.len(),
        ms[i].0@ == key,
        forall|j: int| i < j < ms.len() ==> (#[trigger] ms[j]).0@ != key,
    ensures
        lookup(ms, key) == Some(ms[i].1),
    decreases ms.len(),
{
    if i < ms.len() - 1 {
        assert(ms.last() == ms[ms.len() - 1]);
        lemma_lookup_at(ms.drop_last(), i, key);
    }
}

proof fn lemma_thresholds_prefix(ms: Seq<(String, JsonValue)>, t: Map<u16, Timestamp>, keys: Seq<u16>, n: int)
    requires
        0 <= n <= ms.len(),
        ms.len() == keys.len(),
        forall|i: int|
            0 <= i < keys.len() ==> crate::state::store::time_member(
                #[trigger] ms[i],
                decimal(keys[i] as nat),
                t[keys[i]],
            ),
    ensures
        parsed_thresholds(ms.take(n)) == Some(
            Map::new(|k: u16| keys.take(n).contains(k), |k: u16| t[k]),
        ),
    decreases n,
{
    if n == 0 {
        assert(ms.take(0) =~= Seq::<(String, JsonValue)>::empty());
        assert(Map::new(|k: u16| keys.take(0).contains(k), |k: u16| t[k]) =~= Map::<
            u16,
            Timestamp,
        >::empty());
    } else {
        lemma_thresholds_prefix(ms, t, keys, n - 1);
        assert(ms.take(n).drop_last() =~= ms.take(n - 1));
        assert(ms.take(n).last() == ms[n - 1]);
        let k = keys[n - 1];
        assert(crate::state::store::time_member(ms[n - 1], decimal(k as nat), t[k]));
        lemma_parse_decimal(k as nat, u16::MAX as int);
        Timestamp::lemma_at_seconds(t[k].seconds(), t[k]);
        lemma_take_next(keys, n);
        assert(Map::new(|x: u16| keys.take(n - 1).contains(x), |x: u16| t[x]).insert(
            k,
            Timestamp::at_seconds(t[k].seconds()),
        ) =~= Map::new(|x: u16| keys.take(n).contains(x), |x: u16| t[x]));
    }
}

proof fn lemma_thresholds_parse(doc: JsonValue, t: Map<u16, Timestamp>)
    requires
        is_thresholds_doc(doc, t),
    ensures
        parsed_thresholds(doc->Object_0@) == Some(t),
{
    let ms = doc->Object_0@;
    let keys = ascending_seq_u16(t.dom());
    lemma_thresholds_prefix(ms, t, keys, ms.len() as int);
    assert(ms.take(ms.len() as int) =~= ms);
    assert(keys.take(keys.len() as int) =~= keys);
    assert forall|k: u16| keys.contains(k) <==> t.dom().contains(k) by {
        assert(keys.to_set().contains(k) <==> keys.contains(k));
    }
    assert(Map::new(|k: u16| keys.contains(k), |k: u16| t[k]) =~= t);
}

/// A story object reads back as the story it was written from.
pub proof fn lemma_story_doc_parses(doc: JsonValue, s: StoryModel)
    requires
        is_story_doc(doc, s),
    ensures
        parsed_story(decimal(s.id as nat), doc) == Some((s.id, s)),
{
    reveal_strlit("id");
    reveal_strlit("title");
    reveal_strlit("url");
    reveal_strlit("hn_url");
    reveal_strlit("score");
    reveal_strlit("max_score");
    reveal_strlit("comments");
    reveal_strlit("by");
    reveal_strlit("first_seen");
    reveal_strlit("story_time");
    reveal_strlit("last_output_change_at");
    reveal_strlit("thresholds");
    assert("id"@.len() == 2 && "id"@[0] == 'i');
    assert("title"@.len() == 5 && "title"@[0] == 't');
    assert("url"@.len() == 3 && "url"@[0] == 'u');
    assert("hn_url"@.len() == 6 && "hn_url"@[0] == 'h');
    assert("score"@.len() == 5 && "score"@[0] == 's');
    assert("max_score"@.len() == 9 && "max_score"@[0] == 'm');
    assert("comments"@.len() == 8 && "comments"@[0] == 'c');
    assert("by"@.len() == 2 && "by"@[0] == 'b');
    assert("first_seen"@.len() == 10 && "first_seen"@[0] == 'f');
    assert("story_time"@.len() == 10 && "story_time"@[0] == 's');
    assert("last_output_change_at"@.len() == 21 && "last_output_change_at"@[0] == 'l');
    assert("thresholds"@.len() == 10 && "thresholds"@[0] == 't');
    let ms = doc->Object_0@;
    assert forall|j: int| 0 < j < 12 implies (#[trigger] ms[j]).0@ != "id"@ by {}
    lemma_lookup_at(ms, 0, "id"@);
    assert forall|j: int| 1 < j < 12 implies (#[trigger] ms[j]).0@ != "title"@ by {}
    lemma_lookup_at(ms, 1, "title"@);
    assert forall|j: int| 2 < j < 12 implies (#[trigger] ms[j]).0@ != "url"@ by {}
    lemma_lookup_at(ms, 2, "url"@);
    assert forall|j: int| 3 < j < 12 implies (#[trigger] ms[j]).0@ != "hn_url"@ by {}
    lemma_lookup_at(ms, 3, "hn_url"@);
    assert forall|j: int| 4 < j < 12 implies (#[trigger] ms[j]).0@ != "score"@ by {}
    lemma_lookup_at(ms, 4, "score"@);
    assert forall|j: int| 5 < j < 12 implies (#[trigger] ms[j]).0@ != "max_score"@ by {}
    lemma_lookup_at(ms, 5, "max_score"@);
    assert forall|j: int| 6 < j < 12 implies (#[trigger] ms[j]).0@ != "comments"@ by {}
    lemma_lookup_at(ms, 6, "comments"@);
    assert forall|j: int| 7 < j < 12 implies (#[trigger] ms[j]).0@ != "by"@ by {}
    lemma_lookup_at(ms, 7, "by"@);
    assert forall|j: int| 8 < j < 12 implies (#[trigger] ms[j]).0@ != "first_seen"@ by {}
    lemma_lookup_at(ms, 8, "first_seen"@);
    assert forall|j: int| 9 < j < 12 implies (#[trigger] ms[j]).0@ != "story_time"@ by {}
    lemma_lookup_at(ms, 9, "story_time"@);
    assert forall|j: int| 10 < j < 12 implies (#[trigger] ms[j]).0@ != "last_output_change_at"@ by {}
    lemma_lookup_at(ms, 10, "last_output_change_at"@);
    lemma_lookup_at(ms, 11, "thresholds"@);
    lemma_thresholds_parse(ms[11].1, s.thresholds);
    lemma_parse_decimal(s.id as nat, u64::MAX as int);
    Timestamp::lemma_at_seconds(s.first_seen.seconds(), s.first_seen);
    Timestamp::lemma_at_seconds(s.last_output_change_at.seconds(), s.last_output_change_at);
    assert(thresholds_of(doc) == Some(s.thresholds));
    assert(story_fields_ok(doc));
    let r = parsed_story(decimal(s.id as nat), doc)->Some_0.1;
    assert(r =~= s);
}

proof fn lemma_stories_prefix(
    ms: Seq<(String, JsonValue)>,
    stories: Map<u64, StoryModel>,
    keys: Seq<u64>,
    n: int,
)
    requires
        0 <= n <= ms.len(),
        ms.len() == keys.len(),
        keyed_by_id(stories),
        forall|i: int| 0 <= i < keys.len() ==> stories.contains_key(#[trigger] keys[i]),
        forall|i: int|
            0 <= i < keys.len() ==> {
                &&& (#[trigger] ms[i]).0@ == decimal(keys[i] as nat)
                &&& is_story_doc(ms[i].1, stories[keys[i]])
            },
    ensures
        parsed_stories(ms.take(n)) == Map::new(|k: u64| keys.take(n).contains(k), |k: u64| stories[k]),
    decreases n,
{
    if n == 0 {
        assert(ms.take(0) =~= Seq::<(String, JsonValue)>::empty());
        assert(Map::new(|k: u64| keys.take(0).contains(k), |k: u64| stories[k]) =~= Map::<
            u64,
            StoryModel,
        >::empty());
    } else {
        lemma_stories_prefix(ms, stories, keys, n - 1);
        assert(ms.take(n).drop_last() =~= ms.take(n - 1));
        assert(ms.take(n).last() == ms[n - 1]);
        let k = keys[n - 1];
        assert(stories.contains_key(k));
        assert(stories[k].id == k);
        assert(ms[n - 1].0@ == decimal(k as nat));
        lemma_story_doc_parses(ms[n - 1].1, stories[k]);
        lemma_take_next(keys, n);
        assert(Map::new(|x: u64| keys.take(n - 1).contains(x), |x: u64| stories[x]).insert(
            k,
            stories[k],
        ) =~= Map::new(|x: u64| keys.take(n).contains(x), |x: u64| stories[x]));
    }
}

proof fn lemma_ledger_prefix(ms: Seq<(String, JsonValue)>, ledger: Map<u64, i64>, keys: Seq<u64>, n: int)
    requires
        0 <= n <= ms.len(),
        ms.len() == keys.len(),
        forall|i: int|
            0 <= i < keys.len() ==> {
                &&& (#[trigger] ms[i]).0@ == decimal(keys[i] as nat)
                &&& ms[i].1 == JsonValue::Int(ledger[keys[i]])
            },
    ensures
        parsed_ledger(ms.take(n)) == Some(
            Map::new(|k: u64| keys.take(n).contains(k), |k: u64| ledger[k]),
        ),
    decreases n,
{
    if n == 0 {
        assert(ms.take(0) =~= Seq::<(String, JsonValue)>::empty());
        assert(Map::new(|k: u64| keys.take(0).contains(k), |k: u64| ledger[k]) =~= Map::<
            u64,
            i64,
        >::empty());
    } else {
        lemma_ledger_prefix(ms, ledger, keys, n - 1);
        assert(ms.take(n).drop_last() =~= ms.take(n - 1));
        assert(ms.take(n).last() == ms[n - 1]);
        let k = keys[n - 1];
        assert(ms[n - 1].0@ == decimal(k as nat));
        lemma_parse_decimal(k as nat, u64::MAX as int);
        lemma_take_next(keys, n);
        assert(Map::new(|x: u64| keys.take(n - 1).contains(x), |x: u64| ledger[x]).insert(
            k,
            ledger[k],
        ) =~= Map::new(|x: u64| keys.take(n).contains(x), |x: u64| ledger[x]));
    }
}

/// Two latest change times of the same stories are the same instant.
pub proof fn lemma_latest_change_unique(stories: Map<u64, StoryModel>, a: Timestamp, b: Timestamp)
    requires
        is_latest_change(stories, a),
        is_latest_change(stories, b),
    ensures
        a == b,
{
    if !stories.dom().is_empty() {
        let ka = choose|k: u64| #[trigger]
            stories.contains_key(k) && stories[k].last_output_change_at == a;
        let kb = choose|k: u64| #[trigger]
            stories.contains_key(k) && stories[k].last_output_change_at == b;
        assert(stories[ka].last_output_change_at.seconds() <= b.seconds());
        assert(stories[kb].last_output_change_at.seconds() <= a.seconds());
    }
    Timestamp::lemma_at_seconds(a.seconds(), a);
    Timestamp::lemma_at_seconds(a.seconds(), b);
}

/// Law: `state.json` reads back as the state it was written from. The
/// document of a state has the current version and a well-formed
/// `max_scores`, and what `parse_state` then returns (its stories, its
/// score history, and the latest change time of its stories) is exactly
/// that state.
pub proof fn law_state_document_round_trip(doc: JsonValue, m: StateModel, r: StateModel)
    requires
        is_state_doc(doc, m),
        is_valid_state(m),
    ensures
        version_ok(doc),
        !ledger_malformed(doc),
        stories_of(doc) == m.stories,
        ledger_of(doc) == m.max_scores,
        (r.version == STATE_VERSION && r.stories == stories_of(doc) && r.max_scores == ledger_of(doc)
            && is_latest_change(r.stories, r.last_output_change_at)) ==> r == m,
{
    reveal_strlit("version");
    reveal_strlit("last_output_change_at");
    reveal_strlit("max_scores");
    reveal_strlit("stories");
    assert("version"@.len() == 7 && "version"@[0] == 'v');
    assert("last_output_change_at"@.len() == 21 && "last_output_change_at"@[0] == 'l');
    assert("max_scores"@.len() == 10 && "max_scores"@[0] == 'm');
    assert("stories"@.len() == 7 && "stories"@[0] == 's');
    let ms = doc->Object_0@;
    assert forall|j: int| 0 < j < 4 implies (#[trigger] ms[j]).0@ != "version"@ by {}
    lemma_lookup_at(ms, 0, "version"@);
    assert(ms[3].0@ != "max_scores"@);
    lemma_lookup_at(ms, 2, "max_scores"@);
    lemma_lookup_at(ms, 3, "stories"@);
    assert(field(doc, "version"@) == Some(JsonValue::UInt(m.version)));
    assert(version_ok(doc));
    let ledger_doc = ms[2].1;
    let lkeys = ascending_seq(m.max_scores.dom());
    lemma_ledger_prefix(ledger_doc->Object_0@, m.max_scores, lkeys, lkeys.len() as int);
    assert(ledger_doc->Object_0@.take(lkeys.len() as int) =~= ledger_doc->Object_0@);
    assert(lkeys.take(lkeys.len() as int) =~= lkeys);
    assert forall|k: u64| lkeys.contains(k) <==> m.max_scores.dom().contains(k) by {
        assert(lkeys.to_set().contains(k) <==> lkeys.contains(k));
    }
    assert(Map::new(|k: u64| lkeys.contains(k), |k: u64| m.max_scores[k]) =~= m.max_scores);
    assert(!ledger_malformed(doc));
    assert(ledger_of(doc) == m.max_scores);
    let stories_doc = ms[3].1;
    let skeys = ascending_seq(m.stories.dom());
    assert forall|i: int| 0 <= i < skeys.len() implies m.stories.contains_key(#[trigger] skeys[i]) by {
        assert(skeys.to_set().contains(skeys[i]));
    }
    lemma_stories_prefix(stories_doc->Object_0@, m.stories, skeys, skeys.len() as int);
    assert(stories_doc->Object_0@.take(skeys.len() as int) =~= stories_doc->Object_0@);
    assert(skeys.take(skeys.len() as int) =~= skeys);
    assert forall|k: u64| skeys.contains(k) <==> m.stories.dom().contains(k) by {
        assert(skeys.to_set().contains(k) <==> skeys.contains(k));
    }
    assert(Map::new(|k: u64| skeys.contains(k), |k: u64| m.stories[k]) =~= m.stories);
    assert(stories_of(doc) == m.stories);
    if r.version == STATE_VERSION && r.stories == stories_of(doc) && r.max_scores == ledger_of(doc)
        && is_latest_change(r.stories, r.last_output_change_at) {
        lemma_latest_change_unique(m.stories, r.last_output_change_at, m.last_output_change_at);
        assert(r =~= m);
    }
}

} // verus!
