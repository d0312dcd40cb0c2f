use vstd::prelude::*;

use std::collections::BTreeMap;

use crate::config::STATE_VERSION;
use crate::error::AppError;
use crate::json::{
    json_parsed,
    lemma_same_json_pretty,
    nests_within,
    parse_json,
    pretty,
    same_json,
    to_pretty_json,
    JsonValue,
};
use crate::keys::{
    ascending_keys,
    ascending_seq,
    ascending_seq_u16,
    ascending_small_keys,
    strictly_increasing,
    strictly_increasing_u16,
};
use crate::text::{decimal, decimal_string, parse_unsigned, parse_unsigned_text, text_equal};
use crate::time::{in_timestamp_range, iso8601_text, rfc3339_seconds, Timestamp};
use crate::types::{is_latest_change, keyed_by_id, State, StateModel, Story, StoryModel};

verus! {

/// A member `key: "text"`.
pub open spec fn text_member(m: (String, JsonValue), key: Seq<char>, text: Seq<char>) -> bool {
    &&& m.0@ == key
    &&& m.1 is Str
    &&& m.1->Str_0@ == text
}

/// A member `key: "time"`: the instant in RFC 3339, a text that chrono
/// reads back as the same instant.
pub open spec fn time_member(m: (String, JsonValue), key: Seq<char>, t: Timestamp) -> bool {
    &&& text_member(m, key, iso8601_text(t.seconds()))
    &&& in_timestamp_range(t.seconds() as int)
    &&& rfc3339_seconds(iso8601_text(t.seconds())) == Some(t.seconds())
}

/// The `thresholds` object: threshold -> crossing time, ascending.
pub open spec fn is_thresholds_doc(doc: JsonValue, thresholds: Map<u16, Timestamp>) -> bool {
    let keys = ascending_seq_u16(thresholds.dom());
    &&& keys.to_set() == thresholds.dom() && strictly_increasing_u16(keys)
    &&& doc is Object
    &&& doc->Object_0@.len() == keys.len()
    &&& forall|i: int|
        0 <= i < keys.len() ==> time_member(
            #[trigger] doc->Object_0@[i],
            decimal(keys[i] as nat),
            thresholds[keys[i]],
        )
}

/// A story object, its keys in the order of `state.json`.
pub open spec fn is_story_doc(doc: JsonValue, s: StoryModel) -> bool {
    let ms = doc->Object_0@;
    &&& doc is Object
    &&& ms.len() == 12
    &&& ms[0].0@ == "id"@ && ms[0].1 == JsonValue::UInt(s.id)
    &&& text_member(ms[1], "title"@, s.title)
    &&& text_member(ms[2], "url"@, s.url)
    &&& text_member(ms[3], "hn_url"@, s.hn_url)
    &&& ms[4].0@ == "score"@ && ms[4].1 == JsonValue::Int(s.score)
    &&& ms[5].0@ == "max_score"@ && ms[5].1 == JsonValue::Int(s.max_score)
    &&& ms[6].0@ == "comments"@ && ms[6].1 == JsonValue::UInt(s.comments)
    &&& text_member(ms[7], "by"@, s.by)
    &&& time_member(ms[8], "first_seen"@, s.first_seen)
    &&& ms[9].0@ == "story_time"@ && ms[9].1 == JsonValue::Int(s.story_time)
    &&& time_member(ms[10], "last_output_change_at"@, s.last_output_change_at)
    &&& ms[11].0@ == "thresholds"@ && is_thresholds_doc(ms[11].1, s.thresholds)
}

/// The `max_scores` object: id -> highest score, ascending by id.
pub open spec fn is_ledger_doc(doc: JsonValue, ledger: Map<u64, i64>) -> bool {
    let keys = ascending_seq(ledger.dom());
    &&& keys.to_set() == ledger.dom() && strictly_increasing(keys)
    &&& doc is Object
    &&& doc->Object_0@.len() == keys.len()
    &&& forall|i: int|
        0 <= i < keys.len() ==> {
            &&& (#[trigger] doc->Object_0@[i]).0@ == decimal(keys[i] as nat)
            &&& doc->Object_0@[i].1 == JsonValue::Int(ledger[keys[i]])
        }
}

/// The `stories` object: id -> story, ascending by id.
pub open spec fn is_stories_doc(doc: JsonValue, stories: Map<u64, StoryModel>) -> bool {
    let keys = ascending_seq(stories.dom());
    &&& keys.to_set() == stories.dom() && strictly_increasing(keys)
    &&& doc is Object
    &&& doc->Object_0@.len() == keys.len()
    &&& forall|i: int|
        0 <= i < keys.len() ==> {
            &&& (#[trigger] doc->Object_0@[i]).0@ == decimal(keys[i] as nat)
            &&& is_story_doc(doc->Object_0@[i].1, stories[keys[i]])
        }
}

/// The document of `state.json`: `version`, `last_output_change_at`,
/// `max_scores`, `stories`, in that order.
pub open spec fn is_state_doc(doc: JsonValue, m: StateModel) -> bool {
    let ms = doc->Object_0@;
    &&& doc is Object
    &&& ms.len() == 4
    &&& ms[0].0@ == "version"@ && ms[0].1 == JsonValue::UInt(m.version)
    &&& time_member(ms[1], "last_output_change_at"@, m.last_output_change_at)
    &&& ms[2].0@ == "max_scores"@ && is_ledger_doc(ms[2].1, m.max_scores)
    &&& ms[3].0@ == "stories"@ && is_stories_doc(ms[3].1, m.stories)
}

fn thresholds_document(thresholds: &BTreeMap<u16, Timestamp>) -> (doc: JsonValue)
    ensures
        is_thresholds_doc(doc, thresholds@),
        nests_within(doc, 61),
{
    let keys = ascending_small_keys(thresholds);
    let mut members: Vec<(String, JsonValue)> = Vec::new();
    let mut i: usize = 0;
    while i < keys.len()
        invariant
            0 <= i <= keys.len(),
            keys@ == ascending_seq_u16(thresholds@.dom()),
            keys@.to_set() == thresholds@.dom(),
            members@.len() == i,
            forall|j: int|
                0 <= j < i ==> time_member(
                    #[trigger] members@[j],
                    decimal(keys@[j] as nat),
                    thresholds@[keys@[j]],
                ),
        decreases keys.len() - i,
    {
        let k = keys[i];
        assert(keys@.to_set().contains(k));
        let t = thresholds.get(&k).unwrap();
        let name = decimal_string(k as u64);
        members.push((name, JsonValue::Str(t.iso8601())));
        i = i + 1;
    }
    let doc = JsonValue::Object(members);
    assert(doc->Object_0@ == members@);
    assert forall|j: int| 0 <= j < members@.len() implies nests_within(
        #[trigger] members@[j].1,
        60,
    ) by {
        assert(members@[j].1 is Str);
    }
    doc
}

fn story_document(s: &Story) -> (doc: JsonValue)
    ensures
        is_story_doc(doc, s@),
        nests_within(doc, 62),
{
    let mut ms: Vec<(String, JsonValue)> = Vec::new();
    ms.push((String::from_str("id"), JsonValue::UInt(s.id)));
    ms.push((String::from_str("title"), JsonValue::Str(s.title.clone())));
    ms.push((String::from_str("url"), JsonValue::Str(s.url.clone())));
    ms.push((String::from_str("hn_url"), JsonValue::Str(s.hn_url.clone())));
    ms.push((String::from_str("score"), JsonValue::Int(s.score)));
    ms.push((String::from_str("max_score"), JsonValue::Int(s.max_score)));
    ms.push((String::from_str("comments"), JsonValue::UInt(s.comments)));
    ms.push((String::from_str("by"), JsonValue::Str(s.by.clone())));
    ms.push((String::from_str("first_seen"), JsonValue::Str(s.first_seen.iso8601())));
    ms.push((String::from_str("story_time"), JsonValue::Int(s.story_time)));
    ms.push(
        (
            String::from_str("last_output_change_at"),
            JsonValue::Str(s.last_output_change_at.iso8601()),
        ),
    );
    let thresholds = thresholds_document(&s.thresholds);
    ms.push((String::from_str("thresholds"), thresholds));
    let doc = JsonValue::Object(ms);
    assert(doc->Object_0@ == ms@);
    assert forall|j: int| 0 <= j < ms@.len() implies nests_within(#[trigger] ms@[j].1, 61) by {
        if j < 11 {
            assert(!(ms@[j].1 is Array) && !(ms@[j].1 is Object));
        }
    }
    doc
}

fn ledger_document(ledger: &BTreeMap<u64, i64>) -> (doc: JsonValue)
    ensures
        is_ledger_doc(doc, ledger@),
        nests_within(doc, 63),
{
    let keys = ascending_keys(ledger);
    let mut members: Vec<(String, JsonValue)> = Vec::new();
    let mut i: usize = 0;
    while i < keys.len()
        invariant
            0 <= i <= keys.len(),
            keys@ == ascending_seq(ledger@.dom()),
            keys@.to_set() == ledger@.dom(),
            members@.len() == i,
            forall|j: int|
                0 <= j < i ==> {
                    &&& (#[trigger] members@[j]).0@ == decimal(keys@[j] as nat)
                    &&& members@[j].1 == JsonValue::Int(ledger@[keys@[j]])
                },
        decreases keys.len() - i,
    {
        let k = keys[i];
        assert(keys@.to_set().contains(k));
        let v = *ledger.get(&k).unwrap();
        members.push((decimal_string(k), JsonValue::Int(v)));
        i = i + 1;
    }
    let doc = JsonValue::Object(members);
    assert(doc->Object_0@ == members@);
    assert forall|j: int| 0 <= j < members@.len() implies nests_within(
        #[trigger] members@[j].1,
        62,
    ) by {
        assert(members@[j].1 is Int);
    }
    doc
}

fn stories_document(stories: &BTreeMap<u64, Story>) -> (doc: JsonValue)
    ensures
        is_stories_doc(doc, stories@.map_values(|s: Story| s@)),
        nests_within(doc, 63),
{
    let ghost models = stories@.map_values(|s: Story| s@);
    assert(models.dom() =~= stories@.dom());
    let keys = ascending_keys(stories);
    let mut members: Vec<(String, JsonValue)> = Vec::new();
    let mut i: usize = 0;
    while i < keys.len()
        invariant
            0 <= i <= keys.len(),
            models == stories@.map_values(|s: Story| s@),
            models.dom() == stories@.dom(),
            keys@ == ascending_seq(stories@.dom()),
            keys@.to_set() == stories@.dom(),
            members@.len() == i,
            forall|j: int|
                0 <= j < i ==> {
                    &&& (#[trigger] members@[j]).0@ == decimal(keys@[j] as nat)
                    &&& is_story_doc(members@[j].1, models[keys@[j]])
                    &&& nests_within(members@[j].1, 62)
                },
        decreases keys.len() - i,
    {
        let k = keys[i];
        assert(keys@.to_set().contains(k));
        let s = stories.get(&k).unwrap();
        assert(models[k] == s@);
        members.push((decimal_string(k), story_document(s)));
        i = i + 1;
    }
    let doc = JsonValue::Object(members);
    assert(doc->Object_0@ == members@);
    assert(forall|j: int| 0 <= j < members@.len() ==> nests_within(#[trigger] members@[j].1, 62));
    doc
}

/// The JSON document of the state, as `state.json` holds it.
pub fn state_document(state: &State) -> (doc: JsonValue)
    ensures
        is_state_doc(doc, state@),
        nests_within(doc, 64),
{
    let mut ms: Vec<(String, JsonValue)> = Vec::new();
    ms.push((String::from_str("version"), JsonValue::UInt(state.version)));
    ms.push(
        (
            String::from_str("last_output_change_at"),
            JsonValue::Str(state.last_output_change_at.iso8601()),
        ),
    );
    ms.push((String::from_str("max_scores"), ledger_document(&state.max_scores)));
    ms.push((String::from_str("stories"), stories_document(&state.stories)));
    let doc = JsonValue::Object(ms);
    assert(doc->Object_0@ == ms@);
    assert forall|j: int| 0 <= j < ms@.len() implies nests_within(#[trigger] ms@[j].1, 63) by {
        if j < 2 {
            assert(!(ms@[j].1 is Array) && !(ms@[j].1 is Object));
        }
    }
    doc
}

/// The text of `state.json` for a state: its document pretty-printed with
/// two-space indentation, then a newline.
pub open spec fn state_file_text(doc: JsonValue) -> Seq<char> {
    pretty(doc, 0) + "\n"@
}

/// The bytes of `state.json` for the state, UTF-8.
pub fn serialize_state(state: &State) -> (r: Result<Vec<u8>, AppError>)
    ensures
        r matches Ok(bytes) && exists|doc: JsonValue|
            is_state_doc(doc, state@) && bytes@ == vstd::utf8::encode_utf8(
                #[trigger] state_file_text(doc),
            ),
{
    let doc = state_document(state);
    let mut text = to_pretty_json(&doc);
    text.append("\n");
    assert(text@ =~= state_file_text(doc));
    Ok(text.as_str().as_bytes_vec())
}

/// The member named `key`; where several are, the last one, as a map built
/// from them in order keeps it.
pub open spec fn lookup(members: Seq<(String, JsonValue)>, key: Seq<char>) -> Option<JsonValue>
    decreases members.len(),
{
    if members.len() == 0 {
        None
    } else if members.last().0@ == key {
        Some(members.last().1)
    } else {
        lookup(members.drop_last(), key)
    }
}

pub open spec fn field(v: JsonValue, key: Seq<char>) -> Option<JsonValue> {
    match v {
        JsonValue::Object(members) => lookup(members@, key),
        _ => None,
    }
}

/// A number's value as a `u64`, where it is a whole number in range.
pub open spec fn as_u64(v: JsonValue) -> Option<u64> {
    match v {
        JsonValue::UInt(n) => Some(n),
        JsonValue::Int(n) => if n >= 0 {
            Some(n as u64)
        } else {
            None
        },
        _ => None,
    }
}

/// A number's value as an `i64`, where it is a whole number in range.
pub open spec fn as_i64(v: JsonValue) -> Option<i64> {
    match v {
        JsonValue::UInt(n) => if n <= i64::MAX {
            Some(n as i64)
        } else {
            None
        },
        JsonValue::Int(n) => Some(n),
        _ => None,
    }
}

pub open spec fn as_text(v: JsonValue) -> Option<Seq<char>> {
    match v {
        JsonValue::Str(s) => Some(s@),
        _ => None,
    }
}

pub open spec fn u64_field(v: JsonValue, key: Seq<char>) -> Option<u64> {
    match field(v, key) {
        Some(x) => as_u64(x),
        None => None,
    }
}

pub open spec fn i64_field(v: JsonValue, key: Seq<char>) -> Option<i64> {
    match field(v, key) {
        Some(x) => as_i64(x),
        None => None,
    }
}

pub open spec fn text_field(v: JsonValue, key: Seq<char>) -> Option<Seq<char>> {
    match field(v, key) {
        Some(x) => as_text(x),
        None => None,
    }
}

/// The seconds of an RFC 3339 text, where chrono reads it and the instant
/// lies in the supported years.
pub open spec fn time_of(text: Option<Seq<char>>) -> Option<i64> {
    match text {
        Some(t) => match rfc3339_seconds(t) {
            Some(secs) => if in_timestamp_range(secs as int) {
                Some(secs)
            } else {
                None
            },
            None => None,
        },
        None => None,
    }
}

/// One member of a `thresholds` object: a `u16` key and an RFC 3339 time.
pub open spec fn parsed_threshold(m: (String, JsonValue)) -> Option<(u16, i64)> {
    match (parse_unsigned(m.0@, u16::MAX as int), time_of(as_text(m.1))) {
        (Some(k), Some(secs)) => Some((k as u16, secs)),
        _ => None,
    }
}

/// The thresholds of a `thresholds` object, or `None` where one member is
/// malformed.
pub open spec fn parsed_thresholds(ms: Seq<(String, JsonValue)>) -> Option<Map<u16, Timestamp>>
    decreases ms.len(),
{
    if ms.len() == 0 {
        Some(Map::empty())
    } else {
        match (parsed_thresholds(ms.drop_last()), parsed_threshold(ms.last())) {
            (Some(m), Some((k, secs))) => Some(m.insert(k, Timestamp::at_seconds(secs))),
            _ => None,
        }
    }
}

pub open spec fn thresholds_of(v: JsonValue) -> Option<Map<u16, Timestamp>> {
    match field(v, "thresholds"@) {
        Some(JsonValue::Object(ts)) => parsed_thresholds(ts@),
        _ => None,
    }
}

/// Whether a story object has every field, with the right kind of value.
pub open spec fn story_fields_ok(v: JsonValue) -> bool {
    &&& thresholds_of(v) is Some
    &&& u64_field(v, "id"@) is Some
    &&& text_field(v, "title"@) is Some
    &&& text_field(v, "url"@) is Some
    &&& text_field(v, "hn_url"@) is Some
    &&& i64_field(v, "score"@) is Some
    &&& i64_field(v, "max_score"@) is Some
    &&& u64_field(v, "comments"@) is Some
    &&& text_field(v, "by"@) is Some
    &&& time_of(text_field(v, "first_seen"@)) is Some
    &&& i64_field(v, "story_time"@) is Some
    &&& time_of(text_field(v, "last_output_change_at"@)) is Some
}

/// The story of a `stories` member: its key is its id in decimal, and it
/// has every field.
pub open spec fn parsed_story(key: Seq<char>, v: JsonValue) -> Option<(u64, StoryModel)> {
    match parse_unsigned(key, u64::MAX as int) {
        Some(id) => if story_fields_ok(v) && u64_field(v, "id"@) == Some(id as u64) {
            Some(
                (
                    id as u64,
                    StoryModel {
                        id: id as u64,
                        title: text_field(v, "title"@)->Some_0,
                        url: text_field(v, "url"@)->Some_0,
                        hn_url: text_field(v, "hn_url"@)->Some_0,
                        score: i64_field(v, "score"@)->Some_0,
                        max_score: i64_field(v, "max_score"@)->Some_0,
                        comments: u64_field(v, "comments"@)->Some_0,
                        by: text_field(v, "by"@)->Some_0,
                        first_seen: Timestamp::at_seconds(
                            time_of(text_field(v, "first_seen"@))->Some_0,
                        ),
                        story_time: i64_field(v, "story_time"@)->Some_0,
                        last_output_change_at: Timestamp::at_seconds(
                            time_of(text_field(v, "last_output_change_at"@))->Some_0,
                        ),
                        thresholds: thresholds_of(v)->Some_0,
                    },
                ),
            )
        } else {
            None
        },
        None => None,
    }
}

/// The stories of a `stories` object; a malformed entry is skipped.
pub open spec fn parsed_stories(ms: Seq<(String, JsonValue)>) -> Map<u64, StoryModel>
    decreases ms.len(),
{
    if ms.len() == 0 {
        Map::empty()
    } else {
        let prev = parsed_stories(ms.drop_last());
        match parsed_story(ms.last().0@, ms.last().1) {
            Some((id, s)) => prev.insert(id, s),
            None => prev,
        }
    }
}

pub open spec fn parsed_ledger_entry(m: (String, JsonValue)) -> Option<(u64, i64)> {
    match (parse_unsigned(m.0@, u64::MAX as int), as_i64(m.1)) {
        (Some(k), Some(score)) => Some((k as u64, score)),
        _ => None,
    }
}

/// The scores of a `max_scores` object, or `None` where one member is
/// malformed.
pub open spec fn parsed_ledger(ms: Seq<(String, JsonValue)>) -> Option<Map<u64, i64>>
    decreases ms.len(),
{
    if ms.len() == 0 {
        Some(Map::empty())
    } else {
        match (parsed_ledger(ms.drop_last()), parsed_ledger_entry(ms.last())) {
            (Some(m), Some((k, score))) => Some(m.insert(k, score)),
            _ => None,
        }
    }
}

pub open spec fn version_ok(v: JsonValue) -> bool {
    u64_field(v, "version"@) == Some(STATE_VERSION)
}

/// Whether `max_scores` is there but is not an object of ids and integers.
pub open spec fn ledger_malformed(v: JsonValue) -> bool {
    match field(v, "max_scores"@) {
        None => false,
        Some(JsonValue::Object(ms)) => parsed_ledger(ms@) is None,
        Some(_) => true,
    }
}

pub open spec fn stories_of(v: JsonValue) -> Map<u64, StoryModel> {
    match field(v, "stories"@) {
        Some(JsonValue::Object(ms)) => parsed_stories(ms@),
        _ => Map::empty(),
    }
}

/// The score history a state without `max_scores` starts from: each
/// story's highest score.
pub open spec fn derived_ledger(stories: Map<u64, StoryModel>) -> Map<u64, i64> {
    stories.map_values(|s: StoryModel| s.max_score)
}

pub open spec fn ledger_of(v: JsonValue) -> Map<u64, i64> {
    match field(v, "max_scores"@) {
        Some(JsonValue::Object(ms)) => parsed_ledger(ms@)->Some_0,
        _ => derived_ledger(stories_of(v)),
    }
}

pub open spec fn is_empty_state(m: StateModel) -> bool {
    &&& m.version == STATE_VERSION
    &&& m.last_output_change_at.seconds() == 0
    &&& m.max_scores == Map::<u64, i64>::empty()
    &&& m.stories == Map::<u64, StoryModel>::empty()
}

fn field_of<'a>(v: &'a JsonValue, key: &str) -> (r: Option<&'a JsonValue>)
    ensures
        r matches Some(x) ==> field(*v, key@) == Some(*x),
        r is None ==> field(*v, key@) is None,
{
    match v {
        JsonValue::Object(members) => {
            let mut i: usize = members.len();
            assert(members@.take(i as int) =~= members@);
            while i > 0
                invariant
                    0 <= i <= members@.len(),
                    field(*v, key@) == lookup(members@, key@),
                    lookup(members@, key@) == lookup(members@.take(i as int), key@),
                decreases i,
            {
                let ghost t = members@.take(i as int);
                assert(t.drop_last() =~= members@.take(i - 1));
                if text_equal(members[i - 1].0.as_str(), key) {
                    assert(t.last() == members@[i - 1]);
                    return Some(&members[i - 1].1);
                }
                i = i - 1;
            }
            None
        },
        _ => None,
    }
}

fn json_u64(v: &JsonValue) -> (r: Option<u64>)
    ensures
        r == as_u64(*v),
{
    match v {
        JsonValue::UInt(n) => Some(*n),
        JsonValue::Int(n) => if *n >= 0 {
            Some(*n as u64)
        } else {
            None
        },
        _ => None,
    }
}

fn json_i64(v: &JsonValue) -> (r: Option<i64>)
    ensures
        r == as_i64(*v),
{
    match v {
        JsonValue::UInt(n) => if *n <= i64::MAX as u64 {
            Some(*n as i64)
        } else {
            None
        },
        JsonValue::Int(n) => Some(*n),
        _ => None,
    }
}

fn u64_member(v: &JsonValue, key: &str) -> (r: Option<u64>)
    ensures
        r == u64_field(*v, key@),
{
    match field_of(v, key) {
        Some(x) => json_u64(x),
        None => None,
    }
}

fn i64_member(v: &JsonValue, key: &str) -> (r: Option<i64>)
    ensures
        r == i64_field(*v, key@),
{
    match field_of(v, key) {
        Some(x) => json_i64(x),
        None => None,
    }
}

fn text_member_of(v: &JsonValue, key: &str) -> (r: Option<String>)
    ensures
        r matches Some(s) ==> text_field(*v, key@) == Some(s@),
        r is None ==> text_field(*v, key@) is None,
{
    match field_of(v, key) {
        Some(JsonValue::Str(s)) => Some(s.clone()),
        _ => None,
    }
}

fn time_text(text: Option<String>) -> (r: Option<Timestamp>)
    ensures
        r matches Some(t) ==> time_of(option_view(text)) == Some(t.seconds()),
        r is None ==> time_of(option_view(text)) is None,
{
    match text {
        Some(s) => Timestamp::parse(s.as_str()),
        None => None,
    }
}

pub open spec fn option_view(o: Option<String>) -> Option<Seq<char>> {
    match o {
        Some(s) => Some(s@),
        None => None,
    }
}

fn time_member_of(v: &JsonValue, key: &str) -> (r: Option<Timestamp>)
    ensures
        r matches Some(t) ==> time_of(text_field(*v, key@)) == Some(t.seconds()),
        r is None ==> time_of(text_field(*v, key@)) is None,
{
    let text = text_member_of(v, key);
    assert(option_view(text) == text_field(*v, key@));
    time_text(text)
}

proof fn lemma_thresholds_none_extends(ms: Seq<(String, JsonValue)>, i: int)
    requires
        0 <= i <= ms.len(),
        parsed_thresholds(ms.take(i)) is None,
    ensures
        parsed_thresholds(ms) is None,
    decreases ms.len() - i,
{
    if i < ms.len() {
        assert(ms.take(i + 1).drop_last() =~= ms.take(i));
        lemma_thresholds_none_extends(ms, i + 1);
    } else {
        assert(ms.take(i) =~= ms);
    }
}

proof fn lemma_ledger_none_extends(ms: Seq<(String, JsonValue)>, i: int)
    requires
        0 <= i <= ms.len(),
        parsed_ledger(ms.take(i)) is None,
    ensures
        parsed_ledger(ms) is None,
    decreases ms.len() - i,
{
    if i < ms.len() {
        assert(ms.take(i + 1).drop_last() =~= ms.take(i));
        lemma_ledger_none_extends(ms, i + 1);
    } else {
        assert(ms.take(i) =~= ms);
    }
}

fn parse_thresholds(ts: &Vec<(String, JsonValue)>) -> (r: Option<BTreeMap<u16, Timestamp>>)
    ensures
        r matches Some(m) ==> parsed_thresholds(ts@) == Some(m@),
        r is None ==> parsed_thresholds(ts@) is None,
{
    let mut map: BTreeMap<u16, Timestamp> = BTreeMap::new();
    let mut i: usize = 0;
    assert(ts@.take(0) =~= Seq::<(String, JsonValue)>::empty());
    while i < ts.len()
        invariant
            0 <= i <= ts@.len(),
            parsed_thresholds(ts@.take(i as int)) == Some(map@),
        decreases ts.len() - i,
    {
        let ghost next = ts@.take(i + 1);
        assert(next.drop_last() =~= ts@.take(i as int));
        assert(next.last() == ts@[i as int]);
        let key = parse_unsigned_text(ts[i].0.as_str(), 65535);
        let time = match &ts[i].1 {
            JsonValue::Str(s) => Timestamp::parse(s.as_str()),
            _ => None,
        };
        match (key, time) {
            (Some(k), Some(t)) => {
                proof {
                    Timestamp::lemma_at_seconds(t.seconds(), t);
                }
                map.insert(k as u16, t);
            },
            _ => {
                proof {
                    lemma_thresholds_none_extends(ts@, i + 1);
                }
                return None;
            },
        }
        i = i + 1;
    }
    assert(ts@.take(ts@.len() as int) =~= ts@);
    Some(map)
}

fn parse_ledger(ms: &Vec<(String, JsonValue)>) -> (r: Option<BTreeMap<u64, i64>>)
    ensures
        r matches Some(m) ==> parsed_ledger(ms@) == Some(m@),
        r is None ==> parsed_ledger(ms@) is None,
{
    let mut map: BTreeMap<u64, i64> = BTreeMap::new();
    let mut i: usize = 0;
    assert(ms@.take(0) =~= Seq::<(String, JsonValue)>::empty());
    while i < ms.len()
        invariant
            0 <= i <= ms@.len(),
            parsed_ledger(ms@.take(i as int)) == Some(map@),
        decreases ms.len() - i,
    {
        let ghost next = ms@.take(i + 1);
        assert(next.drop_last() =~= ms@.take(i as int));
        assert(next.last() == ms@[i as int]);
        let key = parse_unsigned_text(ms[i].0.as_str(), u64::MAX);
        let score = json_i64(&ms[i].1);
        match (key, score) {
            (Some(k), Some(v)) => {
                map.insert(k, v);
            },
            _ => {
                proof {
                    lemma_ledger_none_extends(ms@, i + 1);
                }
                return None;
            },
        }
        i = i + 1;
    }
    assert(ms@.take(ms@.len() as int) =~= ms@);
    Some(map)
}

/// Reads one entry of `stories`: `None` where the key is not an id, the
/// value lacks a field or holds one of the wrong kind, or its `id` differs
/// from the key.
pub fn parse_story(key: &str, value: &JsonValue) -> (r: Option<(u64, Story)>)
    ensures
        r matches Some((id, s)) ==> parsed_story(key@, *value) == Some((id, s@)),
        r is None ==> parsed_story(key@, *value) is None,
{
    let id = match parse_unsigned_text(key, u64::MAX) {
        Some(id) => id,
        None => return None,
    };
    let thresholds = match field_of(value, "thresholds") {
        Some(JsonValue::Object(ts)) => match parse_thresholds(ts) {
            Some(m) => m,
            None => return None,
        },
        _ => return None,
    };
    let story_id = match u64_member(value, "id") {
        Some(n) => n,
        None => return None,
    };
    let title = match text_member_of(value, "title") {
        Some(s) => s,
        None => return None,
    };
    let url = match text_member_of(value, "url") {
        Some(s) => s,
        None => return None,
    };
    let hn_url = match text_member_of(value, "hn_url") {
        Some(s) => s,
        None => return None,
    };
    let score = match i64_member(value, "score") {
        Some(n) => n,
        None => return None,
    };
    let max_score = match i64_member(value, "max_score") {
        Some(n) => n,
        None => return None,
    };
    let comments = match u64_member(value, "comments") {
        Some(n) => n,
        None => return None,
    };
    let by = match text_member_of(value, "by") {
        Some(s) => s,
        None => return None,
    };
    let first_seen = match time_member_of(value, "first_seen") {
        Some(t) => t,
        None => return None,
    };
    let story_time = match i64_member(value, "story_time") {
        Some(n) => n,
        None => return None,
    };
    let last_change = match time_member_of(value, "last_output_change_at") {
        Some(t) => t,
        None => return None,
    };
    if story_id != id {
        return None;
    }
    proof {
        Timestamp::lemma_at_seconds(first_seen.seconds(), first_seen);
        Timestamp::lemma_at_seconds(last_change.seconds(), last_change);
    }
    let story = Story {
        id,
        title,
        url,
        hn_url,
        score,
        max_score,
        comments,
        by,
        first_seen,
        story_time,
        last_output_change_at: last_change,
        thresholds,
    };
    Some((id, story))
}

fn derive_ledger(stories: &BTreeMap<u64, Story>) -> (r: BTreeMap<u64, i64>)
    ensures
        r@ == derived_ledger(stories@.map_values(|s: Story| s@)),
{
    let ghost models = stories@.map_values(|s: Story| s@);
    let keys = ascending_keys(stories);
    let mut ledger: BTreeMap<u64, i64> = BTreeMap::new();
    let mut i: usize = 0;
    while i < keys.len()
        invariant
            0 <= i <= keys.len(),
            models == stories@.map_values(|s: Story| s@),
            keys@.to_set() == stories@.dom(),
            ledger@ == Map::new(
                |k: u64| keys@.take(i as int).contains(k),
                |k: u64| models[k].max_score,
            ),
        decreases keys.len() - i,
    {
        let k = keys[i];
        assert(keys@.to_set().contains(k));
        let s = stories.get(&k).unwrap();
        assert(models[k] == s@);
        ledger.insert(k, s.max_score);
        assert(keys@.take(i + 1) =~= keys@.take(i as int).push(k));
        assert forall|x: u64| keys@.take(i + 1).contains(x) <==> (keys@.take(i as int).contains(x)
            || x == k) by {
            if keys@.take(i + 1).contains(x) {
                let j = choose|j: int| 0 <= j < i + 1 && #[trigger] keys@.take(i + 1)[j] == x;
                if j < i {
                    assert(keys@.take(i as int)[j] == x);
                }
            }
            if keys@.take(i as int).contains(x) {
                let j = choose|j: int| 0 <= j < i && #[trigger] keys@.take(i as int)[j] == x;
                assert(keys@.take(i + 1)[j] == x);
            }
            if x == k {
                assert(keys@.take(i + 1)[i as int] == x);
            }
        }
        assert(ledger@ =~= Map::new(
            |x: u64| keys@.take(i + 1).contains(x),
            |x: u64| models[x].max_score,
        ));
        i = i + 1;
    }
    assert(keys@.take(keys@.len() as int) =~= keys@);
    assert forall|k: u64| keys@.contains(k) <==> models.dom().contains(k) by {
        assert(keys@.to_set().contains(k) <==> keys@.contains(k));
    }
    assert(ledger@ =~= derived_ledger(models));
    ledger
}

fn parse_stories(ms: &Vec<(String, JsonValue)>) -> (r: BTreeMap<u64, Story>)
    ensures
        r@.map_values(|s: Story| s@) == parsed_stories(ms@),
{
    let mut stories: BTreeMap<u64, Story> = BTreeMap::new();
    let mut i: usize = 0;
    assert(ms@.take(0) =~= Seq::<(String, JsonValue)>::empty());
    assert(stories@.map_values(|s: Story| s@) =~= Map::<u64, StoryModel>::empty());
    while i < ms.len()
        invariant
            0 <= i <= ms@.len(),
            stories@.map_values(|s: Story| s@) == parsed_stories(ms@.take(i as int)),
        decreases ms.len() - i,
    {
        let ghost next = ms@.take(i + 1);
        assert(next.drop_last() =~= ms@.take(i as int));
        assert(next.last() == ms@[i as int]);
        let ghost before = stories@;
        match parse_story(ms[i].0.as_str(), &ms[i].1) {
            Some((id, story)) => {
                let ghost model = story@;
                stories.insert(id, story);
                assert(stories@.map_values(|s: Story| s@) =~= before.map_values(
                    |s: Story| s@,
                ).insert(id, model));
            },
            None => {},
        }
        i = i + 1;
    }
    assert(ms@.take(ms@.len() as int) =~= ms@);
    stories
}

fn malformed_ledger() -> (e: AppError)
    ensures
        e matches AppError::Serialization(msg) && msg@ == "invalid state.json max_scores value"@,
{
    AppError::Serialization(String::from_str("invalid state.json max_scores value"))
}

/// Reads the state from the document of `state.json`. A document whose
/// `version` is not the current one gives the empty state; a `max_scores`
/// that is not an object of ids and integers is an error; a malformed
/// story entry is skipped. Without `max_scores`, the score history is each
/// story's highest score.
pub fn parse_state(value: &JsonValue) -> (r: Result<State, AppError>)
    ensures
        !version_ok(*value) ==> (r matches Ok(s) && is_empty_state(s@)),
        version_ok(*value) && ledger_malformed(*value) ==> (r matches Err(
            AppError::Serialization(msg),
        ) && msg@ == "invalid state.json max_scores value"@),
        version_ok(*value) && !ledger_malformed(*value) ==> (r matches Ok(s) && {
            &&& s@.version == STATE_VERSION
            &&& keyed_by_id(s@.stories)
            &&& s@.stories == stories_of(*value)
            &&& s@.max_scores == ledger_of(*value)
            &&& is_latest_change(s@.stories, s@.last_output_change_at)
        }),
{
    match u64_member(value, "version") {
        Some(v) => if v != STATE_VERSION {
            return Ok(State::empty());
        },
        None => return Ok(State::empty()),
    }
    let ledger: Option<BTreeMap<u64, i64>> = match field_of(value, "max_scores") {
        None => None,
        Some(JsonValue::Object(ms)) => match parse_ledger(ms) {
            Some(m) => Some(m),
            None => return Err(malformed_ledger()),
        },
        Some(_) => return Err(malformed_ledger()),
    };
    proof {
        match field(*value, "stories"@) {
            Some(JsonValue::Object(ms)) => lemma_parsed_stories_keyed(ms@),
            _ => {},
        }
    }
    let stories = match field_of(value, "stories") {
        Some(JsonValue::Object(ms)) => parse_stories(ms),
        _ => {
            let empty: BTreeMap<u64, Story> = BTreeMap::new();
            assert(empty@.map_values(|s: Story| s@) =~= Map::<u64, StoryModel>::empty());
            empty
        },
    };
    let max_scores = match ledger {
        Some(m) => m,
        None => derive_ledger(&stories),
    };
    let mut state = State {
        version: STATE_VERSION,
        last_output_change_at: Timestamp::epoch(),
        max_scores,
        stories,
    };
    state.recompute_last_output_change_at();
    Ok(state)
}

/// Whether `r` is what starting from the document gives: the empty state
/// without a document or with one of another version; an error where
/// `max_scores` is malformed; otherwise the stories and score history the
/// document holds, keyed by id, with the latest change time.
pub open spec fn is_restored(document: Option<JsonValue>, r: Result<State, AppError>) -> bool {
    match document {
        None => r matches Ok(s) && is_empty_state(s@),
        Some(v) => if !version_ok(v) {
            r matches Ok(s) && is_empty_state(s@)
        } else if ledger_malformed(v) {
            r matches Err(AppError::Serialization(msg)) && msg@ == "invalid state.json max_scores value"@
        } else {
            r matches Ok(s) && {
                &&& s@.version == STATE_VERSION
                &&& keyed_by_id(s@.stories)
                &&& s@.stories == stories_of(v)
                &&& s@.max_scores == ledger_of(v)
                &&& is_latest_change(s@.stories, s@.last_output_change_at)
            }
        },
    }
}

/// The state a cycle starts from, given the document read from
/// `state.json`: `None` where the file is missing, empty or not JSON,
/// which starts from the empty state; otherwise what `parse_state` reads.
pub fn restore_state(document: Option<&JsonValue>) -> (r: Result<State, AppError>)
    ensures
        is_restored(
            match document {
                Some(v) => Some(*v),
                None => None,
            },
            r,
        ),
{
    match document {
        Some(v) => parse_state(v),
        None => Ok(State::empty()),
    }
}

/// The document the bytes of `state.json` hold: none for a missing or
/// empty file or for bytes that are not JSON.
pub open spec fn state_document_of(bytes: Option<Seq<u8>>) -> Option<JsonValue> {
    match bytes {
        None => None,
        Some(b) => if b.len() == 0 {
            None
        } else {
            json_parsed(b)
        },
    }
}

/// The state a cycle starts from, given the bytes of `state.json` (`None`
/// where the file does not exist): a missing or empty file, or bytes that
/// are not JSON, start from the empty state; otherwise the JSON document
/// is read as `restore_state` reads it.
pub fn state_from_bytes(bytes: Option<&[u8]>) -> (r: Result<State, AppError>)
    ensures
        is_restored(
            state_document_of(
                match bytes {
                    Some(b) => Some(b@),
                    None => None,
                },
            ),
            r,
        ),
{
    match bytes {
        None => restore_state(None),
        Some(b) => if b.len() == 0 {
            restore_state(None)
        } else {
            match parse_json(b) {
                Some(v) => restore_state(Some(&v)),
                None => restore_state(None),
            }
        },
    }
}

/// Every story read from `stories` is kept under its own id.
pub proof fn lemma_parsed_stories_keyed(ms: Seq<(String, JsonValue)>)
    ensures
        keyed_by_id(parsed_stories(ms)),
    decreases ms.len(),
{
    if ms.len() > 0 {
        lemma_parsed_stories_keyed(ms.drop_last());
    }
}

proof fn lemma_thresholds_docs_same(a: JsonValue, b: JsonValue, t: Map<u16, Timestamp>)
    requires
        is_thresholds_doc(a, t),
        is_thresholds_doc(b, t),
    ensures
        same_json(a, b),
{
    assert forall|i: int| 0 <= i < a->Object_0@.len() implies (#[trigger] a->Object_0@[i]).0@
        == b->Object_0@[i].0@ && same_json(a->Object_0@[i].1, b->Object_0@[i].1) by {
        assert(b->Object_0@[i].1 is Str);
    }
}

proof fn lemma_story_docs_same(a: JsonValue, b: JsonValue, s: StoryModel)
    requires
        is_story_doc(a, s),
        is_story_doc(b, s),
    ensures
        same_json(a, b),
{
    let ma = a->Object_0@;
    let mb = b->Object_0@;
    lemma_thresholds_docs_same(ma[11].1, mb[11].1, s.thresholds);
    assert forall|i: int| 0 <= i < ma.len() implies (#[trigger] ma[i]).0@ == mb[i].0@ && same_json(
        ma[i].1,
        mb[i].1,
    ) by {
        if i == 1 || i == 2 || i == 3 || i == 7 || i == 8 || i == 10 {
            assert(mb[i].1 is Str);
        }
    }
}

proof fn lemma_state_docs_same(a: JsonValue, b: JsonValue, m: StateModel)
    requires
        is_state_doc(a, m),
        is_state_doc(b, m),
    ensures
        same_json(a, b),
{
    let ma = a->Object_0@;
    let mb = b->Object_0@;
    let la = ma[2].1->Object_0@;
    let lb = mb[2].1->Object_0@;
    assert forall|i: int| 0 <= i < la.len() implies (#[trigger] la[i]).0@ == lb[i].0@ && same_json(
        la[i].1,
        lb[i].1,
    ) by {}
    assert(same_json(ma[2].1, mb[2].1));
    let sa = ma[3].1->Object_0@;
    let sb = mb[3].1->Object_0@;
    let keys = ascending_seq(m.stories.dom());
    assert forall|i: int| 0 <= i < sa.len() implies (#[trigger] sa[i]).0@ == sb[i].0@ && same_json(
        sa[i].1,
        sb[i].1,
    ) by {
        lemma_story_docs_same(sa[i].1, sb[i].1, m.stories[keys[i]]);
    }
    assert(same_json(ma[3].1, mb[3].1));
    assert forall|i: int| 0 <= i < ma.len() implies (#[trigger] ma[i]).0@ == mb[i].0@ && same_json(
        ma[i].1,
        mb[i].1,
    ) by {
        if i == 1 {
            assert(mb[i].1 is Str);
        }
    }
}

/// Law: the bytes of `state.json` are fixed by the state: any two
/// documents of the same state print the same text.
pub proof fn law_state_text_is_determined(a: JsonValue, b: JsonValue, m: StateModel)
    requires
        is_state_doc(a, m),
        is_state_doc(b, m),
    ensures
        state_file_text(a) == state_file_text(b),
{
    lemma_state_docs_same(a, b, m);
    lemma_same_json_pretty(a, b, 0);
}

} // verus!
