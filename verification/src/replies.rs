//! What the model proposes: relations between tasks and tags for them.

use crate::ids::Id;
use crate::json::{
    as_array, as_str, as_u64, held, held_all, json_value, present_field, read_json, Json,
};
use crate::model::PrefSuggestion;
use crate::resolve::gives;
use crate::text::{decimal, fails_with, push_decimal, same_text};
use vstd::prelude::*;
use vstd::string::*;

verus! {

/// Proposed relations: a blocked task and its blocker, and preferences between two tasks.
#[derive(Debug, PartialEq, Eq)]
pub struct Proposed {
    pub deps: Vec<(Id, Id)>,
    pub prefs: Vec<(Id, Id, PrefSuggestion)>,
}

impl Default for Proposed {
    fn default() -> (proposed: Proposed)
        ensures
            proposed.deps@ == Seq::<(Id, Id)>::empty(),
            proposed.prefs@ == Seq::<(Id, Id, PrefSuggestion)>::empty(),
    {
        Proposed { deps: Vec::new(), prefs: Vec::new() }
    }
}

/// The proposed relations of a reply.
pub struct ProposedView {
    pub deps: Seq<(Id, Id)>,
    pub prefs: Seq<(Id, Id, PrefSuggestion)>,
}

impl View for Proposed {
    type V = ProposedView;

    open spec fn view(&self) -> ProposedView {
        ProposedView { deps: self.deps@, prefs: self.prefs@ }
    }
}

/// The task that an index, which starts at 1, stands for.
pub open spec fn indexed(value: Json, ids: Seq<Id>) -> Option<Id> {
    match value {
        Json::Integer(n) if 1 <= n <= ids.len() => Some(ids[n - 1]),
        _ => None,
    }
}

fn read_index(value: Option<&serde_json::Value>, ids: &Vec<Id>) -> (id: Option<Id>)
    ensures
        match value {
            Some(v) => id == indexed(held(*v), ids@),
            None => id is None,
        },
{
    let total: u64 = ids.len() as u64;
    let number: Option<u64> = match value {
        Some(v) => as_u64(v),
        None => None,
    };
    match number {
        Some(n) => if 1 <= n && n <= total {
            Some(ids[(n - 1) as usize])
        } else {
            None
        },
        None => None,
    }
}

/// The task that a field of an entry stands for.
pub open spec fn entry_task(entry: Json, key: Seq<char>, ids: Seq<Id>) -> Result<Id, Seq<char>> {
    match indexed(entry.field(key), ids) {
        Some(id) => Ok(id),
        None => Err(
            "advisor "@ + key + " index must be in 1..="@ + decimal(ids.len() as int),
        ),
    }
}

fn read_entry_task(entry: &serde_json::Value, key: &str, ids: &Vec<Id>) -> (r: Result<Id, String>)
    ensures
        gives(r, entry_task(held(*entry), key@, ids@)),
{
    match read_index(present_field(entry, key), ids) {
        Some(id) => Ok(id),
        None => {
            let mut words = "advisor ".to_owned();
            words.append(key);
            words.append(" index must be in 1..=");
            push_decimal(&mut words, ids.len() as i128);
            Err(words)
        },
    }
}

/// The entries of an array in a reply.
pub open spec fn reply_array(value: Json, key: Seq<char>) -> Result<Seq<Json>, Seq<char>> {
    match value.field(key) {
        Json::Array(items) => Ok(items),
        _ => Err("advisor "@ + key + " must be an array"@),
    }
}

fn read_array<'a>(value: &'a serde_json::Value, key: &str) -> (r: Result<
    &'a Vec<serde_json::Value>,
    String,
>)
    ensures
        match reply_array(held(*value), key@) {
            Ok(items) => r is Ok && held_all(r->Ok_0@) == items,
            Err(words) => fails_with(r, words),
        },
{
    let items: Option<&Vec<serde_json::Value>> = match present_field(value, key) {
        Some(field) => as_array(field),
        None => None,
    };
    match items {
        Some(list) => Ok(list),
        None => {
            let mut words = "advisor ".to_owned();
            words.append(key);
            words.append(" must be an array");
            Err(words)
        },
    }
}

/// The dependency that an entry proposes.
pub open spec fn entry_dependency(entry: Json, ids: Seq<Id>) -> Result<(Id, Id), Seq<char>> {
    match entry_task(entry, "blocked"@, ids) {
        Ok(blocked) => match entry_task(entry, "blocker"@, ids) {
            Ok(blocker) => Ok((blocked, blocker)),
            Err(words) => Err(words),
        },
        Err(words) => Err(words),
    }
}

/// The dependencies that the first `n` entries propose, or what is wrong with the first bad one.
pub open spec fn entry_dependencies(entries: Seq<Json>, ids: Seq<Id>, n: int) -> Result<
    Seq<(Id, Id)>,
    Seq<char>,
>
    decreases n,
{
    if n <= 0 {
        Ok(Seq::empty())
    } else {
        match entry_dependencies(entries, ids, n - 1) {
            Ok(list) => match entry_dependency(entries[n - 1], ids) {
                Ok(pair) => Ok(list.push(pair)),
                Err(words) => Err(words),
            },
            Err(words) => Err(words),
        }
    }
}

/// The relation that an entry names.
pub open spec fn entry_relation(entry: Json) -> Option<PrefSuggestion> {
    match entry.field("relation"@) {
        Json::Text(name) => if name == "a_strict_b"@ {
            Some(PrefSuggestion::AStrictB)
        } else if name == "b_strict_a"@ {
            Some(PrefSuggestion::BStrictA)
        } else if name == "indifferent"@ {
            Some(PrefSuggestion::Indifferent)
        } else {
            None
        },
        _ => None,
    }
}

/// The preference that an entry proposes.
pub open spec fn entry_preference(entry: Json, ids: Seq<Id>) -> Result<
    (Id, Id, PrefSuggestion),
    Seq<char>,
> {
    match entry_relation(entry) {
        None => Err("invalid advisor preference relation"@),
        Some(relation) => match entry_task(entry, "a"@, ids) {
            Ok(a) => match entry_task(entry, "b"@, ids) {
                Ok(b) => Ok((a, b, relation)),
                Err(words) => Err(words),
            },
            Err(words) => Err(words),
        },
    }
}

/// The preferences that the first `n` entries propose, or what is wrong with the first bad one.
pub open spec fn entry_preferences(entries: Seq<Json>, ids: Seq<Id>, n: int) -> Result<
    Seq<(Id, Id, PrefSuggestion)>,
    Seq<char>,
>
    decreases n,
{
    if n <= 0 {
        Ok(Seq::empty())
    } else {
        match entry_preferences(entries, ids, n - 1) {
            Ok(list) => match entry_preference(entries[n - 1], ids) {
                Ok(triple) => Ok(list.push(triple)),
                Err(words) => Err(words),
            },
            Err(words) => Err(words),
        }
    }
}

/// The relations that a reply proposes, or what is wrong with it.
pub open spec fn proposals_in(value: Json, ids: Seq<Id>) -> Result<ProposedView, Seq<char>> {
    match reply_array(value, "dependencies"@) {
        Err(words) => Err(words),
        Ok(deps) => match entry_dependencies(deps, ids, deps.len() as int) {
            Err(words) => Err(words),
            Ok(deps) => match reply_array(value, "preferences"@) {
                Err(words) => Err(words),
                Ok(prefs) => match entry_preferences(prefs, ids, prefs.len() as int) {
                    Err(words) => Err(words),
                    Ok(prefs) => Ok(ProposedView { deps, prefs }),
                },
            },
        },
    }
}

/// The relations that the text of a reply proposes, or what is wrong with it.
pub open spec fn proposals_reply(text: Seq<char>, ids: Seq<Id>) -> Result<ProposedView, Seq<char>> {
    match json_value(text) {
        Ok(value) => proposals_in(value, ids),
        Err(words) => Err("invalid advisor JSON: "@ + words),
    }
}

proof fn bad_dependency_spoils_all(entries: Seq<Json>, ids: Seq<Id>, n: int, m: int)
    requires
        0 <= n <= m,
        entry_dependencies(entries, ids, n) is Err,
    ensures
        entry_dependencies(entries, ids, m) == entry_dependencies(entries, ids, n),
    decreases m - n,
{
    if n < m {
        bad_dependency_spoils_all(entries, ids, n, m - 1);
    }
}

proof fn bad_preference_spoils_all(entries: Seq<Json>, ids: Seq<Id>, n: int, m: int)
    requires
        0 <= n <= m,
        entry_preferences(entries, ids, n) is Err,
    ensures
        entry_preferences(entries, ids, m) == entry_preferences(entries, ids, n),
    decreases m - n,
{
    if n < m {
        bad_preference_spoils_all(entries, ids, n, m - 1);
    }
}

fn read_dependencies(entries: &Vec<serde_json::Value>, ids: &Vec<Id>) -> (r: Result<
    Vec<(Id, Id)>,
    String,
>)
    ensures
        match entry_dependencies(held_all(entries@), ids@, entries@.len() as int) {
            Ok(list) => r is Ok && r->Ok_0@ == list,
            Err(words) => fails_with(r, words),
        },
{
    let ghost all = held_all(entries@);
    let mut list: Vec<(Id, Id)> = Vec::new();
    let mut i: usize = 0;
    while i < entries.len()
        invariant
            i <= entries@.len(),
            all == held_all(entries@),
            entry_dependencies(all, ids@, i as int) == Ok::<Seq<(Id, Id)>, Seq<char>>(list@),
        decreases entries@.len() - i,
    {
        let ghost entry = all[i as int];
        assert(entry == held(entries@[i as int]));
        let blocked = read_entry_task(&entries[i], "blocked", ids);
        let blocker = read_entry_task(&entries[i], "blocker", ids);
        match (blocked, blocker) {
            (Ok(a), Ok(b)) => {
                list.push((a, b));
            },
            (Err(words), _) => {
                proof {
                    bad_dependency_spoils_all(all, ids@, i + 1, all.len() as int);
                }
                return Err(words);
            },
            (_, Err(words)) => {
                proof {
                    bad_dependency_spoils_all(all, ids@, i + 1, all.len() as int);
                }
                return Err(words);
            },
        }
        i = i + 1;
    }
    Ok(list)
}

fn read_relation(entry: &serde_json::Value) -> (relation: Option<PrefSuggestion>)
    ensures
        relation == entry_relation(held(*entry)),
{
    let name: Option<&str> = match present_field(entry, "relation") {
        Some(field) => as_str(field),
        None => None,
    };
    match name {
        Some(text) => if same_text(text, "a_strict_b") {
            Some(PrefSuggestion::AStrictB)
        } else if same_text(text, "b_strict_a") {
            Some(PrefSuggestion::BStrictA)
        } else if same_text(text, "indifferent") {
            Some(PrefSuggestion::Indifferent)
        } else {
            None
        },
        None => None,
    }
}

fn read_preference(entry: &serde_json::Value, ids: &Vec<Id>) -> (r: Result<
    (Id, Id, PrefSuggestion),
    String,
>)
    ensures
        gives(r, entry_preference(held(*entry), ids@)),
{
    let relation: PrefSuggestion = match read_relation(entry) {
        Some(relation) => relation,
        None => {
            return Err("invalid advisor preference relation".to_owned());
        },
    };
    let a: Id = match read_entry_task(entry, "a", ids) {
        Ok(id) => id,
        Err(words) => {
            return Err(words);
        },
    };
    let b: Id = match read_entry_task(entry, "b", ids) {
        Ok(id) => id,
        Err(words) => {
            return Err(words);
        },
    };
    Ok((a, b, relation))
}

fn read_preferences(entries: &Vec<serde_json::Value>, ids: &Vec<Id>) -> (r: Result<
    Vec<(Id, Id, PrefSuggestion)>,
    String,
>)
    ensures
        match entry_preferences(held_all(entries@), ids@, entries@.len() as int) {
            Ok(list) => r is Ok && r->Ok_0@ == list,
            Err(words) => fails_with(r, words),
        },
{
    let ghost all = held_all(entries@);
    let mut list: Vec<(Id, Id, PrefSuggestion)> = Vec::new();
    let mut i: usize = 0;
    while i < entries.len()
        invariant
            i <= entries@.len(),
            all == held_all(entries@),
            entry_preferences(all, ids@, i as int) == Ok::<
                Seq<(Id, Id, PrefSuggestion)>,
                Seq<char>,
            >(list@),
        decreases entries@.len() - i,
    {
        assert(all[i as int] == held(entries@[i as int]));
        match read_preference(&entries[i], ids) {
            Ok(triple) => {
                list.push(triple);
            },
            Err(words) => {
                proof {
                    bad_preference_spoils_all(all, ids@, i + 1, all.len() as int);
                }
                return Err(words);
            },
        }
        i = i + 1;
    }
    Ok(list)
}

/// Whether a call gave the expected relations or words.
pub open spec fn gives_proposals(
    r: Result<Proposed, String>,
    expected: Result<ProposedView, Seq<char>>,
) -> bool {
    match expected {
        Ok(proposed) => r is Ok && r->Ok_0@ == proposed,
        Err(words) => fails_with(r, words),
    }
}

/// Reads the proposed relations out of the value of a reply.
pub fn read_proposals(value: &serde_json::Value, index_map: &Vec<Id>) -> (r: Result<
    Proposed,
    String,
>)
    ensures
        gives_proposals(r, proposals_in(held(*value), index_map@)),
{
    let deps = match read_array(value, "dependencies") {
        Ok(list) => list,
        Err(words) => {
            return Err(words);
        },
    };
    let deps = match read_dependencies(deps, index_map) {
        Ok(list) => list,
        Err(words) => {
            return Err(words);
        },
    };
    let prefs = match read_array(value, "preferences") {
        Ok(list) => list,
        Err(words) => {
            return Err(words);
        },
    };
    let prefs = match read_preferences(prefs, index_map) {
        Ok(list) => list,
        Err(words) => {
            return Err(words);
        },
    };
    Ok(Proposed { deps, prefs })
}

/// Reads the proposed relations out of a reply. Indices stand for the tasks of the list.
pub fn parse_proposals(text: &str, index_map: &Vec<Id>) -> (r: Result<Proposed, String>)
    ensures
        gives_proposals(r, proposals_reply(text@, index_map@)),
{
    match read_json(text) {
        Ok(value) => read_proposals(&value, index_map),
        Err(error) => {
            let mut words = "invalid advisor JSON: ".to_owned();
            words.append(error.as_str());
            Err(words)
        },
    }
}

// ---- Tags ----

/// The tag that an entry proposes for a task.
pub open spec fn entry_tag(entry: Json, ids: Seq<Id>) -> Result<(Id, Seq<char>), Seq<char>> {
    match indexed(entry.field("task"@), ids) {
        None => Err("tagging task index must be in 1..="@ + decimal(ids.len() as int)),
        Some(id) => match entry.field("tag"@) {
            Json::Text(tag) => Ok((id, tag)),
            _ => Err("tagging tag must be a string"@),
        },
    }
}

/// The tags that the first `n` entries propose, or what is wrong with the first bad one.
pub open spec fn entry_tags(entries: Seq<Json>, ids: Seq<Id>, n: int) -> Result<
    Seq<(Id, Seq<char>)>,
    Seq<char>,
>
    decreases n,
{
    if n <= 0 {
        Ok(Seq::empty())
    } else {
        match entry_tags(entries, ids, n - 1) {
            Ok(list) => match entry_tag(entries[n - 1], ids) {
                Ok(pair) => Ok(list.push(pair)),
                Err(words) => Err(words),
            },
            Err(words) => Err(words),
        }
    }
}

/// The tags that a reply proposes, or what is wrong with it.
pub open spec fn tags_in(value: Json, ids: Seq<Id>) -> Result<Seq<(Id, Seq<char>)>, Seq<char>> {
    match value.field("tags"@) {
        Json::Array(entries) => entry_tags(entries, ids, entries.len() as int),
        _ => Err("tagging tags must be an array"@),
    }
}

/// The tags that the text of a reply proposes, or what is wrong with it.
pub open spec fn tags_reply(text: Seq<char>, ids: Seq<Id>) -> Result<
    Seq<(Id, Seq<char>)>,
    Seq<char>,
> {
    match json_value(text) {
        Ok(value) => tags_in(value, ids),
        Err(words) => Err("invalid tagging JSON: "@ + words),
    }
}

/// Tags for tasks, by their characters.
pub open spec fn tag_pairs(list: Seq<(Id, String)>) -> Seq<(Id, Seq<char>)> {
    list.map_values(|p: (Id, String)| (p.0, p.1@))
}

/// Whether a call gave the expected tags or words.
pub open spec fn gives_tags(
    r: Result<Vec<(Id, String)>, String>,
    expected: Result<Seq<(Id, Seq<char>)>, Seq<char>>,
) -> bool {
    match expected {
        Ok(list) => r is Ok && tag_pairs(r->Ok_0@) == list,
        Err(words) => fails_with(r, words),
    }
}

proof fn bad_tag_spoils_all(entries: Seq<Json>, ids: Seq<Id>, n: int, m: int)
    requires
        0 <= n <= m,
        entry_tags(entries, ids, n) is Err,
    ensures
        entry_tags(entries, ids, m) == entry_tags(entries, ids, n),
    decreases m - n,
{
    if n < m {
        bad_tag_spoils_all(entries, ids, n, m - 1);
    }
}

fn read_tag(entry: &serde_json::Value, ids: &Vec<Id>) -> (r: Result<(Id, String), String>)
    ensures
        match entry_tag(held(*entry), ids@) {
            Ok(pair) => r is Ok && r->Ok_0.0 == pair.0 && r->Ok_0.1@ == pair.1,
            Err(words) => fails_with(r, words),
        },
{
    let id: Id = match read_index(present_field(entry, "task"), ids) {
        Some(id) => id,
        None => {
            let mut words = "tagging task index must be in 1..=".to_owned();
            push_decimal(&mut words, ids.len() as i128);
            return Err(words);
        },
    };
    let tag: Option<&str> = match present_field(entry, "tag") {
        Some(field) => as_str(field),
        None => None,
    };
    match tag {
        Some(text) => Ok((id, text.to_owned())),
        None => Err("tagging tag must be a string".to_owned()),
    }
}

/// Reads the proposed tags out of the value of a reply.
pub fn read_tags(value: &serde_json::Value, index_map: &Vec<Id>) -> (r: Result<
    Vec<(Id, String)>,
    String,
>)
    ensures
        gives_tags(r, tags_in(held(*value), index_map@)),
{
    let entries: Option<&Vec<serde_json::Value>> = match present_field(value, "tags") {
        Some(field) => as_array(field),
        None => None,
    };
    let entries: &Vec<serde_json::Value> = match entries {
        Some(list) => list,
        None => {
            return Err("tagging tags must be an array".to_owned());
        },
    };
    let ghost all = held_all(entries@);
    let mut list: Vec<(Id, String)> = Vec::new();
    let mut i: usize = 0;
    assert(tag_pairs(list@) =~= Seq::empty());
    while i < entries.len()
        invariant
            i <= entries@.len(),
            all == held_all(entries@),
            held(*value).field("tags"@) == Json::Array(all),
            entry_tags(all, index_map@, i as int) == Ok::<Seq<(Id, Seq<char>)>, Seq<char>>(
                tag_pairs(list@),
            ),
        decreases entries@.len() - i,
    {
        assert(all[i as int] == held(entries@[i as int]));
        match read_tag(&entries[i], index_map) {
            Ok(pair) => {
                let ghost were = list@;
                list.push(pair);
                assert(tag_pairs(list@) =~= tag_pairs(were).push((pair.0, pair.1@)));
            },
            Err(words) => {
                proof {
                    bad_tag_spoils_all(all, index_map@, i + 1, all.len() as int);
                }
                return Err(words);
            },
        }
        i = i + 1;
    }
    Ok(list)
}

/// Reads the proposed tags out of a reply. Indices stand for the tasks of the list.
pub fn parse_tag_proposals(text: &str, index_map: &Vec<Id>) -> (r: Result<
    Vec<(Id, String)>,
    String,
>)
    ensures
        gives_tags(r, tags_reply(text@, index_map@)),
{
    match read_json(text) {
        Ok(value) => read_tags(&value, index_map),
        Err(error) => {
            let mut words = "invalid tagging JSON: ".to_owned();
            words.append(error.as_str());
            Err(words)
        },
    }
}

} // verus!
