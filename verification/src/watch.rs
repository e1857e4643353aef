//! Calendar polling: noticing changes, and when to run a cycle.

use crate::json::{
    array, boolean, held, held_all, is_flat, json_text, json_value, optional_text_value,
    read_text_entries, text_entries, text_pairs, text_value, write_json, Json,
};
use crate::model::{Store, StoreView};
use crate::text::{decimal, fails_with, push_decimal, text_option};
use crate::textmap::{same_map, text_values, texts_in_order, TextMap};
use crate::time::{
    instant_text, is_instant, is_written_apart, rfc3339_zulu, TimeWindow, Timestamp,
};
use vstd::prelude::*;
use vstd::string::*;

verus! {

/// An event that was fetched from the calendar.
#[derive(Debug, PartialEq, Eq)]
pub struct FetchedEvent {
    pub id: String,
    pub summary: String,
    pub color_id: Option<String>,
    pub start: Timestamp,
    pub end: Timestamp,
    pub transparent: bool,
}

pub struct FetchedEventView {
    pub id: Seq<char>,
    pub summary: Seq<char>,
    pub color_id: Option<Seq<char>>,
    pub start: Timestamp,
    pub end: Timestamp,
    pub transparent: bool,
}

impl View for FetchedEvent {
    type V = FetchedEventView;

    open spec fn view(&self) -> FetchedEventView {
        FetchedEventView {
            id: self.id@,
            summary: self.summary@,
            color_id: text_option(self.color_id),
            start: self.start,
            end: self.end,
            transparent: self.transparent,
        }
    }
}

/// Events by their views.
pub open spec fn event_list(events: Seq<FetchedEvent>) -> Seq<FetchedEventView> {
    events.map_values(|e: FetchedEvent| e@)
}

// ---- Snapshots ----

/// The fields of an event whose change matters, as a JSON array, so that neither delimiters
/// nor quotes nor a missing value can collide. The event's identity is the key of a snapshot,
/// not part of the value.
pub open spec fn event_json(event: FetchedEventView) -> Json {
    Json::Array(
        seq![
            Json::Text(event.summary),
            Json::optional_text(event.color_id),
            Json::Text(rfc3339_zulu(event.start.secs(), event.start.nanos())),
            Json::Text(rfc3339_zulu(event.end.secs(), event.end.nanos())),
            Json::Bool(event.transparent),
        ],
    )
}

/// The fields of an event whose change matters, as a text.
pub open spec fn fingerprint(event: FetchedEventView) -> Seq<char> {
    json_text(event_json(event))
}

/// Whether an instant can be represented, and is told apart from others by how it is written.
pub open spec fn is_told_apart(t: Timestamp) -> bool {
    is_instant(t.secs(), t.nanos()) && is_written_apart(rfc3339_zulu(t.secs(), t.nanos()), t)
}

/// Whether a text is the fingerprint of an event, its fields are read back from it, and its
/// times are told apart.
pub open spec fn is_fingerprint(text: Seq<char>, event: FetchedEventView) -> bool {
    &&& text == fingerprint(event)
    &&& json_value(text) is Ok
    &&& json_value(text)->Ok_0 == event_json(event)
    &&& is_told_apart(event.start)
    &&& is_told_apart(event.end)
}

/// The fields of an event whose change matters.
pub fn event_fingerprint(event: &FetchedEvent) -> (text: String)
    ensures
        text@ == fingerprint(event@),
        is_fingerprint(text@, event@),
{
    let mut fields: Vec<serde_json::Value> = Vec::new();
    fields.push(text_value(event.summary.as_str()));
    fields.push(optional_text_value(&event.color_id));
    fields.push(text_value(instant_text(event.start).as_str()));
    fields.push(text_value(instant_text(event.end).as_str()));
    fields.push(boolean(event.transparent));
    let ghost expected = event_json(event@);
    assert(held_all(fields@) =~= expected->Array_0);
    let value = array(fields);
    assert(is_flat(held(value)));
    write_json(&value)
}

/// Events with the same fingerprint do not differ in the fields whose change matters.
pub proof fn same_fingerprint_same_fields(
    text: Seq<char>,
    a: FetchedEventView,
    b: FetchedEventView,
)
    requires
        is_fingerprint(text, a),
        is_fingerprint(text, b),
    ensures
        a.summary == b.summary,
        a.color_id == b.color_id,
        a.start == b.start,
        a.end == b.end,
        a.transparent == b.transparent,
{
    broadcast use Timestamp::of_its_parts;

    let first = event_json(a)->Array_0;
    let second = event_json(b)->Array_0;
    assert(first == second);
    assert(first[0] == second[0]);
    assert(first[1] == second[1]);
    assert(first[2] == second[2]);
    assert(first[3] == second[3]);
    assert(first[4] == second[4]);
    assert(Timestamp::of(a.start.secs(), a.start.nanos()) == a.start);
    assert(Timestamp::of(b.start.secs(), b.start.nanos()) == b.start);
    assert(Timestamp::of(a.end.secs(), a.end.nanos()) == a.end);
    assert(Timestamp::of(b.end.secs(), b.end.nanos()) == b.end);
}

/// The fingerprints of the first `n` events by their ids; of events with the same id the last
/// one counts.
pub open spec fn snapshot(events: Seq<FetchedEventView>, n: int) -> Map<Seq<char>, Seq<char>>
    decreases n,
{
    if n <= 0 {
        Map::empty()
    } else {
        snapshot(events, n - 1).insert(events[n - 1].id, fingerprint(events[n - 1]))
    }
}

/// Whether the fields of all events are read back from their fingerprints.
pub open spec fn have_fingerprints(events: Seq<FetchedEventView>) -> bool {
    forall|i: int|
        0 <= i < events.len() ==> is_fingerprint(fingerprint(#[trigger] events[i]), events[i])
}

/// The fingerprints of events by their ids.
pub fn snapshot_of(events: &Vec<FetchedEvent>) -> (map: TextMap<String>)
    ensures
        text_values(map@) == snapshot(event_list(events@), events@.len() as int),
        have_fingerprints(event_list(events@)),
{
    let ghost all = event_list(events@);
    let mut map: TextMap<String> = TextMap::new();
    let mut i: usize = 0;
    assert(text_values(map@) =~= snapshot(all, 0));
    while i < events.len()
        invariant
            i <= events@.len(),
            all == event_list(events@),
            text_values(map@) == snapshot(all, i as int),
            forall|k: int|
                0 <= k < i ==> is_fingerprint(fingerprint(#[trigger] all[k]), all[k]),
        decreases events@.len() - i,
    {
        let ghost before = map@;
        assert(all[i as int] == events@[i as int]@);
        map = map.with(events[i].id.clone(), event_fingerprint(&events[i]));
        assert(text_values(map@) =~= text_values(before).insert(
            all[i as int].id,
            fingerprint(all[i as int]),
        ));
        i = i + 1;
    }
    map
}

/// Whether no two events have the same id.
pub open spec fn have_own_ids(events: Seq<FetchedEventView>) -> bool {
    forall|i: int, j: int|
        0 <= i < j < events.len() ==> (#[trigger] events[i]).id != (#[trigger] events[j]).id
}

proof fn snapshot_holds(events: Seq<FetchedEventView>, n: int)
    requires
        have_own_ids(events),
        0 <= n <= events.len(),
    ensures
        forall|i: int|
            0 <= i < n ==> snapshot(events, n).contains_key((#[trigger] events[i]).id)
                && snapshot(events, n)[events[i].id] == fingerprint(events[i]),
        forall|id: Seq<char>| #[trigger]
            snapshot(events, n).contains_key(id) ==> exists|i: int|
                0 <= i < n && (#[trigger] events[i]).id == id,
    decreases n,
{
    if n > 0 {
        snapshot_holds(events, n - 1);
        assert forall|id: Seq<char>| #[trigger] snapshot(events, n).contains_key(id) implies exists|
            i: int,
        |
            0 <= i < n && (#[trigger] events[i]).id == id by {
            if id == events[n - 1].id {
            } else {
                assert(snapshot(events, n - 1).contains_key(id));
            }
        }
    }
}

proof fn snapshot_knows(a: Seq<FetchedEventView>, b: Seq<FetchedEventView>, i: int)
    requires
        have_own_ids(a) && have_own_ids(b),
        have_fingerprints(a) && have_fingerprints(b),
        snapshot(a, a.len() as int) == snapshot(b, b.len() as int),
        0 <= i < a.len(),
    ensures
        b.contains(a[i]),
{
    snapshot_holds(a, a.len() as int);
    snapshot_holds(b, b.len() as int);
    assert(snapshot(b, b.len() as int).contains_key(a[i].id));
    let j = choose|j: int| 0 <= j < b.len() && (#[trigger] b[j]).id == a[i].id;
    assert(fingerprint(a[i]) == fingerprint(b[j]));
    same_fingerprint_same_fields(fingerprint(a[i]), a[i], b[j]);
    assert(a[i] == b[j]);
}

/// Two fetches of events, each with ids of their own, have the same snapshot exactly when they
/// hold the same events, in whatever order: the id, the summary, the color, the times and the
/// transparency all count.
pub proof fn snapshots_tell_events_apart(a: Seq<FetchedEventView>, b: Seq<FetchedEventView>)
    requires
        have_own_ids(a) && have_own_ids(b),
        have_fingerprints(a) && have_fingerprints(b),
    ensures
        snapshot(a, a.len() as int) == snapshot(b, b.len() as int) <==> a.to_set() == b.to_set(),
{
    let first = snapshot(a, a.len() as int);
    let second = snapshot(b, b.len() as int);
    snapshot_holds(a, a.len() as int);
    snapshot_holds(b, b.len() as int);
    if first == second {
        assert forall|e: FetchedEventView| a.to_set().contains(e) == b.to_set().contains(e) by {
            if a.contains(e) {
                let i = choose|i: int| 0 <= i < a.len() && a[i] == e;
                snapshot_knows(a, b, i);
            }
            if b.contains(e) {
                let i = choose|i: int| 0 <= i < b.len() && b[i] == e;
                snapshot_knows(b, a, i);
            }
        }
        assert(a.to_set() =~= b.to_set());
    }
    if a.to_set() == b.to_set() {
        assert forall|id: Seq<char>| #[trigger] first.contains_key(id) implies second.contains_key(id)
            && second[id] == first[id] by {
            let i = choose|i: int| 0 <= i < a.len() && (#[trigger] a[i]).id == id;
            assert(a.to_set().contains(a[i]));
            assert(b.contains(a[i]));
            let j = choose|j: int| 0 <= j < b.len() && b[j] == a[i];
            assert(second.contains_key(b[j].id));
        }
        assert forall|id: Seq<char>| #[trigger] second.contains_key(id) implies first.contains_key(id) by {
            let j = choose|j: int| 0 <= j < b.len() && (#[trigger] b[j]).id == id;
            assert(b.to_set().contains(b[j]));
            assert(a.contains(b[j]));
            let i = choose|i: int| 0 <= i < a.len() && a[i] == b[j];
            assert(first.contains_key(a[i].id));
        }
        assert(first =~= second);
    }
}

/// Whether two snapshots differ.
pub fn has_changes(current: &TextMap<String>, previous: &TextMap<String>) -> (changed: bool)
    ensures
        changed == (text_values(current@) != text_values(previous@)),
{
    !same_map(current, previous)
}

// ---- Colors ----

/// The first `n` entries as a map; of entries with the same key the last one counts.
pub open spec fn entry_map(entries: Seq<(Seq<char>, Seq<char>)>, n: int) -> Map<
    Seq<char>,
    Seq<char>,
>
    decreases n,
{
    if n <= 0 {
        Map::empty()
    } else {
        entry_map(entries, n - 1).insert(entries[n - 1].0, entries[n - 1].1)
    }
}

/// Reads the colors by category out of the contents of a file: a JSON object of texts.
pub fn read_color_config(path: &str, contents: &str) -> (r: Result<TextMap<String>, String>)
    ensures
        match text_entries(contents@) {
            Ok(entries) => r matches Ok(map) && text_values(map@) == entry_map(
                entries,
                entries.len() as int,
            ),
            Err(words) => fails_with(r, "failed to parse "@ + path@ + ": "@ + words),
        },
{
    let entries = match read_text_entries(contents) {
        Ok(entries) => entries,
        Err(error) => {
            let mut words = "failed to parse ".to_owned();
            words.append(path);
            words.append(": ");
            words.append(error.as_str());
            return Err(words);
        },
    };
    let ghost all = text_pairs(entries@);
    let mut map: TextMap<String> = TextMap::new();
    let mut i: usize = 0;
    assert(text_values(map@) =~= entry_map(all, 0));
    while i < entries.len()
        invariant
            i <= entries@.len(),
            all == text_pairs(entries@),
            text_values(map@) == entry_map(all, i as int),
        decreases entries@.len() - i,
    {
        let ghost before = map@;
        let (key, value) = &entries[i];
        assert(all[i as int] == (key@, value@));
        map = map.with(key.clone(), value.clone());
        assert(text_values(map@) =~= text_values(before).insert(key@, value@));
        i = i + 1;
    }
    Ok(map)
}

/// The maps of the second over those of the first.
pub open spec fn overlaid(
    base: Map<Seq<char>, Seq<char>>,
    over: Map<Seq<char>, Seq<char>>,
) -> Map<Seq<char>, Seq<char>> {
    base.union_prefer_right(over)
}

/// Lays a map over another.
pub fn overlay(base: TextMap<String>, over: &TextMap<String>) -> (map: TextMap<String>)
    ensures
        text_values(map@) == overlaid(text_values(base@), text_values(over@)),
{
    let n: usize = over.len();
    let ghost keys = texts_in_order(over@.dom());
    let ghost start = text_values(base@);
    let ghost all = text_values(over@);
    let mut map = base;
    let mut i: usize = 0;
    proof {
        assert(text_values(map@) =~= overlaid(start, all.restrict(keys.take(0).to_set())));
    }
    while i < n
        invariant
            i <= n,
            n == keys.len(),
            keys == texts_in_order(over@.dom()),
            keys.to_set() == over@.dom(),
            all == text_values(over@),
            text_values(map@) == overlaid(start, all.restrict(keys.take(i as int).to_set())),
        decreases n - i,
    {
        let ghost before = map@;
        let key: String = over.key_at(i).clone();
        let value: String = over.value_at(i).clone();
        map = map.with(key, value);
        proof {
            let k = keys[i as int];
            assert(keys.take(i + 1) =~= keys.take(i as int).push(k));
            keys.take(i as int).lemma_push_to_set_commute(k);
            assert(text_values(map@) =~= text_values(before).insert(k, all[k]));
            assert(all.dom().contains(k)) by {
                assert(keys.to_set().contains(k));
            }
            assert(text_values(map@) =~= overlaid(
                start,
                all.restrict(keys.take(i + 1).to_set()),
            ));
        }
        i = i + 1;
    }
    proof {
        assert(keys.take(n as int) =~= keys);
        assert(all.dom() =~= over@.dom());
        assert(all.restrict(keys.to_set()) =~= all);
    }
    map
}

/// The colors of the categories: the defaults, the store's colors over them, and those of a
/// configuration over both.
pub fn effective_color_map(
    defaults: TextMap<String>,
    store: &Store,
    configured: &TextMap<String>,
) -> (colors: TextMap<String>)
    ensures
        text_values(colors@) == overlaid(
            overlaid(text_values(defaults@), store@.category_colors),
            text_values(configured@),
        ),
        forall|category: Seq<char>| #[trigger]
            text_values(colors@).contains_key(category) ==> text_values(colors@)[category]
                == if text_values(configured@).contains_key(category) {
                text_values(configured@)[category]
            } else if store@.category_colors.contains_key(category) {
                store@.category_colors[category]
            } else {
                text_values(defaults@)[category]
            },
{
    overlay(overlay(defaults, &store.category_colors), configured)
}

/// The colors of the categories where nothing else is said.
pub open spec fn default_colors() -> Map<Seq<char>, Seq<char>> {
    map![
        "personal"@ => "3"@,
        "relationship"@ => "5"@,
        "business"@ => "6"@,
        "committed"@ => "11"@,
        "location"@ => "8"@,
        "entertainment"@ => "1"@,
        "grocery"@ => "2"@,
        "commute"@ => "7"@,
        "undefined"@ => "4"@,
        "education_house"@ => "10"@,
        "work"@ => "9"@,
    ]
}

fn with_color(colors: TextMap<String>, category: &str, color: &str) -> (more: TextMap<String>)
    ensures
        text_values(more@) == text_values(colors@).insert(category@, color@),
{
    let ghost before = colors@;
    let more = colors.with(category.to_owned(), color.to_owned());
    assert(text_values(more@) =~= text_values(before).insert(category@, color@));
    more
}

/// The colors of the categories where nothing else is said.
pub fn default_category_colors() -> (colors: TextMap<String>)
    ensures
        text_values(colors@) == default_colors(),
{
    let colors: TextMap<String> = TextMap::new();
    assert(text_values(colors@) =~= Map::<Seq<char>, Seq<char>>::empty());
    let colors = with_color(colors, "personal", "3");
    let colors = with_color(colors, "relationship", "5");
    let colors = with_color(colors, "business", "6");
    let colors = with_color(colors, "committed", "11");
    let colors = with_color(colors, "location", "8");
    let colors = with_color(colors, "entertainment", "1");
    let colors = with_color(colors, "grocery", "2");
    let colors = with_color(colors, "commute", "7");
    let colors = with_color(colors, "undefined", "4");
    let colors = with_color(colors, "education_house", "10");
    with_color(colors, "work", "9")
}

/// The categories of the first `n` of some colors by color; of categories with the same color
/// the last one counts.
pub open spec fn inverse(
    colors: Map<Seq<char>, Seq<char>>,
    order: Seq<Seq<char>>,
    n: int,
) -> Map<Seq<char>, Seq<char>>
    decreases n,
{
    if n <= 0 {
        Map::empty()
    } else {
        inverse(colors, order, n - 1).insert(colors[order[n - 1]], order[n - 1])
    }
}

/// The categories by color. Duplicate colors stand for the alphabetically last category.
pub open spec fn categories_by_color(colors: Map<Seq<char>, Seq<char>>) -> Map<
    Seq<char>,
    Seq<char>,
> {
    let order = texts_in_order(colors.dom());
    inverse(colors, order, order.len() as int)
}

/// The categories by color. Duplicate colors stand for the alphabetically last category.
pub fn color_categories(colors: &TextMap<String>) -> (map: TextMap<String>)
    ensures
        text_values(map@) == categories_by_color(text_values(colors@)),
{
    let n: usize = colors.len();
    let ghost all = text_values(colors@);
    let ghost order = texts_in_order(colors@.dom());
    let mut map: TextMap<String> = TextMap::new();
    let mut i: usize = 0;
    proof {
        assert(all.dom() =~= colors@.dom());
        assert(text_values(map@) =~= inverse(all, order, 0));
    }
    while i < n
        invariant
            i <= n,
            n == order.len(),
            order == texts_in_order(colors@.dom()),
            all == text_values(colors@),
            text_values(map@) == inverse(all, order, i as int),
        decreases n - i,
    {
        let ghost before = map@;
        let key: String = colors.key_at(i).clone();
        let color: String = colors.value_at(i).clone();
        assert(all[order[i as int]] == color@);
        map = map.with(color, key);
        assert(text_values(map@) =~= text_values(before).insert(
            all[order[i as int]],
            order[i as int],
        ));
        i = i + 1;
    }
    map
}

/// The window and the colors of a watch, and the most that the tasks of a day may drain.
pub struct WatchConfig {
    pub window: TimeWindow,
    pub color_map: TextMap<String>,
    pub color_to_category: TextMap<String>,
    pub affect_cap: i32,
}

impl WatchConfig {
    pub fn new(window: TimeWindow, color_map: TextMap<String>) -> (config: WatchConfig)
        ensures
            config.window == window,
            config.color_map == color_map,
            text_values(config.color_to_category@) == categories_by_color(
                text_values(color_map@),
            ),
            config.affect_cap == 100,
    {
        let color_to_category = color_categories(&color_map);
        WatchConfig { window, color_map, color_to_category, affect_cap: 100 }
    }
}

// ---- Polling ----

/// Whether a cycle has ever succeeded, whether the last one has to be tried again, and the
/// snapshot to go back to while a new one is being saved.
#[derive(Debug)]
pub struct WatchState {
    pub initialized: bool,
    pub retry_cycle: bool,
    pub previous: Option<TextMap<String>>,
}

pub struct WatchStateView {
    pub initialized: bool,
    pub retry_cycle: bool,
    pub previous: Option<Map<Seq<char>, Seq<char>>>,
}

impl View for WatchState {
    type V = WatchStateView;

    open spec fn view(&self) -> WatchStateView {
        WatchStateView {
            initialized: self.initialized,
            retry_cycle: self.retry_cycle,
            previous: match self.previous {
                Some(map) => Some(text_values(map@)),
                None => None,
            },
        }
    }
}

/// What has happened in a poll.
#[derive(Debug)]
pub enum PollEvent {
    Started,
    Fetched(Vec<FetchedEvent>),
    Imported,
    Planned,
    Exported,
    FetchedAgain(Vec<FetchedEvent>),
    Saved,
    Failed(PollStep, String),
}

pub enum PollEventView {
    Started,
    Fetched(Seq<FetchedEventView>),
    Imported,
    Planned,
    Exported,
    FetchedAgain(Seq<FetchedEventView>),
    Saved,
    Failed(PollStep, Seq<char>),
}

impl View for PollEvent {
    type V = PollEventView;

    open spec fn view(&self) -> PollEventView {
        match *self {
            PollEvent::Started => PollEventView::Started,
            PollEvent::Fetched(events) => PollEventView::Fetched(event_list(events@)),
            PollEvent::Imported => PollEventView::Imported,
            PollEvent::Planned => PollEventView::Planned,
            PollEvent::Exported => PollEventView::Exported,
            PollEvent::FetchedAgain(events) => PollEventView::FetchedAgain(event_list(events@)),
            PollEvent::Saved => PollEventView::Saved,
            PollEvent::Failed(step, error) => PollEventView::Failed(step, error@),
        }
    }
}

/// What a poll does next: a step, or an end. It rests where nothing has changed.
#[derive(Debug, PartialEq, Eq)]
pub enum PollAction {
    Fetch,
    Import,
    Plan,
    Export,
    FetchAgain,
    Save,
    Rest,
    Cycled,
    Fail(String),
}

pub enum PollActionView {
    Fetch,
    Import,
    Plan,
    Export,
    FetchAgain,
    Save,
    Rest,
    Cycled,
    Fail(Seq<char>),
}

impl View for PollAction {
    type V = PollActionView;

    open spec fn view(&self) -> PollActionView {
        match *self {
            PollAction::Fetch => PollActionView::Fetch,
            PollAction::Import => PollActionView::Import,
            PollAction::Plan => PollActionView::Plan,
            PollAction::Export => PollActionView::Export,
            PollAction::FetchAgain => PollActionView::FetchAgain,
            PollAction::Save => PollActionView::Save,
            PollAction::Rest => PollActionView::Rest,
            PollAction::Cycled => PollActionView::Cycled,
            PollAction::Fail(words) => PollActionView::Fail(words@),
        }
    }
}

impl WatchStateView {
    /// Whether a poll that fetched some events has to run a cycle: the first time, after a
    /// failure, and when the events have changed.
    pub open spec fn wants_cycle(self, store: StoreView, events: Seq<FetchedEventView>) -> bool {
        !self.initialized || self.retry_cycle || snapshot(events, events.len() as int)
            != store.poll_snapshot
    }

    /// The state after something has happened.
    pub open spec fn after(self, store: StoreView, event: PollEventView) -> WatchStateView {
        match event {
            PollEventView::Fetched(events) => if self.wants_cycle(store, events) {
                self
            } else {
                WatchStateView { retry_cycle: false, ..self }
            },
            PollEventView::FetchedAgain(events) => WatchStateView {
                previous: Some(store.poll_snapshot),
                ..self
            },
            PollEventView::Saved => WatchStateView {
                initialized: true,
                retry_cycle: false,
                previous: None,
            },
            PollEventView::Failed(step, error) => WatchStateView {
                retry_cycle: true,
                previous: None,
                ..self
            },
            _ => self,
        }
    }

    /// The store after something has happened: the events after an export are the new
    /// snapshot, but the old one comes back where the store cannot be saved.
    pub open spec fn store_after(self, store: StoreView, event: PollEventView) -> StoreView {
        match event {
            PollEventView::FetchedAgain(events) => StoreView {
                poll_snapshot: snapshot(events, events.len() as int),
                ..store
            },
            PollEventView::Failed(step, error) => if step == PollStep::Save && self.previous is Some {
                StoreView { poll_snapshot: self.previous->0, ..store }
            } else {
                store
            },
            _ => store,
        }
    }

    /// What to do next.
    pub open spec fn action(self, store: StoreView, event: PollEventView) -> PollActionView {
        match event {
            PollEventView::Started => PollActionView::Fetch,
            PollEventView::Fetched(events) => if self.wants_cycle(store, events) {
                PollActionView::Import
            } else {
                PollActionView::Rest
            },
            PollEventView::Imported => PollActionView::Plan,
            PollEventView::Planned => PollActionView::Export,
            PollEventView::Exported => PollActionView::FetchAgain,
            PollEventView::FetchedAgain(events) => PollActionView::Save,
            PollEventView::Saved => PollActionView::Cycled,
            PollEventView::Failed(step, error) => PollActionView::Fail(poll_words(step, error)),
        }
    }
}

impl WatchState {
    /// The state before the first poll: a store with a snapshot has seen a cycle.
    pub fn new(store: &Store) -> (state: WatchState)
        ensures
            state@ == (WatchStateView {
                initialized: store@.poll_snapshot != Map::<Seq<char>, Seq<char>>::empty(),
                retry_cycle: false,
                previous: None,
            }),
            forall|events: Seq<FetchedEventView>|
                #[trigger] state@.action(store@, PollEventView::Fetched(events)) is Rest <==> (
                store@.poll_snapshot.dom() != Set::<Seq<char>>::empty() && store@.poll_snapshot
                    == snapshot(events, events.len() as int)),
    {
        let n: usize = store.poll_snapshot.len();
        proof {
            let map = store.poll_snapshot@;
            if map == Map::<Seq<char>, String>::empty() {
                assert(text_values(map) =~= Map::<Seq<char>, Seq<char>>::empty());
            }
            if text_values(map) == Map::<Seq<char>, Seq<char>>::empty() {
                assert forall|k: Seq<char>| !map.dom().contains(k) by {
                    assert(text_values(map).dom().contains(k) == map.dom().contains(k));
                }
                assert(map =~= Map::<Seq<char>, String>::empty());
            }
            if store@.poll_snapshot.dom() == Set::<Seq<char>>::empty() {
                assert(store@.poll_snapshot =~= Map::<Seq<char>, Seq<char>>::empty());
            }
        }
        WatchState { initialized: n > 0, retry_cycle: false, previous: None }
    }

    fn needs_cycle(&self, store: &Store, events: &Vec<FetchedEvent>) -> (b: bool)
        ensures
            b == self@.wants_cycle(store@, event_list(events@)),
            have_fingerprints(event_list(events@)),
    {
        let current = snapshot_of(events);
        !self.initialized || self.retry_cycle || has_changes(&current, &store.poll_snapshot)
    }

    /// Takes note of what has happened in a poll, and tells what to do next. A partial export
    /// or a failed save must be tried again, even if the next fetch happens to match the old
    /// snapshot. An empty calendar counts as seen after a cycle, so that it does not set off
    /// cycles for ever.
    pub fn step(&mut self, store: &mut Store, event: PollEvent) -> (action: PollAction)
        ensures
            final(self)@ == old(self)@.after(old(store)@, event@),
            final(store)@ == old(self)@.store_after(old(store)@, event@),
            action@ == old(self)@.action(old(store)@, event@),
            event matches PollEvent::Fetched(events) ==> have_fingerprints(event_list(events@)),
            event matches PollEvent::FetchedAgain(events) ==> have_fingerprints(
                event_list(events@),
            ),
    {
        match event {
            PollEvent::Started => PollAction::Fetch,
            PollEvent::Fetched(events) => {
                if self.needs_cycle(store, &events) {
                    PollAction::Import
                } else {
                    self.retry_cycle = false;
                    PollAction::Rest
                }
            },
            PollEvent::Imported => PollAction::Plan,
            PollEvent::Planned => PollAction::Export,
            PollEvent::Exported => PollAction::FetchAgain,
            PollEvent::FetchedAgain(events) => {
                self.previous = Some(store.poll_snapshot.copy());
                store.poll_snapshot = snapshot_of(&events);
                PollAction::Save
            },
            PollEvent::Saved => {
                self.initialized = true;
                self.retry_cycle = false;
                self.previous = None;
                PollAction::Cycled
            },
            PollEvent::Failed(step, error) => {
                self.retry_cycle = true;
                match self.previous.take() {
                    Some(previous) => {
                        if step == PollStep::Save {
                            store.poll_snapshot = previous;
                        }
                    },
                    None => {},
                }
                PollAction::Fail(poll_failure(step, error.as_str()))
            },
        }
    }
}

// ---- What a poll tells ----

/// What an import changed.
#[derive(Clone, Copy, Debug, PartialEq, Eq)]
pub struct ImportReport {
    pub captured: usize,
    pub completed: usize,
    pub reopened: usize,
    pub moved: usize,
    pub resized: usize,
    pub removed: usize,
}

/// What an export changed.
#[derive(Clone, Copy, Debug, PartialEq, Eq)]
pub struct ExportReport {
    pub created: usize,
    pub updated: usize,
    pub skipped: usize,
}

/// What a cycle did.
#[derive(Clone, Copy, Debug, PartialEq, Eq)]
pub struct CycleReport {
    pub import: ImportReport,
    pub planned: usize,
    pub conflicts: usize,
    pub export: ExportReport,
}

/// A step of a poll that can fail.
#[derive(Clone, Copy, Debug, PartialEq, Eq, Structural)]
pub enum PollStep {
    Fetch,
    Planning,
    Export,
    FetchAgain,
    Save,
}

/// The words for a poll that failed at a step.
pub open spec fn poll_words(step: PollStep, error: Seq<char>) -> Seq<char> {
    match step {
        PollStep::Fetch => "poll fetch failed: "@ + error,
        PollStep::Planning => "watch planning failed: "@ + error,
        PollStep::Export => "watch export failed: "@ + error,
        PollStep::FetchAgain => "post-export fetch failed: "@ + error,
        PollStep::Save => "watch save failed: "@ + error,
    }
}

/// The words for a poll that failed at a step.
pub fn poll_failure(step: PollStep, error: &str) -> (words: String)
    ensures
        words@ == poll_words(step, error@),
{
    let mut words = match step {
        PollStep::Fetch => "poll fetch failed: ".to_owned(),
        PollStep::Planning => "watch planning failed: ".to_owned(),
        PollStep::Export => "watch export failed: ".to_owned(),
        PollStep::FetchAgain => "post-export fetch failed: ".to_owned(),
        PollStep::Save => "watch save failed: ".to_owned(),
    };
    words.append(error);
    words
}

/// What an import changed, in words.
pub open spec fn import_text(report: ImportReport) -> Seq<char> {
    "captured "@ + decimal(report.captured as int) + ", completed "@ + decimal(
        report.completed as int,
    ) + ", reopened "@ + decimal(report.reopened as int) + ", moved "@ + decimal(
        report.moved as int,
    ) + ", resized "@ + decimal(report.resized as int) + ", removed "@ + decimal(
        report.removed as int,
    )
}

/// What an import changed, in words.
pub fn import_line(report: &ImportReport) -> (line: String)
    ensures
        line@ == import_text(*report),
{
    let mut line = "captured ".to_owned();
    push_decimal(&mut line, report.captured as i128);
    line.append(", completed ");
    push_decimal(&mut line, report.completed as i128);
    line.append(", reopened ");
    push_decimal(&mut line, report.reopened as i128);
    line.append(", moved ");
    push_decimal(&mut line, report.moved as i128);
    line.append(", resized ");
    push_decimal(&mut line, report.resized as i128);
    line.append(", removed ");
    push_decimal(&mut line, report.removed as i128);
    line
}

/// What an export that was asked for changed, in words.
pub open spec fn export_text(report: ExportReport) -> Seq<char> {
    "created "@ + decimal(report.created as int) + ", updated "@ + decimal(report.updated as int)
}

/// What an export that was asked for changed, in words.
pub fn export_line(report: &ExportReport) -> (line: String)
    ensures
        line@ == export_text(*report),
{
    let mut line = "created ".to_owned();
    push_decimal(&mut line, report.created as i128);
    line.append(", updated ");
    push_decimal(&mut line, report.updated as i128);
    line
}

/// What a cycle did, in words.
pub open spec fn cycle_text(report: CycleReport) -> Seq<char> {
    "watch: "@ + import_text(report.import) + "; planned "@ + decimal(report.planned as int)
        + ", conflicts "@ + decimal(report.conflicts as int) + "; created "@ + decimal(
        report.export.created as int,
    ) + ", updated "@ + decimal(report.export.updated as int) + ", skipped "@ + decimal(
        report.export.skipped as int,
    )
}

/// What a cycle did, in words.
pub fn cycle_line(report: &CycleReport) -> (line: String)
    ensures
        line@ == cycle_text(*report),
{
    let mut line = "watch: ".to_owned();
    line.append(import_line(&report.import).as_str());
    line.append("; planned ");
    push_decimal(&mut line, report.planned as i128);
    line.append(", conflicts ");
    push_decimal(&mut line, report.conflicts as i128);
    line.append("; created ");
    push_decimal(&mut line, report.export.created as i128);
    line.append(", updated ");
    push_decimal(&mut line, report.export.updated as i128);
    line.append(", skipped ");
    push_decimal(&mut line, report.export.skipped as i128);
    line
}

// ---- Laws ----

/// After a failure the next poll runs a cycle, whatever it fetches.
pub proof fn failure_is_retried(
    state: WatchStateView,
    store: StoreView,
    step: PollStep,
    error: Seq<char>,
    later: StoreView,
    events: Seq<FetchedEventView>,
)
    ensures
        state.after(store, PollEventView::Failed(step, error)).action(
            later,
            PollEventView::Fetched(events),
        ) == PollActionView::Import,
{
}

/// After a cycle that was saved, a poll rests exactly when it fetches the events that the cycle
/// ended with, in whatever order; any other event, and any change of one, runs a cycle.
pub proof fn poll_rests_on_the_same_events(
    state: WatchStateView,
    store: StoreView,
    before: Seq<FetchedEventView>,
    events: Seq<FetchedEventView>,
)
    requires
        have_own_ids(before) && have_own_ids(events),
        have_fingerprints(before) && have_fingerprints(events),
    ensures
        ({
            let told = PollEventView::FetchedAgain(before);
            let exported = state.after(store, told);
            let saved = exported.after(state.store_after(store, told), PollEventView::Saved);
            let kept = exported.store_after(
                state.store_after(store, told),
                PollEventView::Saved,
            );
            saved.action(kept, PollEventView::Fetched(events)) is Rest <==> events.to_set()
                == before.to_set()
        }),
{
    snapshots_tell_events_apart(events, before);
}

/// A snapshot that cannot be saved leaves no trace in the store.
pub proof fn failed_save_restores_the_store(
    state: WatchStateView,
    store: StoreView,
    events: Seq<FetchedEventView>,
    error: Seq<char>,
)
    ensures
        ({
            let fetched = PollEventView::FetchedAgain(events);
            state.after(store, fetched).store_after(
                state.store_after(store, fetched),
                PollEventView::Failed(PollStep::Save, error),
            ) == store
        }),
{
}

/// After a cycle that ended well, a poll that fetches the same events rests.
pub proof fn unchanged_calendar_rests(
    state: WatchStateView,
    store: StoreView,
    events: Seq<FetchedEventView>,
)
    ensures
        ({
            let fetched = PollEventView::FetchedAgain(events);
            let saving = state.after(store, fetched);
            let saved = state.store_after(store, fetched);
            saving.after(saved, PollEventView::Saved).action(
                saving.store_after(saved, PollEventView::Saved),
                PollEventView::Fetched(events),
            ) == PollActionView::Rest
        }),
{
}

} // verus!
