//! The tables in which a store is kept: how its parts are laid out as rows, and read back.

use crate::ids::{hyphenated_id, hyphenated_text, read_id, uuid_value, Id};
use crate::model::{log_list, LogEntry, LogEntryView};
use crate::text::{fails_with, same_text, text_option, texts};
use vstd::prelude::*;
use vstd::string::*;

verus! {

/// A key and a value.
pub type Pair = (String, String);

/// An id and a text.
pub type Entry = (Id, String);

/// The rows of a table, and the names of their columns.
#[derive(Debug, PartialEq, Eq)]
pub struct TableRows {
    pub table: String,
    pub columns: String,
    pub rows: Vec<Pair>,
}

pub struct TableRowsView {
    pub table: Seq<char>,
    pub columns: Seq<char>,
    pub rows: Seq<(Seq<char>, Seq<char>)>,
}

impl View for TableRows {
    type V = TableRowsView;

    open spec fn view(&self) -> TableRowsView {
        TableRowsView {
            table: self.table@,
            columns: self.columns@,
            rows: pair_list(self.rows@),
        }
    }
}

/// Pairs by their views.
pub open spec fn pair_list(rows: Seq<Pair>) -> Seq<(Seq<char>, Seq<char>)> {
    rows.map_values(|row: Pair| (row.0@, row.1@))
}

/// Entries by their views.
pub open spec fn entry_list(entries: Seq<Entry>) -> Seq<(Id, Seq<char>)> {
    entries.map_values(|entry: Entry| (entry.0, entry.1@))
}

/// Tables by their views.
pub open spec fn table_list(tables: Seq<TableRows>) -> Seq<TableRowsView> {
    tables.map_values(|table: TableRows| table@)
}

/// The parts of a store of which there is one each, as texts. One that is missing was never
/// written.
#[derive(Debug, PartialEq, Eq)]
pub struct Singletons {
    pub preferences: Option<String>,
    pub decision_history: Option<String>,
    pub ollama_model: Option<String>,
    pub poll_snapshot: Option<String>,
    pub batch_passes: Option<String>,
    pub clarify_sessions: Option<String>,
    pub pending_decompositions: Option<String>,
    pub decomposition_history: Option<String>,
    pub pending_event_deletions: Option<String>,
}

pub struct SingletonsView {
    pub preferences: Option<Seq<char>>,
    pub decision_history: Option<Seq<char>>,
    pub ollama_model: Option<Seq<char>>,
    pub poll_snapshot: Option<Seq<char>>,
    pub batch_passes: Option<Seq<char>>,
    pub clarify_sessions: Option<Seq<char>>,
    pub pending_decompositions: Option<Seq<char>>,
    pub decomposition_history: Option<Seq<char>>,
    pub pending_event_deletions: Option<Seq<char>>,
}

impl View for Singletons {
    type V = SingletonsView;

    open spec fn view(&self) -> SingletonsView {
        SingletonsView {
            preferences: text_option(self.preferences),
            decision_history: text_option(self.decision_history),
            ollama_model: text_option(self.ollama_model),
            poll_snapshot: text_option(self.poll_snapshot),
            batch_passes: text_option(self.batch_passes),
            clarify_sessions: text_option(self.clarify_sessions),
            pending_decompositions: text_option(self.pending_decompositions),
            decomposition_history: text_option(self.decomposition_history),
            pending_event_deletions: text_option(self.pending_event_deletions),
        }
    }
}

/// The parts of a store that are written anew each time, as texts.
#[derive(Debug, PartialEq, Eq)]
pub struct StoreTexts {
    pub objectives: Vec<Entry>,
    pub tasks: Vec<Entry>,
    pub routines: Vec<Entry>,
    pub bundles: Vec<Entry>,
    pub pending_decisions: Vec<Entry>,
    pub calendar_links: Vec<Entry>,
    pub export_signatures: Vec<Entry>,
    pub category_colors: Vec<Pair>,
    pub singletons: Singletons,
}

pub struct StoreTextsView {
    pub objectives: Seq<(Id, Seq<char>)>,
    pub tasks: Seq<(Id, Seq<char>)>,
    pub routines: Seq<(Id, Seq<char>)>,
    pub bundles: Seq<(Id, Seq<char>)>,
    pub pending_decisions: Seq<(Id, Seq<char>)>,
    pub calendar_links: Seq<(Id, Seq<char>)>,
    pub export_signatures: Seq<(Id, Seq<char>)>,
    pub category_colors: Seq<(Seq<char>, Seq<char>)>,
    pub singletons: SingletonsView,
}

impl View for StoreTexts {
    type V = StoreTextsView;

    open spec fn view(&self) -> StoreTextsView {
        StoreTextsView {
            objectives: entry_list(self.objectives@),
            tasks: entry_list(self.tasks@),
            routines: entry_list(self.routines@),
            bundles: entry_list(self.bundles@),
            pending_decisions: entry_list(self.pending_decisions@),
            calendar_links: entry_list(self.calendar_links@),
            export_signatures: entry_list(self.export_signatures@),
            category_colors: pair_list(self.category_colors@),
            singletons: self.singletons@,
        }
    }
}

// ---- Writing ----

/// The rows of entries: their ids in hyphenated groups, and their texts.
pub open spec fn entry_rows(entries: Seq<(Id, Seq<char>)>) -> Seq<(Seq<char>, Seq<char>)> {
    entries.map_values(|entry: (Id, Seq<char>)| (hyphenated_id(entry.0), entry.1))
}

/// The row of a part of which there is one, if it is there.
pub open spec fn single_row(key: Seq<char>, data: Option<Seq<char>>) -> Seq<(Seq<char>, Seq<char>)> {
    match data {
        Some(data) => seq![(key, data)],
        None => Seq::empty(),
    }
}

impl SingletonsView {
    /// The rows of the parts that are there.
    pub open spec fn rows(self) -> Seq<(Seq<char>, Seq<char>)> {
        single_row("preferences"@, self.preferences)
            + single_row("decision_history"@, self.decision_history)
            + single_row("ollama_model"@, self.ollama_model)
            + single_row("poll_snapshot"@, self.poll_snapshot)
            + single_row("batch_passes"@, self.batch_passes)
            + single_row("clarify_sessions"@, self.clarify_sessions)
            + single_row("pending_decompositions"@, self.pending_decompositions)
            + single_row("decomposition_history"@, self.decomposition_history)
            + single_row("pending_event_deletions"@, self.pending_event_deletions)
    }
}

/// A table of entries.
pub open spec fn entry_table(
    table: Seq<char>,
    columns: Seq<char>,
    entries: Seq<(Id, Seq<char>)>,
) -> TableRowsView {
    TableRowsView { table, columns, rows: entry_rows(entries) }
}

impl StoreTextsView {
    /// The tables that are written anew, in the order of writing.
    pub open spec fn tables(self) -> Seq<TableRowsView> {
        seq![
            entry_table("objectives"@, "id, data"@, self.objectives),
            entry_table("tasks"@, "id, data"@, self.tasks),
            entry_table("routines"@, "id, data"@, self.routines),
            entry_table("bundles"@, "id, data"@, self.bundles),
            entry_table("pending_decisions"@, "id, data"@, self.pending_decisions),
            entry_table("calendar_links"@, "id, value"@, self.calendar_links),
            entry_table("export_signatures"@, "id, value"@, self.export_signatures),
            TableRowsView {
                table: "category_colors"@,
                columns: "category, color"@,
                rows: self.category_colors,
            },
            TableRowsView {
                table: "singletons"@,
                columns: "key, data"@,
                rows: self.singletons.rows(),
            },
        ]
    }
}

/// Whether a text is read as an id.
pub open spec fn reads_as(text: Seq<char>, id: Id) -> bool {
    uuid_value(text) is Ok && uuid_value(text)->Ok_0 == id
}

/// Whether the keys of rows are read as the ids of entries with the same texts.
pub open spec fn are_read(
    rows: Seq<(Seq<char>, Seq<char>)>,
    entries: Seq<(Id, Seq<char>)>,
) -> bool {
    &&& rows.len() == entries.len()
    &&& forall|i: int|
        0 <= i < rows.len() ==> reads_as((#[trigger] rows[i]).0, entries[i].0) && rows[i].1
            == entries[i].1
}

fn rows_of(entries: &Vec<Entry>) -> (rows: Vec<Pair>)
    ensures
        pair_list(rows@) == entry_rows(entry_list(entries@)),
        are_read(pair_list(rows@), entry_list(entries@)),
{
    let mut rows: Vec<Pair> = Vec::new();
    let mut i: usize = 0;
    while i < entries.len()
        invariant
            i <= entries@.len(),
            rows@.len() == i,
            forall|k: int|
                0 <= k < i ==> (#[trigger] rows@[k]).0@ == hyphenated_id(entries@[k].0)
                    && rows@[k].1@ == entries@[k].1@ && reads_as(rows@[k].0@, entries@[k].0),
        decreases entries@.len() - i,
    {
        let entry = &entries[i];
        rows.push((hyphenated_text(entry.0), entry.1.clone()));
        i = i + 1;
    }
    assert(pair_list(rows@) =~= entry_rows(entry_list(entries@)));
    rows
}

fn table_of(table: &str, columns: &str, entries: &Vec<Entry>) -> (rows: TableRows)
    ensures
        rows@ == entry_table(table@, columns@, entry_list(entries@)),
        are_read(rows@.rows, entry_list(entries@)),
{
    TableRows { table: table.to_owned(), columns: columns.to_owned(), rows: rows_of(entries) }
}

fn copy_pairs(pairs: &Vec<Pair>) -> (copy: Vec<Pair>)
    ensures
        pair_list(copy@) == pair_list(pairs@),
{
    let mut copy: Vec<Pair> = Vec::new();
    let mut i: usize = 0;
    while i < pairs.len()
        invariant
            i <= pairs@.len(),
            copy@.len() == i,
            forall|k: int|
                0 <= k < i ==> (#[trigger] copy@[k]).0@ == pairs@[k].0@ && copy@[k].1@
                    == pairs@[k].1@,
        decreases pairs@.len() - i,
    {
        let pair = &pairs[i];
        copy.push((pair.0.clone(), pair.1.clone()));
        i = i + 1;
    }
    assert(pair_list(copy@) =~= pair_list(pairs@));
    copy
}

fn push_single(rows: &mut Vec<Pair>, key: &str, data: &Option<String>)
    ensures
        pair_list(final(rows)@) == pair_list(old(rows)@) + single_row(key@, text_option(*data)),
{
    match data {
        Some(data) => {
            rows.push((key.to_owned(), data.clone()));
        },
        None => {},
    }
    assert(pair_list(rows@) =~= pair_list(old(rows)@) + single_row(key@, text_option(*data)));
}

fn single_rows(singletons: &Singletons) -> (rows: Vec<Pair>)
    ensures
        pair_list(rows@) == singletons@.rows(),
{
    let mut rows: Vec<Pair> = Vec::new();
    assert(pair_list(rows@) =~= Seq::empty());
    push_single(&mut rows, "preferences", &singletons.preferences);
    push_single(&mut rows, "decision_history", &singletons.decision_history);
    push_single(&mut rows, "ollama_model", &singletons.ollama_model);
    push_single(&mut rows, "poll_snapshot", &singletons.poll_snapshot);
    push_single(&mut rows, "batch_passes", &singletons.batch_passes);
    push_single(&mut rows, "clarify_sessions", &singletons.clarify_sessions);
    push_single(&mut rows, "pending_decompositions", &singletons.pending_decompositions);
    push_single(&mut rows, "decomposition_history", &singletons.decomposition_history);
    push_single(&mut rows, "pending_event_deletions", &singletons.pending_event_deletions);
    assert(pair_list(rows@) =~= singletons@.rows());
    rows
}

/// The tables that are written anew, in the order of writing. What they hold is read back.
pub fn bounded_tables(store: &StoreTexts) -> (tables: Vec<TableRows>)
    ensures
        table_list(tables@) == store@.tables(),
        loaded(table_list(tables@)) == Ok::<LoadedTextsView, Seq<char>>(store@.read_back()),
{
    let mut tables: Vec<TableRows> = Vec::new();
    tables.push(table_of("objectives", "id, data", &store.objectives));
    tables.push(table_of("tasks", "id, data", &store.tasks));
    tables.push(table_of("routines", "id, data", &store.routines));
    tables.push(table_of("bundles", "id, data", &store.bundles));
    tables.push(table_of("pending_decisions", "id, data", &store.pending_decisions));
    tables.push(table_of("calendar_links", "id, value", &store.calendar_links));
    tables.push(table_of("export_signatures", "id, value", &store.export_signatures));
    tables.push(
        TableRows {
            table: "category_colors".to_owned(),
            columns: "category, color".to_owned(),
            rows: copy_pairs(&store.category_colors),
        },
    );
    tables.push(
        TableRows {
            table: "singletons".to_owned(),
            columns: "key, data".to_owned(),
            rows: single_rows(&store.singletons),
        },
    );
    assert(table_list(tables@) =~= store@.tables());
    proof {
        let all = table_list(tables@);
        assert(all[0] == tables@[0]@);
        table_is_found(all, 0);
        assert(all[1] == tables@[1]@);
        table_is_found(all, 1);
        assert(all[2] == tables@[2]@);
        table_is_found(all, 2);
        assert(all[3] == tables@[3]@);
        table_is_found(all, 3);
        assert(all[4] == tables@[4]@);
        table_is_found(all, 4);
        assert(all[5] == tables@[5]@);
        table_is_found(all, 5);
        assert(all[6] == tables@[6]@);
        table_is_found(all, 6);
        assert(all[7] == tables@[7]@);
        table_is_found(all, 7);
        assert(all[8] == tables@[8]@);
        table_is_found(all, 8);
        entries_are_read("objectives"@, all[0].rows, store@.objectives, all[0].rows.len() as int);
        assert(store@.objectives.take(store@.objectives.len() as int) =~= store@.objectives);
        entries_are_read("tasks"@, all[1].rows, store@.tasks, all[1].rows.len() as int);
        assert(store@.tasks.take(store@.tasks.len() as int) =~= store@.tasks);
        entries_are_read("routines"@, all[2].rows, store@.routines, all[2].rows.len() as int);
        assert(store@.routines.take(store@.routines.len() as int) =~= store@.routines);
        entries_are_read("bundles"@, all[3].rows, store@.bundles, all[3].rows.len() as int);
        assert(store@.bundles.take(store@.bundles.len() as int) =~= store@.bundles);
        entries_are_read("calendar_links"@, all[5].rows, store@.calendar_links, all[5].rows.len() as int);
        assert(store@.calendar_links.take(store@.calendar_links.len() as int) =~= store@.calendar_links);
        entries_are_read("export_signatures"@, all[6].rows, store@.export_signatures, all[6].rows.len() as int);
        assert(store@.export_signatures.take(store@.export_signatures.len() as int) =~= store@.export_signatures);
        assert(second_parts(all[4].rows) =~= second_texts_of(store@.pending_decisions));
        singletons_are_read(store@.singletons);
    }
    tables
}

/// The texts of entries.
pub open spec fn second_texts_of(entries: Seq<(Id, Seq<char>)>) -> Seq<Seq<char>> {
    entries.map_values(|entry: (Id, Seq<char>)| entry.1)
}

impl StoreTextsView {
    /// What is read back of the parts that were written: all of it, but for the ids of the
    /// decisions that wait, which their texts hold too.
    pub open spec fn read_back(self) -> LoadedTextsView {
        LoadedTextsView {
            objectives: self.objectives,
            tasks: self.tasks,
            routines: self.routines,
            bundles: self.bundles,
            calendar_links: self.calendar_links,
            export_signatures: self.export_signatures,
            pending_decisions: second_texts_of(self.pending_decisions),
            category_colors: self.category_colors,
            singletons: self.singletons,
        }
    }
}

/// The names of the tables.
pub open spec fn table_names() -> Seq<Seq<char>> {
    seq![
        "objectives"@,
        "tasks"@,
        "routines"@,
        "bundles"@,
        "pending_decisions"@,
        "calendar_links"@,
        "export_signatures"@,
        "category_colors"@,
        "singletons"@,
    ]
}

proof fn names_differ()
    ensures
        forall|i: int, j: int|
            0 <= i < j < 9 ==> #[trigger] table_names()[i] != #[trigger] table_names()[j],
{
    reveal_strlit("objectives");
    reveal_strlit("tasks");
    reveal_strlit("routines");
    reveal_strlit("bundles");
    reveal_strlit("pending_decisions");
    reveal_strlit("calendar_links");
    reveal_strlit("export_signatures");
    reveal_strlit("category_colors");
    reveal_strlit("singletons");
    let names = table_names();
    assert forall|i: int, j: int| 0 <= i < j < 9 implies #[trigger] names[i]
        != #[trigger] names[j] by {
        // Their lengths, first letters and second letters tell them apart.
        let a = names[i];
        let b = names[j];
        assert(a.len() != b.len() || a[0] != b[0] || a[1] != b[1]);
    }
}

proof fn rows_start_at(tables: Seq<TableRowsView>, table: Seq<char>, from: int, at: int)
    requires
        0 <= from <= at < tables.len(),
        tables[at].table == table,
        forall|i: int| from <= i < at ==> (#[trigger] tables[i]).table != table,
    ensures
        rows_in(tables, table, from) == tables[at].rows,
    decreases at - from,
{
    if from < at {
        rows_start_at(tables, table, from + 1, at);
    }
}

proof fn table_is_found(tables: Seq<TableRowsView>, at: int)
    requires
        0 <= at < 9,
        tables.len() == 9,
        forall|i: int| 0 <= i < 9 ==> (#[trigger] tables[i]).table == table_names()[i],
    ensures
        rows_in(tables, table_names()[at], 0) == tables[at].rows,
{
    names_differ();
    assert forall|i: int| 0 <= i < at implies (#[trigger] tables[i]).table != table_names()[at] by {
        assert(table_names()[i] != table_names()[at]);
    }
    rows_start_at(tables, table_names()[at], 0, at);
}

proof fn entries_are_read(
    table: Seq<char>,
    rows: Seq<(Seq<char>, Seq<char>)>,
    entries: Seq<(Id, Seq<char>)>,
    n: int,
)
    requires
        are_read(rows, entries),
        0 <= n <= rows.len(),
    ensures
        entries_in(table, rows, n) == Ok::<Seq<(Id, Seq<char>)>, Seq<char>>(entries.take(n)),
    decreases n,
{
    if n > 0 {
        entries_are_read(table, rows, entries, n - 1);
        assert(reads_as(rows[n - 1].0, entries[n - 1].0));
        assert(entries.take(n) =~= entries.take(n - 1).push(entries[n - 1]));
    } else {
        assert(entries.take(0) =~= Seq::empty());
    }
}

proof fn value_in_first_rows(
    a: Seq<(Seq<char>, Seq<char>)>,
    b: Seq<(Seq<char>, Seq<char>)>,
    key: Seq<char>,
    n: int,
)
    requires
        0 <= n <= a.len(),
    ensures
        value_of(a + b, key, n) == value_of(a, key, n),
    decreases n,
{
    if n > 0 {
        value_in_first_rows(a, b, key, n - 1);
    }
}

/// The value of a key among rows to which the row of a part was added.
proof fn value_with_row(
    rows: Seq<(Seq<char>, Seq<char>)>,
    part: Seq<char>,
    data: Option<Seq<char>>,
    key: Seq<char>,
)
    ensures
        ({
            let more = rows + single_row(part, data);
            value_of(more, key, more.len() as int) == if part == key && data is Some {
                data
            } else {
                value_of(rows, key, rows.len() as int)
            }
        }),
{
    value_in_first_rows(rows, single_row(part, data), key, rows.len() as int);
    if data is None {
        assert(rows + single_row(part, data) =~= rows);
    }
}

/// The rows of the first `n` parts.
spec fn first_rows(parts: Seq<(Seq<char>, Option<Seq<char>>)>, n: int) -> Seq<
    (Seq<char>, Seq<char>),
>
    decreases n,
{
    if n <= 0 {
        Seq::empty()
    } else {
        first_rows(parts, n - 1) + single_row(parts[n - 1].0, parts[n - 1].1)
    }
}

proof fn part_is_read(parts: Seq<(Seq<char>, Option<Seq<char>>)>, at: int, n: int)
    requires
        0 <= at < parts.len(),
        0 <= n <= parts.len(),
        forall|i: int, j: int|
            0 <= i < j < parts.len() ==> (#[trigger] parts[i]).0 != (#[trigger] parts[j]).0,
    ensures
        value_of(first_rows(parts, n), parts[at].0, first_rows(parts, n).len() as int) == if at < n {
            parts[at].1
        } else {
            None
        },
    decreases n,
{
    if n > 0 {
        part_is_read(parts, at, n - 1);
        value_with_row(first_rows(parts, n - 1), parts[n - 1].0, parts[n - 1].1, parts[at].0);
        if at != n - 1 {
            assert(parts[at].0 != parts[n - 1].0);
        }
    }
}

proof fn singletons_are_read(singletons: SingletonsView)
    ensures
        singletons_in(singletons.rows()) == singletons,
{
    reveal_strlit("preferences");
    reveal_strlit("decision_history");
    reveal_strlit("ollama_model");
    reveal_strlit("poll_snapshot");
    reveal_strlit("batch_passes");
    reveal_strlit("clarify_sessions");
    reveal_strlit("pending_decompositions");
    reveal_strlit("decomposition_history");
    reveal_strlit("pending_event_deletions");
    let parts: Seq<(Seq<char>, Option<Seq<char>>)> = seq![
        ("preferences"@, singletons.preferences),
        ("decision_history"@, singletons.decision_history),
        ("ollama_model"@, singletons.ollama_model),
        ("poll_snapshot"@, singletons.poll_snapshot),
        ("batch_passes"@, singletons.batch_passes),
        ("clarify_sessions"@, singletons.clarify_sessions),
        ("pending_decompositions"@, singletons.pending_decompositions),
        ("decomposition_history"@, singletons.decomposition_history),
        ("pending_event_deletions"@, singletons.pending_event_deletions),
    ];
    assert forall|i: int, j: int| 0 <= i < j < parts.len() implies (#[trigger] parts[i]).0 != (
    #[trigger] parts[j]).0 by {
        let a = parts[i].0;
        let b = parts[j].0;
        assert(a.len() != b.len() || a[0] != b[0] || a[8] != b[8]);
    }
    reveal_with_fuel(first_rows, 10);
    assert(first_rows(parts, 9) =~= singletons.rows());
    part_is_read(parts, 0, 9);
    part_is_read(parts, 1, 9);
    part_is_read(parts, 2, 9);
    part_is_read(parts, 3, 9);
    part_is_read(parts, 4, 9);
    part_is_read(parts, 5, 9);
    part_is_read(parts, 6, 9);
    part_is_read(parts, 7, 9);
    part_is_read(parts, 8, 9);
}

/// A row of the log: the id of an entry, its time in whole seconds, and its text.
#[derive(Debug, PartialEq, Eq)]
pub struct LogRow {
    pub id: String,
    pub at: i64,
    pub data: String,
}

/// Whether a row stands for an entry of the log with a text: its id is read back.
pub open spec fn is_log_row(row: LogRow, entry: LogEntryView, data: Seq<char>) -> bool {
    &&& row.id@ == hyphenated_id(entry.id)
    &&& uuid_value(row.id@) is Ok && uuid_value(row.id@)->Ok_0 == entry.id
    &&& row.at == entry.at.secs()
    &&& row.data@ == data
}

/// The rows of the log, in its order.
pub fn log_rows(log: &Vec<LogEntry>, data: &Vec<String>) -> (rows: Vec<LogRow>)
    requires
        log@.len() == data@.len(),
    ensures
        rows@.len() == log@.len(),
        forall|i: int|
            0 <= i < rows@.len() ==> is_log_row(
                #[trigger] rows@[i],
                log_list(log@)[i],
                texts(data@)[i],
            ),
{
    let mut rows: Vec<LogRow> = Vec::new();
    let mut i: usize = 0;
    while i < log.len()
        invariant
            i <= log@.len(),
            log@.len() == data@.len(),
            rows@.len() == i,
            forall|k: int|
                0 <= k < i ==> is_log_row(
                    #[trigger] rows@[k],
                    log_list(log@)[k],
                    texts(data@)[k],
                ),
        decreases log@.len() - i,
    {
        let entry = &log[i];
        rows.push(
            LogRow {
                id: hyphenated_text(entry.id),
                at: entry.at.timestamp(),
                data: data[i].clone(),
            },
        );
        assert(log_list(log@)[i as int] == entry@);
        i = i + 1;
    }
    rows
}

/// The rows of a log whose ids differ and whose seconds do not decrease have ids that differ and
/// times that do not decrease: none of them takes the place of another, and in the order of time,
/// and of writing where that is the same, they stand as in the log.
pub proof fn log_rows_stand_in_order(
    rows: Seq<LogRow>,
    log: Seq<LogEntryView>,
    data: Seq<Seq<char>>,
)
    requires
        rows.len() == log.len(),
        forall|i: int|
            0 <= i < rows.len() ==> is_log_row(#[trigger] rows[i], log[i], data[i]),
        forall|i: int, j: int|
            0 <= i < j < log.len() ==> (#[trigger] log[i]).id != (#[trigger] log[j]).id
                && log[i].at.secs() <= log[j].at.secs(),
    ensures
        forall|i: int, j: int|
            0 <= i < j < rows.len() ==> (#[trigger] rows[i]).id@ != (#[trigger] rows[j]).id@
                && rows[i].at <= rows[j].at,
{
    assert forall|i: int, j: int| 0 <= i < j < rows.len() implies (#[trigger] rows[i]).id@ != (
    #[trigger] rows[j]).id@ && rows[i].at <= rows[j].at by {
        assert(is_log_row(rows[i], log[i], data[i]));
        assert(is_log_row(rows[j], log[j], data[j]));
        assert(log[i].id != log[j].id);
    }
}

// ---- Reading ----

/// The rows of the first table with a name, or none.
pub open spec fn rows_in(tables: Seq<TableRowsView>, table: Seq<char>, from: int) -> Seq<
    (Seq<char>, Seq<char>),
>
    decreases tables.len() - from,
{
    if from >= tables.len() {
        Seq::empty()
    } else if tables[from].table == table {
        tables[from].rows
    } else {
        rows_in(tables, table, from + 1)
    }
}

/// The entries of the first `n` rows of a table, or the words for the first bad id.
pub open spec fn entries_in(
    table: Seq<char>,
    rows: Seq<(Seq<char>, Seq<char>)>,
    n: int,
) -> Result<Seq<(Id, Seq<char>)>, Seq<char>>
    decreases n,
{
    if n <= 0 {
        Ok(Seq::empty())
    } else {
        match entries_in(table, rows, n - 1) {
            Err(words) => Err(words),
            Ok(before) => match uuid_value(rows[n - 1].0) {
                Ok(id) => Ok(before.push((id, rows[n - 1].1))),
                Err(error) => Err(bad_id_words(table, error)),
            },
        }
    }
}

/// The words for a bad id.
pub open spec fn bad_id_words(table: Seq<char>, error: Seq<char>) -> Seq<char> {
    "invalid SQLite "@ + table + ": UUID parsing failed: "@ + error
}

/// The value of the last of the first `n` rows with a key.
pub open spec fn value_of(rows: Seq<(Seq<char>, Seq<char>)>, key: Seq<char>, n: int) -> Option<
    Seq<char>,
>
    decreases n,
{
    if n <= 0 {
        None
    } else if rows[n - 1].0 == key {
        Some(rows[n - 1].1)
    } else {
        value_of(rows, key, n - 1)
    }
}

/// The parts of which there is one each, as the rows give them. Other keys are passed over.
pub open spec fn singletons_in(rows: Seq<(Seq<char>, Seq<char>)>) -> SingletonsView {
    let n = rows.len() as int;
    SingletonsView {
        preferences: value_of(rows, "preferences"@, n),
        decision_history: value_of(rows, "decision_history"@, n),
        ollama_model: value_of(rows, "ollama_model"@, n),
        poll_snapshot: value_of(rows, "poll_snapshot"@, n),
        batch_passes: value_of(rows, "batch_passes"@, n),
        clarify_sessions: value_of(rows, "clarify_sessions"@, n),
        pending_decompositions: value_of(rows, "pending_decompositions"@, n),
        decomposition_history: value_of(rows, "decomposition_history"@, n),
        pending_event_deletions: value_of(rows, "pending_event_deletions"@, n),
    }
}

/// The parts of a store as they were read. Of the decisions that wait only the texts count.
#[derive(Debug, PartialEq, Eq)]
pub struct LoadedTexts {
    pub objectives: Vec<Entry>,
    pub tasks: Vec<Entry>,
    pub routines: Vec<Entry>,
    pub bundles: Vec<Entry>,
    pub calendar_links: Vec<Entry>,
    pub export_signatures: Vec<Entry>,
    pub pending_decisions: Vec<String>,
    pub category_colors: Vec<Pair>,
    pub singletons: Singletons,
}

pub struct LoadedTextsView {
    pub objectives: Seq<(Id, Seq<char>)>,
    pub tasks: Seq<(Id, Seq<char>)>,
    pub routines: Seq<(Id, Seq<char>)>,
    pub bundles: Seq<(Id, Seq<char>)>,
    pub calendar_links: Seq<(Id, Seq<char>)>,
    pub export_signatures: Seq<(Id, Seq<char>)>,
    pub pending_decisions: Seq<Seq<char>>,
    pub category_colors: Seq<(Seq<char>, Seq<char>)>,
    pub singletons: SingletonsView,
}

impl View for LoadedTexts {
    type V = LoadedTextsView;

    open spec fn view(&self) -> LoadedTextsView {
        LoadedTextsView {
            objectives: entry_list(self.objectives@),
            tasks: entry_list(self.tasks@),
            routines: entry_list(self.routines@),
            bundles: entry_list(self.bundles@),
            calendar_links: entry_list(self.calendar_links@),
            export_signatures: entry_list(self.export_signatures@),
            pending_decisions: texts(self.pending_decisions@),
            category_colors: pair_list(self.category_colors@),
            singletons: self.singletons@,
        }
    }
}

/// The texts of rows.
pub open spec fn second_parts(rows: Seq<(Seq<char>, Seq<char>)>) -> Seq<Seq<char>> {
    rows.map_values(|row: (Seq<char>, Seq<char>)| row.1)
}

/// The entries of a table among others.
pub open spec fn read_entries(tables: Seq<TableRowsView>, table: Seq<char>) -> Result<
    Seq<(Id, Seq<char>)>,
    Seq<char>,
> {
    let rows = rows_in(tables, table, 0);
    entries_in(table, rows, rows.len() as int)
}

/// The parts of a store in its tables, or the words for the first table with a bad id.
pub open spec fn loaded(tables: Seq<TableRowsView>) -> Result<LoadedTextsView, Seq<char>> {
    match read_entries(tables, "objectives"@) {
        Err(words) => Err(words),
        Ok(objectives) => 
            match read_entries(tables, "tasks"@) {
                Err(words) => Err(words),
                Ok(tasks) => 
                    match read_entries(tables, "routines"@) {
                        Err(words) => Err(words),
                        Ok(routines) => 
                            match read_entries(tables, "bundles"@) {
                                Err(words) => Err(words),
                                Ok(bundles) => 
                                    match read_entries(tables, "calendar_links"@) {
                                        Err(words) => Err(words),
                                        Ok(calendar_links) => 
                                            match read_entries(tables, "export_signatures"@) {
                                                Err(words) => Err(words),
                                                Ok(export_signatures) => 
                                                    Ok(LoadedTextsView {
                                                        objectives,
                                                        tasks,
                                                        routines,
                                                        bundles,
                                                        calendar_links,
                                                        export_signatures,
                                                        pending_decisions: second_parts(rows_in(tables, "pending_decisions"@, 0)),
                                                        category_colors: rows_in(tables, "category_colors"@, 0),
                                                        singletons: singletons_in(rows_in(tables, "singletons"@, 0)),
                                                    }),
                                            },
                                    },
                            },
                    },
            },
    }
}

fn find_rows<'a>(tables: &'a Vec<TableRows>, table: &str) -> (found: Option<&'a Vec<Pair>>)
    ensures
        match found {
            Some(rows) => pair_list(rows@) == rows_in(table_list(tables@), table@, 0),
            None => rows_in(table_list(tables@), table@, 0) == Seq::<(Seq<char>, Seq<char>)>::empty(),
        },
{
    let ghost all = table_list(tables@);
    let mut i: usize = 0;
    while i < tables.len()
        invariant
            i <= tables@.len(),
            all == table_list(tables@),
            rows_in(all, table@, 0) == rows_in(all, table@, i as int),
        decreases tables@.len() - i,
    {
        assert(all[i as int] == tables@[i as int]@);
        if same_text(tables[i].table.as_str(), table) {
            return Some(&tables[i].rows);
        }
        i = i + 1;
    }
    None
}

fn load_entries(tables: &Vec<TableRows>, table: &str) -> (r: Result<Vec<Entry>, String>)
    ensures
        match read_entries(table_list(tables@), table@) {
            Ok(entries) => r is Ok && entry_list(r->Ok_0@) == entries,
            Err(words) => fails_with(r, words),
        },
{
    let mut entries: Vec<Entry> = Vec::new();
    let rows: &Vec<Pair> = match find_rows(tables, table) {
        Some(rows) => rows,
        None => {
            assert(entry_list(entries@) =~= Seq::empty());
            return Ok(entries);
        },
    };
    let ghost all = pair_list(rows@);
    let mut i: usize = 0;
    assert(entry_list(entries@) =~= Seq::empty());
    while i < rows.len()
        invariant
            i <= rows@.len(),
            all == pair_list(rows@),
            all == rows_in(table_list(tables@), table@, 0),
            entries_in(table@, all, i as int) == Ok::<Seq<(Id, Seq<char>)>, Seq<char>>(
                entry_list(entries@),
            ),
        decreases rows@.len() - i,
    {
        let row = &rows[i];
        assert(all[i as int] == (row.0@, row.1@));
        match read_id(row.0.as_str()) {
            Ok(id) => {
                let ghost before = entries@;
                entries.push((id, row.1.clone()));
                assert(entry_list(entries@) =~= entry_list(before).push((id, row.1@)));
            },
            Err(error) => {
                let mut words = "invalid SQLite ".to_owned();
                words.append(table);
                words.append(": UUID parsing failed: ");
                words.append(error.as_str());
                proof {
                    still_bad(table@, all, i + 1, all.len() as int, words@);
                }
                return Err(words);
            },
        }
        i = i + 1;
    }
    Ok(entries)
}

proof fn still_bad(
    table: Seq<char>,
    rows: Seq<(Seq<char>, Seq<char>)>,
    from: int,
    n: int,
    words: Seq<char>,
)
    requires
        0 <= from <= n,
        entries_in(table, rows, from) == Err::<Seq<(Id, Seq<char>)>, Seq<char>>(words),
    ensures
        entries_in(table, rows, n) == Err::<Seq<(Id, Seq<char>)>, Seq<char>>(words),
    decreases n - from,
{
    if from < n {
        still_bad(table, rows, from, n - 1, words);
    }
}

fn find_value(rows: &Vec<Pair>, key: &str) -> (value: Option<String>)
    ensures
        text_option(value) == value_of(pair_list(rows@), key@, rows@.len() as int),
{
    let ghost all = pair_list(rows@);
    let mut i: usize = rows.len();
    while i > 0
        invariant
            i <= rows@.len(),
            all == pair_list(rows@),
            value_of(all, key@, rows@.len() as int) == value_of(all, key@, i as int),
        decreases i,
    {
        let row = &rows[i - 1];
        assert(all[i - 1] == (row.0@, row.1@));
        if same_text(row.0.as_str(), key) {
            return Some(row.1.clone());
        }
        i = i - 1;
    }
    None
}

fn load_singletons(rows: &Vec<Pair>) -> (singletons: Singletons)
    ensures
        singletons@ == singletons_in(pair_list(rows@)),
{
    Singletons {
        preferences: find_value(rows, "preferences"),
        decision_history: find_value(rows, "decision_history"),
        ollama_model: find_value(rows, "ollama_model"),
        poll_snapshot: find_value(rows, "poll_snapshot"),
        batch_passes: find_value(rows, "batch_passes"),
        clarify_sessions: find_value(rows, "clarify_sessions"),
        pending_decompositions: find_value(rows, "pending_decompositions"),
        decomposition_history: find_value(rows, "decomposition_history"),
        pending_event_deletions: find_value(rows, "pending_event_deletions"),
    }
}

fn second_texts(rows: &Vec<Pair>) -> (list: Vec<String>)
    ensures
        texts(list@) == second_parts(pair_list(rows@)),
{
    let mut list: Vec<String> = Vec::new();
    let mut i: usize = 0;
    while i < rows.len()
        invariant
            i <= rows@.len(),
            list@.len() == i,
            forall|k: int| 0 <= k < i ==> (#[trigger] list@[k])@ == rows@[k].1@,
        decreases rows@.len() - i,
    {
        list.push(rows[i].1.clone());
        i = i + 1;
    }
    assert(texts(list@) =~= second_parts(pair_list(rows@)));
    list
}

/// Reads the parts of a store from its tables.
pub fn load_tables(tables: &Vec<TableRows>) -> (r: Result<LoadedTexts, String>)
    ensures
        match loaded(table_list(tables@)) {
            Ok(parts) => r is Ok && r->Ok_0@ == parts,
            Err(words) => fails_with(r, words),
        },
{
    let objectives: Vec<Entry> = match load_entries(tables, "objectives") {
        Ok(entries) => entries,
        Err(words) => {
            return Err(words);
        },
    };
    let tasks: Vec<Entry> = match load_entries(tables, "tasks") {
        Ok(entries) => entries,
        Err(words) => {
            return Err(words);
        },
    };
    let routines: Vec<Entry> = match load_entries(tables, "routines") {
        Ok(entries) => entries,
        Err(words) => {
            return Err(words);
        },
    };
    let bundles: Vec<Entry> = match load_entries(tables, "bundles") {
        Ok(entries) => entries,
        Err(words) => {
            return Err(words);
        },
    };
    let calendar_links: Vec<Entry> = match load_entries(tables, "calendar_links") {
        Ok(entries) => entries,
        Err(words) => {
            return Err(words);
        },
    };
    let export_signatures: Vec<Entry> = match load_entries(tables, "export_signatures") {
        Ok(entries) => entries,
        Err(words) => {
            return Err(words);
        },
    };
    let none: Vec<Pair> = Vec::new();
    assert(pair_list(none@) =~= Seq::empty());
    let pending: &Vec<Pair> = match find_rows(tables, "pending_decisions") {
        Some(rows) => rows,
        None => &none,
    };
    let colors: &Vec<Pair> = match find_rows(tables, "category_colors") {
        Some(rows) => rows,
        None => &none,
    };
    let singles: &Vec<Pair> = match find_rows(tables, "singletons") {
        Some(rows) => rows,
        None => &none,
    };
    Ok(
        LoadedTexts {
            objectives,
            tasks,
            routines,
            bundles,
            calendar_links,
            export_signatures,
            pending_decisions: second_texts(pending),
            category_colors: copy_pairs(colors),
            singletons: load_singletons(singles),
        },
    )
}

/// Of what is written every part is read back, each as it was; of the waiting decisions the texts
/// are, in their order.
pub proof fn every_part_is_read_back(store: StoreTextsView, i: int)
    ensures
        store.read_back().objectives == store.objectives,
        store.read_back().tasks == store.tasks,
        store.read_back().routines == store.routines,
        store.read_back().bundles == store.bundles,
        store.read_back().calendar_links == store.calendar_links,
        store.read_back().export_signatures == store.export_signatures,
        store.read_back().category_colors == store.category_colors,
        store.read_back().singletons == store.singletons,
        store.read_back().pending_decisions.len() == store.pending_decisions.len(),
        0 <= i < store.pending_decisions.len() ==> store.read_back().pending_decisions[i]
            == store.pending_decisions[i].1,
{
}

} // verus!
