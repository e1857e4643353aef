# quick-ubu

A task planner for the command line whose logic is verified with Verus.

The library under `src/` holds the rules: tasks, objectives and their relations, decisions and
their order, advice and interviews led by a language model, decomposition of tasks and taking it
back, batches with a cap on passes, the log, the tables of the store, and the polling of a
calendar. Each public function states in its contract what it returns and changes; what holds
across functions stands as public proof functions.

- `model.rs` has the data and its mathematical model; `store.rs`, `maps.rs` and `textmap.rs` the
  operations on it.
- `ids.rs`, `time.rs`, `json.rs`, `text.rs`, `display.rs` and `shuffle.rs` stand at the edge to
  other crates and to the standard library. What is believed of those is stated there, item by
  item.
- `desk.rs` has the desk at which the model, the operator, the console and the storage are asked;
  it keeps a record of what was done, over which the contracts speak. `host.rs` and
  `transport.rs` say what can be asked, and `conduct.rs` proves how every batch behaves.
- `relations.rs`, `preferences.rs`, `decisions.rs`, `tasks.rs`, `plan.rs`, `report.rs` and
  `resolve.rs` are the planner's commands; `commands.rs` runs them on a stored store.
  `confirming.rs` proves that what the advisor queued can be confirmed.
- `prompts.rs`, `replies.rs`, `advisor.rs`, `classify.rs`, `clarify*.rs`, `interview.rs`,
  `sessions.rs`, `decompose.rs`, `review.rs` and `batch.rs` work with the model.
- `review_order.rs`, `review_session.rs`, `review_form.rs`, `answer_form.rs`, `editor.rs` and
  `display.rs` face the operator.
- `log.rs`, `tables.rs`, `persist.rs` and `watch.rs` are about storage and the calendar.

The program under `app/` adds what cannot be verified: arguments, SQLite, files, the editor, the
model's HTTP transport and the calendar. It uses the workspace crates `ubu_core`, `gcal` and
`ollama_planner`.
