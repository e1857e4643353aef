//! The verified logic of a task planner: tasks and their relations, advice and
//! clarification from a language model, decomposition of tasks, and the
//! bookkeeping around them.

pub mod advice_laws;
pub mod advisor;
pub mod answer_form;
pub mod batch;
pub mod batch_laws;
pub mod clarify;
pub mod clarify_batch;
pub mod clarify_laws;
pub mod classify;
pub mod command_laws;
pub mod commands;
pub mod conduct;
pub mod confirming;
pub mod decisions;
pub mod decompose;
pub mod decompose_laws;
pub mod desk;
pub mod display;
pub mod display_laws;
pub mod editor;
pub mod form_laws;
pub mod history_laws;
pub mod host;
pub mod ids;
pub mod interview;
pub mod interview_laws;
pub mod json;
pub mod list_laws;
pub mod log;
pub mod log_laws;
pub mod maps;
pub mod model;
pub mod name_laws;
pub mod order;
pub mod outcome_laws;
pub mod parts;
pub mod persist;
pub mod plan;
pub mod plan_laws;
pub mod preferences;
pub mod prompt_laws;
pub mod prompts;
pub mod relations;
pub mod replies;
pub mod reply_laws;
pub mod report;
pub mod report_laws;
pub mod resolve;
pub mod review;
pub mod review_form;
pub mod review_laws;
pub mod review_order;
pub mod review_session;
pub mod selection;
pub mod selection_laws;
pub mod sessions;
pub mod shuffle;
pub mod shuffle_laws;
pub mod store;
pub mod success_laws;
pub mod tables;
pub mod task_laws;
pub mod tasks;
pub mod text;
pub mod text_laws;
pub mod textmap;
pub mod time;
pub mod time_laws;
pub mod transport;
pub mod watch;
pub mod watch_laws;
pub mod word_laws;
