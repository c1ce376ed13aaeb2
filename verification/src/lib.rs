//! Database commands for a tick-driven host.
//!
//! A command is submitted as an [`SqlxEvent`], runs on a task pool, is polled
//! without blocking, and the records that it returns are merged by primary key
//! into the entities of the host.
//!
//! - [`component`]: what a record is, and its primary key.
//! - [`event`]: the command, its id, and the statuses that report on it;
//!   [`SqlxEvent::handle_events`] starts the submitted commands.
//! - [`tasks`]: the outstanding tasks; [`SqlxTasks::handle_tasks`] polls them
//!   with the host's poll and reconciles what the finished ones returned.
//! - [`entities`]: the primary keys of the entities, the merge of records
//!   into them, and the commands that the host carries out.
//! - [`schedule`]: the order of the statuses over a whole run.
//! - [`database`]: the pool that the commands run against.
//!
//! Once in each tick the host hands the commands that were submitted to
//! [`SqlxEvent::handle_events`], and its poll and the primary keys of its
//! entities to [`SqlxTasks::handle_tasks`]. It sends on the statuses and
//! carries out the commands that come back.

pub mod component;

pub use crate::component::{
    comma_separated, PrimaryKey, SqlxColumn, SqlxColumnView, SqlxColumns, SqlxComponent, ToRow,
};

pub mod database;

pub use crate::database::SqlxDatabase;

pub mod event;

pub use crate::event::{
    can_start, id_after, id_after_many, label_view, lemma_ids_differ, next_event_id, start_status,
    started_tasks, status_views, SqlxEvent, SqlxEventFunc, SqlxEventFuncView, SqlxEventId,
    SqlxEventIdGenerator, SqlxEventStatus, SqlxEventStatusView, SqlxEventView,
};

pub mod entities;

pub use crate::entities::{
    all_fit, applied_all, are_keys_of, is_key_of, lemma_applied_all_len, pass_at, spawned,
    SqlxEffects, SqlxEntities, SqlxEntityCommand, SqlxPass,
};

pub mod tasks;

pub use crate::tasks::{
    found_done, is_key_of_merged, keys_fit, lemma_merged_keys_are_of_records,
    lemma_pending_tasks_unchanged, lemma_still_pending, merged_keys, merges, pending_among,
    pending_tasks, polled_by, polled_fit, still_pending, SqlxPoll, SqlxPolled, SqlxTasks,
};

pub mod schedule;

pub use crate::schedule::{has_start, SqlxSchedule, SqlxStep};
