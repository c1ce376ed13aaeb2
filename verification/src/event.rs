//! Both the command, [`SqlxEvent`], and what is reported of it,
//! [`SqlxEventStatus`].
//!
//! A submitted [`SqlxEvent`] is first answered by
//! - [`SqlxEventStatus::Start`]
//!
//! Then, once its task has finished, by
//! - [`SqlxEventStatus::Return`] with the records, if it does not synchronize,
//! - one [`SqlxEventStatus::Spawn`] or [`SqlxEventStatus::Update`] for each
//!   record, if it does,
//! - [`SqlxEventStatus::Error`], if it failed.

use crate::component::{SqlxColumn, SqlxColumnView};
use crate::database::SqlxDatabase;
use crate::tasks::{spawn_task, SqlxTasks};
use bevy_tasks::AsyncComputeTaskPool;
use core::future::Future;
use sqlx::Error;
use std::sync::Arc;
use vstd::arithmetic::div_mod::{
    lemma_add_mod_noop, lemma_mod_equivalence, lemma_small_mod,
};
use vstd::prelude::*;

verus! {

/// The type of [`SqlxEvent`] IDs
pub type SqlxEventId = u32;

/// `sqlx::Error`, the driver's error. It is carried from a failed command to
/// its [`SqlxEventStatus::Error`]; nothing in this crate looks inside it.
#[verifier::external_type_specification]
#[verifier::external_body]
pub struct ExError(sqlx::Error);

/// The source of [`SqlxEvent`] IDs: a counter that starts at 1 and wraps.
///
/// IDs are only compared among commands that are in flight together, so a
/// wrapped counter is harmless.
#[derive(Debug)]
pub struct SqlxEventIdGenerator {
    next: SqlxEventId,
}

impl View for SqlxEventIdGenerator {
    type V = SqlxEventId;

    /// The ID that is handed out next.
    closed spec fn view(&self) -> SqlxEventId {
        self.next
    }
}

/// The ID that follows `id`: one more, and 0 after the largest.
pub open spec fn id_after(id: SqlxEventId) -> SqlxEventId {
    if id == SqlxEventId::MAX {
        0
    } else {
        (id + 1) as SqlxEventId
    }
}

impl SqlxEventIdGenerator {
    pub fn new() -> (generator: SqlxEventIdGenerator)
        ensures
            generator@ == 1,
    {
        SqlxEventIdGenerator { next: 1 }
    }

    /// A counter that hands out `next` first.
    pub fn starting_at(next: SqlxEventId) -> (generator: SqlxEventIdGenerator)
        ensures
            generator@ == next,
    {
        SqlxEventIdGenerator { next }
    }
}

impl Default for SqlxEventIdGenerator {
    fn default() -> (generator: SqlxEventIdGenerator)
        ensures
            generator@ == 1,
    {
        SqlxEventIdGenerator::new()
    }
}

/// Takes the next ID from `generator`.
pub fn next_event_id(generator: &mut SqlxEventIdGenerator) -> (id: SqlxEventId)
    ensures
        id == old(generator)@,
        final(generator)@ == id_after(id),
{
    let id = generator.next;
    generator.next = id.wrapping_add(1);
    id
}

/// The ID that is handed out once `taken` IDs were taken, `id` being the
/// first of them.
pub open spec fn id_after_many(id: SqlxEventId, taken: nat) -> SqlxEventId
    decreases taken,
{
    if taken == 0 {
        id
    } else {
        id_after(id_after_many(id, (taken - 1) as nat))
    }
}

/// The counter counts modulo 2^32.
proof fn lemma_id_after_many(id: SqlxEventId, taken: nat)
    ensures
        id_after_many(id, taken) == (id + taken) % 0x1_0000_0000,
    decreases taken,
{
    if taken == 0 {
        lemma_small_mod(id as nat, 0x1_0000_0000);
    } else {
        lemma_id_after_many(id, (taken - 1) as nat);
        let before = id_after_many(id, (taken - 1) as nat);
        lemma_add_mod_noop((id + taken - 1) as int, 1, 0x1_0000_0000);
        lemma_small_mod(1, 0x1_0000_0000);
        if before != SqlxEventId::MAX {
            lemma_small_mod((before + 1) as nat, 0x1_0000_0000);
        }
    }
}

/// IDs that are taken one after another differ from each other, as long as
/// fewer than 2^32 lie between them: among the commands that are in flight
/// together, an ID names one command.
pub proof fn lemma_ids_differ(id: SqlxEventId, earlier: nat, later: nat)
    requires
        earlier < later,
        later - earlier < 0x1_0000_0000,
    ensures
        id_after_many(id, earlier) != id_after_many(id, later),
{
    lemma_id_after_many(id, earlier);
    lemma_id_after_many(id, later);
    lemma_mod_equivalence((id + later) as int, (id + earlier) as int, 0x1_0000_0000);
    lemma_small_mod((later - earlier) as nat, 0x1_0000_0000);
}

/// What a command runs: SQL text that is handed to the driver as it is, or a
/// function with access to the pool.
///
/// The SQL text is not checked and no parameter is bound to it: text that was
/// put together from outside input is an injection risk. Prefer a function
/// that binds its parameters.
///
/// The function is shared: a copy of a command runs the same function.
#[derive(Debug)]
pub enum SqlxEventFunc<F> {
    Query(String),
    Call(Arc<F>),
}

/// A [`SqlxEventFunc`] as a mathematical value.
pub enum SqlxEventFuncView<F> {
    Query(Seq<char>),
    Call(F),
}

impl<F> View for SqlxEventFunc<F> {
    type V = SqlxEventFuncView<F>;

    open spec fn view(&self) -> SqlxEventFuncView<F> {
        match *self {
            SqlxEventFunc::Query(sql) => SqlxEventFuncView::Query(sql@),
            SqlxEventFunc::Call(func) => SqlxEventFuncView::Call(*func),
        }
    }
}

/// `Arc::clone` of std: another pointer to the same allocation, and so to the
/// same value.
#[verifier::external_body]
fn share<F>(func: &Arc<F>) -> (shared: Arc<F>)
    ensures
        shared == *func,
{
    Arc::clone(func)
}

impl<F> Clone for SqlxEventFunc<F> {
    fn clone(&self) -> (func: SqlxEventFunc<F>)
        ensures
            func@ == self@,
    {
        match self {
            SqlxEventFunc::Query(sql) => SqlxEventFunc::Query(sql.clone()),
            SqlxEventFunc::Call(func) => SqlxEventFunc::Call(share(func)),
        }
    }
}

/// A command for fetching data from the database.
///
/// Its function runs only after the command was handed to
/// [`SqlxEvent::handle_events`]; making a command does nothing else.
#[derive(Debug)]
pub struct SqlxEvent<F> {
    func: SqlxEventFunc<F>,
    id: SqlxEventId,
    will_sync: bool,
    label: Option<String>,
}

/// A label as a mathematical value.
pub open spec fn label_view(label: Option<String>) -> Option<Seq<char>> {
    match label {
        Some(label) => Some(label@),
        None => None,
    }
}

/// A [`SqlxEvent`] as a mathematical value.
pub struct SqlxEventView<F> {
    pub func: SqlxEventFuncView<F>,
    pub id: SqlxEventId,
    pub will_sync: bool,
    pub label: Option<Seq<char>>,
}

impl<F> View for SqlxEvent<F> {
    type V = SqlxEventView<F>;

    closed spec fn view(&self) -> SqlxEventView<F> {
        SqlxEventView {
            func: self.func@,
            id: self.id,
            will_sync: self.will_sync,
            label: label_view(self.label),
        }
    }
}

impl<F> Clone for SqlxEvent<F> {
    /// A copy is the same command: it bears the same id and runs the same
    /// function.
    fn clone(&self) -> (event: SqlxEvent<F>)
        ensures
            event@ == self@,
    {
        SqlxEvent {
            func: self.func.clone(),
            id: self.id,
            will_sync: self.will_sync,
            label: match &self.label {
                Some(label) => Some(label.clone()),
                None => None,
            },
        }
    }
}

impl<F> SqlxEvent<F> {
    /// Construct a new [`SqlxEvent`] from the given SQL string
    ///
    /// Its records are reported by a [`SqlxEventStatus::Return`].
    pub fn query(generator: &mut SqlxEventIdGenerator, sql: &str) -> (event: Self)
        ensures
            event@ == (SqlxEventView {
                func: SqlxEventFuncView::<F>::Query(sql@),
                id: old(generator)@,
                will_sync: false,
                label: Some(sql@),
            }),
            final(generator)@ == id_after(old(generator)@),
    {
        Self::query_private(generator, false, sql)
    }

    /// Construct a new synchronizing [`SqlxEvent`] from the given SQL string
    ///
    /// Its records are merged into the entities; each is reported by a
    /// [`SqlxEventStatus::Spawn`] or a [`SqlxEventStatus::Update`].
    pub fn query_sync(generator: &mut SqlxEventIdGenerator, sql: &str) -> (event: Self)
        ensures
            event@ == (SqlxEventView {
                func: SqlxEventFuncView::<F>::Query(sql@),
                id: old(generator)@,
                will_sync: true,
                label: Some(sql@),
            }),
            final(generator)@ == id_after(old(generator)@),
    {
        Self::query_private(generator, true, sql)
    }

    fn query_private(generator: &mut SqlxEventIdGenerator, sync: bool, sql: &str) -> (event: Self)
        ensures
            event@ == (SqlxEventView {
                func: SqlxEventFuncView::<F>::Query(sql@),
                id: old(generator)@,
                will_sync: sync,
                label: Some(sql@),
            }),
            final(generator)@ == id_after(old(generator)@),
    {
        SqlxEvent {
            func: SqlxEventFunc::Query(sql.to_owned()),
            id: next_event_id(generator),
            will_sync: sync,
            label: Some(sql.to_owned()),
        }
    }

    /// Construct a new [`SqlxEvent`] from the given function with access to
    /// the pool
    ///
    /// Its records are reported by a [`SqlxEventStatus::Return`].
    pub fn call(
        generator: &mut SqlxEventIdGenerator,
        label: Option<String>,
        func: F,
    ) -> (event: Self)
        ensures
            event@ == (SqlxEventView {
                func: SqlxEventFuncView::Call(func),
                id: old(generator)@,
                will_sync: false,
                label: label_view(label),
            }),
            final(generator)@ == id_after(old(generator)@),
    {
        Self::call_private(generator, false, label, func)
    }

    /// Construct a new synchronizing [`SqlxEvent`] from the given function
    /// with access to the pool
    ///
    /// Its records are merged into the entities; each is reported by a
    /// [`SqlxEventStatus::Spawn`] or a [`SqlxEventStatus::Update`].
    pub fn call_sync(
        generator: &mut SqlxEventIdGenerator,
        label: Option<String>,
        func: F,
    ) -> (event: Self)
        ensures
            event@ == (SqlxEventView {
                func: SqlxEventFuncView::Call(func),
                id: old(generator)@,
                will_sync: true,
                label: label_view(label),
            }),
            final(generator)@ == id_after(old(generator)@),
    {
        Self::call_private(generator, true, label, func)
    }

    fn call_private(
        generator: &mut SqlxEventIdGenerator,
        sync: bool,
        label: Option<String>,
        func: F,
    ) -> (event: Self)
        ensures
            event@ == (SqlxEventView {
                func: SqlxEventFuncView::Call(func),
                id: old(generator)@,
                will_sync: sync,
                label: label_view(label),
            }),
            final(generator)@ == id_after(old(generator)@),
    {
        SqlxEvent {
            func: SqlxEventFunc::Call(Arc::new(func)),
            id: next_event_id(generator),
            will_sync: sync,
            label,
        }
    }

    /// Return the id of this event
    pub fn id(&self) -> (id: SqlxEventId)
        ensures
            id == self@.id,
    {
        self.id
    }

    /// Return true if this event will sync its records to the entities
    pub fn will_sync(&self) -> (will_sync: bool)
        ensures
            will_sync == self@.will_sync,
    {
        self.will_sync
    }

    /// Return the text that names this event to a reader: the SQL text of a
    /// query, or what the caller gave.
    pub fn label(&self) -> (label: Option<&str>)
        ensures
            match label {
                Some(text) => self@.label == Some(text@),
                None => self@.label is None,
            },
    {
        match &self.label {
            Some(label) => Some(label.as_str()),
            None => None,
        }
    }

    /// Return what this event runs
    pub fn func(&self) -> (func: &SqlxEventFunc<F>)
        ensures
            func@ == self@.func,
    {
        &self.func
    }
}

/// The statuses as mathematical values.
pub open spec fn status_views<C>(status: Seq<SqlxEventStatus<C>>) -> Seq<SqlxEventStatusView<C>> {
    status.map_values(|s: SqlxEventStatus<C>| s@)
}

/// Of each event, what is kept of it while its task is outstanding: its id
/// and whether it synchronizes.
pub open spec fn started_tasks<F>(events: Seq<SqlxEvent<F>>) -> Seq<(SqlxEventId, bool)> {
    events.map_values(|event: SqlxEvent<F>| (event@.id, event@.will_sync))
}

/// For each started command, the [`SqlxEventStatus::Start`] that bears its
/// id.
pub open spec fn start_status<C>(tasks: Seq<(SqlxEventId, bool)>) -> Seq<SqlxEventStatusView<C>> {
    tasks.map_values(|task: (SqlxEventId, bool)| SqlxEventStatusView::Start(task.0))
}

/// Whether what a command runs can be started on `pool`: SQL text always can,
/// a function if it can be called with the pool.
pub open spec fn can_start<P, T, F: Fn(P) -> T>(func: SqlxEventFuncView<F>, pool: P) -> bool {
    match func {
        SqlxEventFuncView::Query(_) => true,
        SqlxEventFuncView::Call(func) => call_requires(func, (pool,)),
    }
}

impl<F> SqlxEvent<F> {
    /// Starts the newly submitted events, in the order in which they were
    /// submitted.
    ///
    /// For each event:
    /// - a [`SqlxEventStatus::Start`] is emitted,
    /// - its function is called with a clone of the pool, or `fetch_all` with
    ///   the clone and the SQL text, which gives a future and must not block,
    /// - the future is handed to the task pool,
    /// - the task is added to the outstanding `tasks`, behind those that were
    ///   outstanding, which stay as they are.
    ///
    /// Nothing is waited for. A command that fails does so later, in its
    /// future. A function that cannot be called is a programming error, and no
    /// such function may be handed in.
    pub fn handle_events<P, C, T, Q, U>(
        database: &SqlxDatabase<P>,
        task_pool: &AsyncComputeTaskPool,
        fetch_all: &Q,
        tasks: &mut SqlxTasks<C>,
        events: &Vec<SqlxEvent<F>>,
    ) -> (status: Vec<SqlxEventStatus<C>>) where
        P: Clone,
        C: Send + 'static,
        F: Fn(P) -> T,
        T: Future<Output = Result<Vec<C>, Error>> + Send + 'static,
        Q: Fn(P, String) -> U,
        U: Future<Output = Result<Vec<C>, Error>> + Send + 'static,

        requires
            forall|pool: P, sql: String| call_requires(fetch_all, (pool, sql)),
            forall|i: int, pool: P|
                0 <= i < events@.len() ==> #[trigger] can_start(events@[i]@.func, pool),
        ensures
            final(tasks)@ == old(tasks)@ + started_tasks(events@),
            old(tasks).handles().is_prefix_of(final(tasks).handles()),
            status_views(status@) == start_status::<C>(started_tasks(events@)),
    {
        let mut status: Vec<SqlxEventStatus<C>> = Vec::new();
        let mut i: usize = 0;
        while i < events.len()
            invariant
                i <= events.len(),
                forall|pool: P, sql: String| call_requires(fetch_all, (pool, sql)),
                forall|i: int, pool: P|
                    0 <= i < events@.len() ==> #[trigger] can_start(events@[i]@.func, pool),
                tasks@ == old(tasks)@ + started_tasks(events@.take(i as int)),
                old(tasks).handles().is_prefix_of(tasks.handles()),
                status_views(status@) == start_status::<C>(started_tasks(events@.take(i as int))),
            decreases events.len() - i,
        {
            let event = &events[i];
            let ghost status_before = status@;
            status.push(SqlxEventStatus::Start(event.id));
            assert(status_views(status@) =~= status_views(status_before).push(
                SqlxEventStatusView::Start(event@.id),
            ));
            let db = database.pool.clone();
            assert(can_start(events@[i as int]@.func, db));
            let task = match &event.func {
                SqlxEventFunc::Query(sql) => spawn_task(task_pool, fetch_all(db, sql.clone())),
                SqlxEventFunc::Call(func) => {
                    let func: &F = &**func;
                    spawn_task(task_pool, func(db))
                },
            };
            tasks.push(event.id, event.will_sync, task);
            assert(started_tasks(events@.take(i + 1)) =~= started_tasks(
                events@.take(i as int),
            ).push((event@.id, event@.will_sync)));
            i += 1;
        }
        status
    }
}

/// What is reported while a [`SqlxEvent`] is processed
#[derive(Debug)]
pub enum SqlxEventStatus<C> {
    Start(SqlxEventId),
    Return(SqlxEventId, Vec<C>),
    Spawn(SqlxEventId, SqlxColumn),
    Update(SqlxEventId, SqlxColumn),
    Error(SqlxEventId, sqlx::Error),
}

/// A [`SqlxEventStatus`] as a mathematical value.
pub enum SqlxEventStatusView<C> {
    Start(SqlxEventId),
    Return(SqlxEventId, Seq<C>),
    Spawn(SqlxEventId, SqlxColumnView),
    Update(SqlxEventId, SqlxColumnView),
    Error(SqlxEventId, sqlx::Error),
}

impl<C> SqlxEventStatusView<C> {
    /// The command that this status is about.
    pub open spec fn id(self) -> SqlxEventId {
        match self {
            SqlxEventStatusView::Start(id) => id,
            SqlxEventStatusView::Return(id, _) => id,
            SqlxEventStatusView::Spawn(id, _) => id,
            SqlxEventStatusView::Update(id, _) => id,
            SqlxEventStatusView::Error(id, _) => id,
        }
    }
}

impl<C> View for SqlxEventStatus<C> {
    type V = SqlxEventStatusView<C>;

    open spec fn view(&self) -> SqlxEventStatusView<C> {
        match *self {
            SqlxEventStatus::Start(id) => SqlxEventStatusView::Start(id),
            SqlxEventStatus::Return(id, components) => SqlxEventStatusView::Return(id, components@),
            SqlxEventStatus::Spawn(id, key) => SqlxEventStatusView::Spawn(id, key@),
            SqlxEventStatus::Update(id, key) => SqlxEventStatusView::Update(id, key@),
            SqlxEventStatus::Error(id, error) => SqlxEventStatusView::Error(id, error),
        }
    }
}

impl<C> SqlxEventStatus<C> {
    /// Return the id of the event that this status is about
    pub fn id(&self) -> (id: SqlxEventId)
        ensures
            id == self@.id(),
    {
        match self {
            SqlxEventStatus::Start(id)
            | SqlxEventStatus::Return(id, _)
            | SqlxEventStatus::Spawn(id, _)
            | SqlxEventStatus::Update(id, _)
            | SqlxEventStatus::Error(id, _) => *id,
        }
    }
}

} // verus!
