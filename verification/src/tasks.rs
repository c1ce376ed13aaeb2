//! The outstanding tasks, and the pass that polls them and reconciles what
//! the finished ones returned.
//!
//! The pass does not poll a task by itself. The host hands in its poll, and
//! with it decides what a task that cannot be polled to an end amounts to: a
//! host that must never unwind reports such a task as a failed command.

use crate::component::{PrimaryKey, SqlxColumnView};
use crate::entities::{
    all_fit, applied_all, are_keys_of, is_key_of, lemma_applied_all_len, pass_at, spawned,
    SqlxEffects, SqlxEntities, SqlxPass,
};
use crate::event::{status_views, SqlxEventId, SqlxEventStatus, SqlxEventStatusView};
use bevy_tasks::{AsyncComputeTaskPool, Task};
use core::future::Future;
use sqlx::Error;
use vstd::prelude::*;

verus! {

/// `bevy_tasks::Task`, a future that was handed to a task pool, as the pool
/// gave it back. It is carried from intake to the pass that polls it; nothing
/// in this crate looks inside it.
#[verifier::external_type_specification]
#[verifier::external_body]
#[verifier::reject_recursive_types(T)]
pub struct ExTask<T>(Task<T>);

/// `bevy_tasks::AsyncComputeTaskPool`, the pool for work that may take longer
/// than one tick. Commands run on it.
#[verifier::external_type_specification]
#[verifier::external_body]
pub struct ExAsyncComputeTaskPool(AsyncComputeTaskPool);

/// `bevy_tasks::TaskPool::spawn`, on the pool behind the
/// `AsyncComputeTaskPool`: hands the future to the pool's threads and returns
/// at once with the task, by which the future's result can be polled for.
///
/// The future has not run when this returns, and nothing is known of the task
/// but its type.
#[verifier::external_body]
pub(crate) fn spawn_task<C, T>(task_pool: &AsyncComputeTaskPool, future: T) -> (task: Task<
    Result<Vec<C>, Error>,
>) where C: Send + 'static, T: Future<Output = Result<Vec<C>, Error>> + Send + 'static {
    task_pool.spawn(future)
}

/// What one poll of a task gave: the task back, if it is not done, or what
/// its future returned.
#[verifier::reject_recursive_types(C)]
#[derive(Debug)]
pub enum SqlxPoll<C> {
    Pending(Task<Result<Vec<C>, Error>>),
    Ready(Result<Vec<C>, Error>),
}

/// The tasks of the commands that were started and have not been seen to
/// finish: of each, the command's id, whether it synchronizes, and the task.
#[verifier::reject_recursive_types(C)]
pub struct SqlxTasks<C> {
    components: Vec<(SqlxEventId, bool, Task<Result<Vec<C>, Error>>)>,
}

impl<C> View for SqlxTasks<C> {
    type V = Seq<(SqlxEventId, bool)>;

    /// Of each outstanding task, the command's id and whether it synchronizes.
    closed spec fn view(&self) -> Seq<(SqlxEventId, bool)> {
        self.components@.map_values(
            |entry: (SqlxEventId, bool, Task<Result<Vec<C>, Error>>)| (entry.0, entry.1),
        )
    }
}

impl<C> Default for SqlxTasks<C> {
    fn default() -> (tasks: SqlxTasks<C>)
        ensures
            tasks@ == Seq::<(SqlxEventId, bool)>::empty(),
            tasks.handles() == Seq::<Task<Result<Vec<C>, Error>>>::empty(),
    {
        SqlxTasks { components: Vec::new() }
    }
}

impl<C> SqlxTasks<C> {
    /// The task of each outstanding entry, in the order of the entries.
    pub closed spec fn handles(&self) -> Seq<Task<Result<Vec<C>, Error>>> {
        self.components@.map_values(
            |entry: (SqlxEventId, bool, Task<Result<Vec<C>, Error>>)| entry.2,
        )
    }

    /// Adds the task of a command that was just started.
    pub fn push(&mut self, id: SqlxEventId, sync: bool, task: Task<Result<Vec<C>, Error>>)
        ensures
            final(self)@ == old(self)@.push((id, sync)),
            final(self).handles() == old(self).handles().push(task),
    {
        self.components.push((id, sync, task));
        assert(self.handles() =~= old(self).handles().push(task));
    }

    pub fn count(&self) -> (count: usize)
        ensures
            count == self@.len(),
    {
        self.components.len()
    }

    pub fn is_empty(&self) -> (empty: bool)
        ensures
            empty == (self@.len() == 0),
    {
        self.components.len() == 0
    }
}

/// What polling one outstanding task gave, and beside it the primary key that
/// each record gave when it was merged.
#[verifier::reject_recursive_types(C)]
pub struct SqlxPolled<C> {
    pub poll: SqlxPoll<C>,
    pub keys: Seq<SqlxColumnView>,
}

impl<C> SqlxPolled<C> {
    /// What the command's future returned, if the task was done.
    pub open spec fn result(self) -> Option<Result<Vec<C>, Error>> {
        match self.poll {
            SqlxPoll::Pending(_) => None,
            SqlxPoll::Ready(result) => Some(result),
        }
    }
}

/// The tasks that the polls handed back as not done, in their order.
pub open spec fn pending_tasks<C>(polled: Seq<SqlxPolled<C>>) -> Seq<Task<Result<Vec<C>, Error>>>
    decreases polled.len(),
{
    if polled.len() == 0 {
        Seq::empty()
    } else {
        let before = pending_tasks(polled.drop_last());
        match polled.last().poll {
            SqlxPoll::Pending(task) => before.push(task),
            SqlxPoll::Ready(_) => before,
        }
    }
}

/// The tasks among `handles` whose poll was not done, in their order.
pub open spec fn pending_among<C>(
    handles: Seq<Task<Result<Vec<C>, Error>>>,
    polled: Seq<SqlxPolled<C>>,
) -> Seq<Task<Result<Vec<C>, Error>>>
    decreases handles.len(),
{
    if handles.len() == 0 {
        Seq::empty()
    } else {
        let before = pending_among(handles.drop_last(), polled.drop_last());
        if polled.last().result() is None {
            before.push(handles.last())
        } else {
            before
        }
    }
}

/// Where every poll that was not done handed back the task that it was given,
/// the tasks that are left are the very tasks that were not done.
pub proof fn lemma_pending_tasks_unchanged<C>(
    handles: Seq<Task<Result<Vec<C>, Error>>>,
    polled: Seq<SqlxPolled<C>>,
)
    requires
        polled.len() == handles.len(),
        forall|i: int|
            0 <= i < handles.len() ==> match (#[trigger] polled[i]).poll {
                SqlxPoll::Pending(task) => task == handles[i],
                SqlxPoll::Ready(_) => true,
            },
    ensures
        pending_tasks(polled) == pending_among(handles, polled),
    decreases handles.len(),
{
    if handles.len() > 0 {
        assert forall|i: int| 0 <= i < handles.drop_last().len() implies match (
        #[trigger] polled.drop_last()[i]).poll {
            SqlxPoll::Pending(task) => task == handles.drop_last()[i],
            SqlxPoll::Ready(_) => true,
        } by {
            assert(polled.drop_last()[i] == polled[i]);
        }
        lemma_pending_tasks_unchanged(handles.drop_last(), polled.drop_last());
        assert(polled.last() == polled[handles.len() - 1]);
    }
}

/// Whether `polled` holds, for each of the tasks at its place, what `poll` gave
/// for it.
pub open spec fn polled_by<C, L: Fn(Task<Result<Vec<C>, Error>>) -> SqlxPoll<C>>(
    poll: &L,
    handles: Seq<Task<Result<Vec<C>, Error>>>,
    polled: Seq<SqlxPolled<C>>,
) -> bool {
    &&& polled.len() == handles.len()
    &&& forall|i: int|
        0 <= i < handles.len() ==> call_ensures(poll, (handles[i],), (#[trigger] polled[i]).poll)
}

impl<C> SqlxPass<C> {
    /// The pass after command `id` has finished with `result`.
    ///
    /// A failure is reported. Records are merged if the command synchronizes,
    /// `keys` holding the primary key of each, and reported as they are if it
    /// does not.
    pub open spec fn finish(
        self,
        id: SqlxEventId,
        sync: bool,
        result: Result<Vec<C>, Error>,
        keys: Seq<SqlxColumnView>,
    ) -> SqlxPass<C> {
        match result {
            Ok(components) => if sync {
                self.sync(id, keys, components@)
            } else {
                SqlxPass {
                    entities: self.entities,
                    status: self.status.push(SqlxEventStatusView::Return(id, components@)),
                    commands: self.commands,
                }
            },
            Err(error) => SqlxPass {
                entities: self.entities,
                status: self.status.push(SqlxEventStatusView::Error(id, error)),
                commands: self.commands,
            },
        }
    }

    /// The pass after each of `tasks` was polled once, first to last, and
    /// those that were done have finished.
    pub open spec fn reconcile(self, tasks: Seq<(SqlxEventId, bool)>, polled: Seq<SqlxPolled<C>>)
        -> SqlxPass<C>
        decreases tasks.len(),
    {
        if tasks.len() == 0 {
            self
        } else {
            let before = self.reconcile(tasks.drop_last(), polled.drop_last());
            match polled.last().result() {
                Some(result) => before.finish(
                    tasks.last().0,
                    tasks.last().1,
                    result,
                    polled.last().keys,
                ),
                None => before,
            }
        }
    }
}

/// Those of `tasks` that were not done when they were polled, in their order.
pub open spec fn still_pending<C>(tasks: Seq<(SqlxEventId, bool)>, polled: Seq<SqlxPolled<C>>)
    -> Seq<(SqlxEventId, bool)>
    decreases tasks.len(),
{
    if tasks.len() == 0 {
        Seq::empty()
    } else {
        let before = still_pending(tasks.drop_last(), polled.drop_last());
        if polled.last().result() is None {
            before.push(tasks.last())
        } else {
            before
        }
    }
}

/// Whether `keys` holds, for each record that is merged when a command
/// finishes with `result`, a primary key that the record gives.
pub open spec fn keys_fit<C: PrimaryKey>(
    sync: bool,
    result: Result<Vec<C>, Error>,
    keys: Seq<SqlxColumnView>,
) -> bool {
    match result {
        Ok(components) => sync ==> are_keys_of(components@, keys),
        Err(_) => true,
    }
}

/// Whether `polled` holds what polling each of `tasks` gave, at the position
/// of the task.
pub open spec fn polled_fit<C: PrimaryKey>(
    tasks: Seq<(SqlxEventId, bool)>,
    polled: Seq<SqlxPolled<C>>,
) -> bool {
    &&& polled.len() == tasks.len()
    &&& forall|i: int|
        0 <= i < tasks.len() ==> match (#[trigger] polled[i]).result() {
            Some(result) => keys_fit(tasks[i].1, result, polled[i].keys),
            None => true,
        }
}

/// The primary keys of the records that the pass merges: those of the
/// commands that synchronize and were found done with `Ok`.
pub open spec fn merged_keys<C>(tasks: Seq<(SqlxEventId, bool)>, polled: Seq<SqlxPolled<C>>)
    -> Set<SqlxColumnView>
    decreases tasks.len(),
{
    if tasks.len() == 0 {
        Set::empty()
    } else {
        let before = merged_keys(tasks.drop_last(), polled.drop_last());
        match polled.last().result() {
            Some(Ok(_)) => if tasks.last().1 {
                before.union(polled.last().keys.to_set())
            } else {
                before
            },
            _ => before,
        }
    }
}

/// Whether the pass merges `component`, as a record that the command of `task`
/// returned.
pub open spec fn merges<C>(task: (SqlxEventId, bool), polled: SqlxPolled<C>, component: C) -> bool {
    task.1 && match polled.result() {
        Some(Ok(components)) => components@.contains(component),
        _ => false,
    }
}

/// Whether `key` is a primary key that one of the records gives which the
/// pass merges.
pub open spec fn is_key_of_merged<C: PrimaryKey>(
    tasks: Seq<(SqlxEventId, bool)>,
    polled: Seq<SqlxPolled<C>>,
    key: SqlxColumnView,
) -> bool {
    exists|t: int, component: C|
        0 <= t < tasks.len() && #[trigger] merges(tasks[t], polled[t], component) && is_key_of(
            component,
            key,
        )
}

/// Whether command `id` is the command of one of `tasks`, and of one that was
/// found done where `polled` holds what polling each task gave.
pub open spec fn found_done<C>(
    tasks: Seq<(SqlxEventId, bool)>,
    polled: Seq<SqlxPolled<C>>,
    id: SqlxEventId,
) -> bool {
    exists|t: int|
        0 <= t < tasks.len() && (#[trigger] tasks[t]).0 == id && (polled.len() == tasks.len()
            ==> polled[t].result() is Some)
}

impl<C: PrimaryKey> SqlxTasks<C> {
    /// What the finished command `id` does to the entities and reports.
    ///
    /// - On `Err`, a [`SqlxEventStatus::Error`] with the error; the entities
    ///   stay as they are.
    /// - On `Ok`, if the command does not synchronize, one
    ///   [`SqlxEventStatus::Return`] with all records; the entities stay as
    ///   they are.
    /// - On `Ok`, if it synchronizes, each record is merged in order: see
    ///   [`SqlxEntities::sync_component`].
    pub fn finish(
        id: SqlxEventId,
        sync: bool,
        result: Result<Vec<C>, Error>,
        entities: &mut SqlxEntities,
        effects: &mut SqlxEffects<C>,
    )
        ensures
            exists|keys: Seq<SqlxColumnView>|
                keys_fit(sync, result, keys) && pass_at(*final(entities), *final(effects))
                    == #[trigger] pass_at(*old(entities), *old(effects)).finish(
                    id,
                    sync,
                    result,
                    keys,
                ),
    {
        let ghost before = pass_at(*entities, *effects);
        match result {
            Ok(components) => {
                if sync {
                    entities.sync(id, components, effects);
                    proof {
                        let keys = choose|keys: Seq<SqlxColumnView>|
                            are_keys_of(components@, keys) && pass_at(*entities, *effects)
                                == #[trigger] before.sync(id, keys, components@);
                        assert(pass_at(*entities, *effects) == before.finish(
                            id,
                            sync,
                            result,
                            keys,
                        ));
                    }
                } else {
                    effects.status.push(SqlxEventStatus::Return(id, components));
                    proof {
                        let after = before.finish(id, sync, result, Seq::empty());
                        assert(status_views(effects.status@) =~= after.status);
                    }
                }
            },
            Err(error) => {
                effects.status.push(SqlxEventStatus::Error(id, error));
                proof {
                    let after = before.finish(id, sync, result, Seq::empty());
                    assert(status_views(effects.status@) =~= after.status);
                }
            },
        }
    }

    /// Polls every outstanding task once, first to last.
    ///
    /// `poll` is the host's single poll of a task. It does not wait: it hands
    /// the task back if the task is not done, and what the command's future
    /// returned if it is.
    ///
    /// A task that is not done stays outstanding, as the poll handed it back,
    /// and nothing is reported of it. A task that is done leaves, and its
    /// command finishes: see [`SqlxTasks::finish`].
    ///
    /// `entities` holds the primary keys of the materialized entities when the
    /// pass begins, and those of the entities that the commands create are
    /// added to it. The host carries out the commands and hands on the
    /// statuses.
    pub fn handle_tasks<L>(
        tasks: &mut SqlxTasks<C>,
        poll: &L,
        entities: &mut SqlxEntities,
    ) -> (effects: SqlxEffects<C>) where L: Fn(Task<Result<Vec<C>, Error>>) -> SqlxPoll<C>
        requires
            forall|task: Task<Result<Vec<C>, Error>>| call_requires(poll, (task,)),
        ensures
            exists|polled: Seq<SqlxPolled<C>>|
                {
                    &&& polled_by(poll, old(tasks).handles(), polled)
                    &&& polled_fit(old(tasks)@, polled)
                    &&& final(tasks)@ == #[trigger] still_pending(old(tasks)@, polled)
                    &&& final(tasks).handles() == pending_tasks(polled)
                    &&& pass_at(*final(entities), effects) == SqlxPass::begin(
                        old(entities)@,
                    ).reconcile(old(tasks)@, polled)
                },
    {
        let ghost outstanding = tasks@;
        let ghost handles = tasks.handles();
        let ghost start = SqlxPass::<C>::begin(entities@);
        let mut effects = SqlxEffects::new();
        let mut components = Vec::new();
        core::mem::swap(&mut components, &mut tasks.components);
        let ghost mut polled: Seq<SqlxPolled<C>> = Seq::empty();
        proof {
            assert(pass_at(*entities, effects) == start) by {
                assert(status_views(effects.status@) =~= start.status);
                assert(effects.commands@ =~= start.commands);
            }
            assert(tasks.handles() =~= pending_tasks(polled));
        }
        for entry in iter: components
            invariant
                iter.seq() == components@,
                forall|task: Task<Result<Vec<C>, Error>>| call_requires(poll, (task,)),
                outstanding == components@.map_values(
                    |entry: (SqlxEventId, bool, Task<Result<Vec<C>, Error>>)| (entry.0, entry.1),
                ),
                handles == components@.map_values(
                    |entry: (SqlxEventId, bool, Task<Result<Vec<C>, Error>>)| entry.2,
                ),
                polled_by(poll, handles.take(iter.index() as int), polled),
                polled_fit(outstanding.take(iter.index() as int), polled),
                tasks@ == still_pending(outstanding.take(iter.index() as int), polled),
                tasks.handles() == pending_tasks(polled),
                pass_at(*entities, effects) == start.reconcile(
                    outstanding.take(iter.index() as int),
                    polled,
                ),
        {
            let ghost n = iter.index() as int;
            let ghost before = pass_at(*entities, effects);
            let (id, sync, task) = entry;
            proof {
                assert(outstanding.take(n + 1).drop_last() == outstanding.take(n));
                assert(handles.take(n + 1).drop_last() == handles.take(n));
            }
            let polling = poll(task);
            let ghost keys: Seq<SqlxColumnView>;
            match polling {
                SqlxPoll::Ready(result) => {
                    Self::finish(id, sync, result, entities, &mut effects);
                    proof {
                        keys = choose|keys: Seq<SqlxColumnView>|
                            keys_fit(sync, result, keys) && pass_at(*entities, effects)
                                == #[trigger] before.finish(id, sync, result, keys);
                    }
                },
                SqlxPoll::Pending(task) => {
                    tasks.push(id, sync, task);
                    proof {
                        keys = Seq::empty();
                    }
                },
            }
            proof {
                let next = SqlxPolled { poll: polling, keys };
                assert(polled.push(next).drop_last() == polled);
                polled = polled.push(next);
            }
        }
        proof {
            assert(outstanding.take(outstanding.len() as int) == outstanding);
            assert(handles.take(handles.len() as int) == handles);
        }
        effects
    }
}

/// What fits the tasks fits all but the last of them.
proof fn lemma_polled_fit_drop_last<C: PrimaryKey>(
    tasks: Seq<(SqlxEventId, bool)>,
    polled: Seq<SqlxPolled<C>>,
)
    requires
        polled_fit(tasks, polled),
        tasks.len() > 0,
    ensures
        polled_fit(tasks.drop_last(), polled.drop_last()),
        polled.last().result() matches Some(result) ==> keys_fit(
            tasks.last().1,
            result,
            polled.last().keys,
        ),
{
    assert forall|i: int| 0 <= i < tasks.drop_last().len() implies match (
    #[trigger] polled.drop_last()[i]).result() {
        Some(result) => keys_fit(tasks.drop_last()[i].1, result, polled.drop_last()[i].keys),
        None => true,
    } by {
        assert(polled.drop_last()[i] == polled[i]);
    }
}

/// A task that is left outstanding was outstanding before.
pub proof fn lemma_still_pending<C>(tasks: Seq<(SqlxEventId, bool)>, polled: Seq<SqlxPolled<C>>)
    ensures
        still_pending(tasks, polled).len() <= tasks.len(),
        forall|task: (SqlxEventId, bool)| #[trigger]
            still_pending(tasks, polled).contains(task) ==> tasks.contains(task),
    decreases tasks.len(),
{
    if tasks.len() > 0 {
        lemma_still_pending(tasks.drop_last(), polled.drop_last());
        let before = still_pending(tasks.drop_last(), polled.drop_last());
        let after = still_pending(tasks, polled);
        assert forall|task: (SqlxEventId, bool)| #[trigger]
            after.contains(task) implies tasks.contains(task) by {
            let i = choose|i: int| 0 <= i < after.len() && after[i] == task;
            if i < before.len() {
                assert(before.contains(task));
                let t = choose|t: int|
                    0 <= t < tasks.drop_last().len() && tasks.drop_last()[t] == task;
                assert(tasks[t] == task);
            }
        }
    }
}

impl<C> SqlxPass<C> {
    /// What a finished command emits, and what it does to the entities,
    /// depends on the entities alone, not on what was emitted before.
    pub proof fn lemma_finish_frame(
        self,
        id: SqlxEventId,
        sync: bool,
        result: Result<Vec<C>, Error>,
        keys: Seq<SqlxColumnView>,
    )
        ensures
            self.finish(id, sync, result, keys) == self.followed_by(
                Self::begin(self.entities).finish(id, sync, result, keys),
            ),
    {
        let alone = Self::begin(self.entities).finish(id, sync, result, keys);
        let after = self.finish(id, sync, result, keys);
        match result {
            Ok(components) => {
                if sync {
                    self.lemma_sync_frame(id, keys, components@);
                }
            },
            Err(_) => {},
        }
        assert(after.status =~= self.status + alone.status);
    }

    /// What a pass emits, and what it does to the entities, depends on the
    /// entities alone, not on what was emitted before.
    pub proof fn lemma_reconcile_frame(
        self,
        tasks: Seq<(SqlxEventId, bool)>,
        polled: Seq<SqlxPolled<C>>,
    )
        ensures
            self.reconcile(tasks, polled) == self.followed_by(
                Self::begin(self.entities).reconcile(tasks, polled),
            ),
        decreases tasks.len(),
    {
        let fresh = Self::begin(self.entities);
        if tasks.len() > 0 {
            let before = self.reconcile(tasks.drop_last(), polled.drop_last());
            let alone = fresh.reconcile(tasks.drop_last(), polled.drop_last());
            self.lemma_reconcile_frame(tasks.drop_last(), polled.drop_last());
            match polled.last().result() {
                Some(result) => {
                    let (id, sync) = tasks.last();
                    let keys = polled.last().keys;
                    before.lemma_finish_frame(id, sync, result, keys);
                    alone.lemma_finish_frame(id, sync, result, keys);
                    let last = Self::begin(alone.entities).finish(id, sync, result, keys);
                    assert((self.status + alone.status) + last.status
                        =~= self.status + (alone.status + last.status));
                    assert((self.commands + alone.commands) + last.commands
                        =~= self.commands + (alone.commands + last.commands));
                },
                None => {},
            }
        }
    }

    /// A pass over tasks of which none is done reports nothing, asks for
    /// nothing, and leaves every task outstanding and the entities as they
    /// are.
    pub proof fn lemma_reconcile_none_done(
        self,
        tasks: Seq<(SqlxEventId, bool)>,
        polled: Seq<SqlxPolled<C>>,
    )
        requires
            polled.len() == tasks.len(),
            forall|i: int| 0 <= i < polled.len() ==> (#[trigger] polled[i]).result() is None,
        ensures
            self.reconcile(tasks, polled) == self,
            still_pending(tasks, polled) == tasks,
        decreases tasks.len(),
    {
        if tasks.len() > 0 {
            self.lemma_reconcile_none_done(tasks.drop_last(), polled.drop_last());
        }
    }

    /// Every status that a pass emits bears the id of a task that was found
    /// done, and none is a `Start`.
    pub proof fn lemma_reconcile_status(
        self,
        tasks: Seq<(SqlxEventId, bool)>,
        polled: Seq<SqlxPolled<C>>,
    )
        ensures
            self.status.is_prefix_of(self.reconcile(tasks, polled).status),
            forall|i: int|
                self.status.len() <= i < self.reconcile(tasks, polled).status.len() ==> {
                    let status = #[trigger] self.reconcile(tasks, polled).status[i];
                    !(status is Start) && found_done(tasks, polled, status.id())
                },
        decreases tasks.len(),
    {
        let after = self.reconcile(tasks, polled);
        if tasks.len() > 0 {
            let before = self.reconcile(tasks.drop_last(), polled.drop_last());
            self.lemma_reconcile_status(tasks.drop_last(), polled.drop_last());
            match polled.last().result() {
                Some(Ok(components)) => {
                    if tasks.last().1 {
                        before.lemma_sync_status(tasks.last().0, polled.last().keys, components@);
                    }
                },
                _ => {},
            }
            assert forall|i: int| self.status.len() <= i < after.status.len() implies {
                let status = #[trigger] after.status[i];
                !(status is Start) && found_done(tasks, polled, status.id())
            } by {
                let status = after.status[i];
                if i < before.status.len() {
                    assert(status == before.status[i]);
                    let t = choose|t: int|
                        0 <= t < tasks.drop_last().len() && (#[trigger] tasks.drop_last()[t]).0
                            == status.id() && (polled.drop_last().len() == tasks.drop_last().len()
                            ==> polled.drop_last()[t].result() is Some);
                    assert(tasks[t].0 == status.id());
                } else {
                    match polled.last().result() {
                        Some(Ok(components)) => {
                            if tasks.last().1 {
                                let k = i - before.status.len();
                                assert(status == before.sync(
                                    tasks.last().0,
                                    polled.last().keys,
                                    components@,
                                ).status[before.status.len() + k]);
                            }
                        },
                        _ => {},
                    }
                }
            }
        }
    }

    /// One command's failure is its own: a pass in which a task is found done
    /// with `Err` differs from the pass without that task by the one `Error`
    /// that bears its id, and by nothing else: the other statuses, the
    /// commands, the entities and the tasks left outstanding are the same.
    pub proof fn lemma_reconcile_error_alone(
        self,
        tasks: Seq<(SqlxEventId, bool)>,
        polled: Seq<SqlxPolled<C>>,
        failed: int,
        error: Error,
    )
        requires
            polled.len() == tasks.len(),
            0 <= failed < tasks.len(),
            polled[failed].result() == Some(Err::<Vec<C>, Error>(error)),
        ensures
            ({
                let all = self.reconcile(tasks, polled);
                let others = self.reconcile(tasks.remove(failed), polled.remove(failed));
                let at = self.reconcile(tasks.take(failed), polled.take(failed)).status.len();
                &&& 0 <= at <= others.status.len()
                &&& all.status == others.status.insert(
                    at as int,
                    SqlxEventStatusView::Error(tasks[failed].0, error),
                )
                &&& all.commands == others.commands
                &&& all.entities == others.entities
                &&& still_pending(tasks, polled) == still_pending(
                    tasks.remove(failed),
                    polled.remove(failed),
                )
            }),
        decreases tasks.len(),
    {
        let before = self.reconcile(tasks.drop_last(), polled.drop_last());
        if failed < tasks.len() - 1 {
            let rest_tasks = tasks.drop_last();
            let rest_polled = polled.drop_last();
            self.lemma_reconcile_error_alone(rest_tasks, rest_polled, failed, error);
            let others_before = self.reconcile(
                rest_tasks.remove(failed),
                rest_polled.remove(failed),
            );
            assert(tasks.remove(failed).drop_last() =~= rest_tasks.remove(failed));
            assert(polled.remove(failed).drop_last() =~= rest_polled.remove(failed));
            assert(tasks.take(failed) =~= rest_tasks.take(failed));
            assert(polled.take(failed) =~= rest_polled.take(failed));
            match polled.last().result() {
                Some(result) => {
                    let (id, sync) = tasks.last();
                    let keys = polled.last().keys;
                    before.lemma_finish_frame(id, sync, result, keys);
                    others_before.lemma_finish_frame(id, sync, result, keys);
                },
                None => {},
            }
        }
    }

    /// A pass keeps the commands fit for a host that had one record for each
    /// entity before the first of them.
    proof fn lemma_reconcile_keeps_commands_fit(
        self,
        tasks: Seq<(SqlxEventId, bool)>,
        polled: Seq<SqlxPolled<C>>,
        len: nat,
    )
        requires
            all_fit(self.commands, len),
            self.entities.len() == len + spawned(self.commands),
        ensures
            all_fit(self.reconcile(tasks, polled).commands, len),
            self.reconcile(tasks, polled).entities.len() == len + spawned(
                self.reconcile(tasks, polled).commands,
            ),
        decreases tasks.len(),
    {
        if tasks.len() > 0 {
            let before = self.reconcile(tasks.drop_last(), polled.drop_last());
            self.lemma_reconcile_keeps_commands_fit(tasks.drop_last(), polled.drop_last(), len);
            match polled.last().result() {
                Some(Ok(components)) => {
                    if tasks.last().1 {
                        before.lemma_sync_keeps_commands_fit(
                            tasks.last().0,
                            polled.last().keys,
                            components@,
                            len,
                        );
                    }
                },
                _ => {},
            }
        }
    }

    /// The commands that a pass emits can be carried out in their order by a
    /// host that holds one record for each entity: a record is only replaced
    /// at a position that holds one by then, and after the last command there
    /// is again one record for each entity.
    pub proof fn lemma_reconcile_commands_fit(
        entities: Seq<SqlxColumnView>,
        tasks: Seq<(SqlxEventId, bool)>,
        polled: Seq<SqlxPolled<C>>,
        records: Seq<C>,
    )
        requires
            records.len() == entities.len(),
        ensures
            all_fit(Self::begin(entities).reconcile(tasks, polled).commands, records.len()),
            applied_all(Self::begin(entities).reconcile(tasks, polled).commands, records).len()
                == Self::begin(entities).reconcile(tasks, polled).entities.len(),
    {
        let after = Self::begin(entities).reconcile(tasks, polled);
        Self::begin(entities).lemma_reconcile_keeps_commands_fit(tasks, polled, records.len());
        lemma_applied_all_len(after.commands, records);
    }
}

/// The keys under which a pass merges are the records' own: each is a primary
/// key that one of the merged records gives.
pub proof fn lemma_merged_keys_are_of_records<C: PrimaryKey>(
    tasks: Seq<(SqlxEventId, bool)>,
    polled: Seq<SqlxPolled<C>>,
)
    requires
        polled_fit(tasks, polled),
    ensures
        forall|key: SqlxColumnView| #[trigger]
            merged_keys(tasks, polled).contains(key) ==> is_key_of_merged(tasks, polled, key),
    decreases tasks.len(),
{
    if tasks.len() > 0 {
        let last = tasks.len() - 1;
        lemma_polled_fit_drop_last(tasks, polled);
        lemma_merged_keys_are_of_records(tasks.drop_last(), polled.drop_last());
        assert forall|key: SqlxColumnView| #[trigger]
            merged_keys(tasks, polled).contains(key) implies is_key_of_merged(
            tasks,
            polled,
            key,
        ) by {
            if merged_keys(tasks.drop_last(), polled.drop_last()).contains(key) {
                let (t, component) = choose|t: int, component: C|
                    0 <= t < tasks.drop_last().len() && #[trigger] merges(
                        tasks.drop_last()[t],
                        polled.drop_last()[t],
                        component,
                    ) && is_key_of(component, key);
                assert(merges(tasks[t], polled[t], component));
            } else {
                let components = polled.last().result()->0->Ok_0;
                let keys = polled.last().keys;
                let i = choose|i: int| 0 <= i < keys.len() && keys[i] == key;
                assert(polled.last() == polled[last]);
                assert(components@.contains(components@[i]));
                assert(merges(tasks[last], polled[last], components@[i]));
                assert(is_key_of(components@[i], keys[i]));
            }
        }
    }
}

impl<C: PrimaryKey> SqlxPass<C> {
    /// A pass leaves one entity for each primary key.
    ///
    /// If no two entities share a key before, no two do after; the entities
    /// that were there keep their positions; and the keys that have an entity
    /// after are those that had one before and those of the records that were
    /// merged.
    pub proof fn lemma_reconcile_one_entity_per_key(
        self,
        tasks: Seq<(SqlxEventId, bool)>,
        polled: Seq<SqlxPolled<C>>,
    )
        requires
            self.entities.no_duplicates(),
            polled_fit(tasks, polled),
        ensures
            self.reconcile(tasks, polled).entities.no_duplicates(),
            self.entities.is_prefix_of(self.reconcile(tasks, polled).entities),
            self.reconcile(tasks, polled).entities.to_set() == self.entities.to_set().union(
                merged_keys(tasks, polled),
            ),
        decreases tasks.len(),
    {
        let after = self.reconcile(tasks, polled);
        if tasks.len() > 0 {
            let before = self.reconcile(tasks.drop_last(), polled.drop_last());
            lemma_polled_fit_drop_last(tasks, polled);
            self.lemma_reconcile_one_entity_per_key(tasks.drop_last(), polled.drop_last());
            match polled.last().result() {
                Some(Ok(components)) => {
                    if tasks.last().1 {
                        before.lemma_sync_one_entity_per_key(
                            tasks.last().0,
                            polled.last().keys,
                            components@,
                        );
                    }
                },
                _ => {},
            }
        }
        assert(after.entities.to_set() =~= self.entities.to_set().union(
            merged_keys(tasks, polled),
        ));
    }
}

} // verus!
