//! What a host sees of its commands over time.
//!
//! A host starts the commands that were submitted
//! ([`SqlxEvent::handle_events`](crate::event::SqlxEvent::handle_events)) and
//! polls the outstanding tasks
//! ([`SqlxTasks::handle_tasks`](crate::tasks::SqlxTasks::handle_tasks)), tick
//! after tick and in whatever order. This module follows the outstanding tasks
//! and the statuses through such a run.

use crate::component::SqlxColumnView;
use crate::entities::SqlxPass;
use crate::event::{start_status, SqlxEventId, SqlxEventStatusView};
use crate::tasks::{found_done, lemma_still_pending, still_pending, SqlxPolled};
use vstd::prelude::*;

verus! {

/// One step of a host.
#[verifier::reject_recursive_types(C)]
pub enum SqlxStep<C> {
    /// Commands were submitted and are started: of each, its id and whether it
    /// synchronizes.
    Events(Seq<(SqlxEventId, bool)>),
    /// The outstanding tasks are polled, while the entities have these primary
    /// keys.
    Tasks(Seq<SqlxColumnView>, Seq<SqlxPolled<C>>),
}

/// The outstanding tasks, and every status emitted so far, oldest first.
pub struct SqlxSchedule<C> {
    pub tasks: Seq<(SqlxEventId, bool)>,
    pub status: Seq<SqlxEventStatusView<C>>,
}

/// Whether the `Start` that bears `id` is among the first `before` of the
/// statuses.
pub open spec fn has_start<C>(status: Seq<SqlxEventStatusView<C>>, before: int, id: SqlxEventId)
    -> bool {
    exists|j: int|
        0 <= j < before && j < status.len() && #[trigger] status[j]
            == SqlxEventStatusView::<C>::Start(id)
}

/// A `Start` that was emitted stays where it is when more statuses follow.
proof fn lemma_has_start_extends<C>(
    status: Seq<SqlxEventStatusView<C>>,
    longer: Seq<SqlxEventStatusView<C>>,
    before: int,
    id: SqlxEventId,
)
    requires
        status.is_prefix_of(longer),
        has_start(status, before, id),
    ensures
        forall|later: int| before <= later ==> has_start(longer, later, id),
{
    let j = choose|j: int|
        0 <= j < before && j < status.len() && #[trigger] status[j]
            == SqlxEventStatusView::<C>::Start(id);
    assert(longer[j] == status[j]);
}

impl<C> SqlxSchedule<C> {
    /// Before anything was submitted.
    pub open spec fn begin() -> SqlxSchedule<C> {
        SqlxSchedule { tasks: Seq::empty(), status: Seq::empty() }
    }

    /// The schedule after one step.
    ///
    /// Starting commands emits the `Start` of each and makes each outstanding.
    /// Polling the outstanding tasks emits what the pass emits and leaves
    /// outstanding what was not done.
    pub open spec fn step(self, step: SqlxStep<C>) -> SqlxSchedule<C> {
        match step {
            SqlxStep::Events(events) => SqlxSchedule {
                tasks: self.tasks + events,
                status: self.status + start_status(events),
            },
            SqlxStep::Tasks(entities, polled) => SqlxSchedule {
                tasks: still_pending(self.tasks, polled),
                status: self.status + SqlxPass::begin(entities).reconcile(
                    self.tasks,
                    polled,
                ).status,
            },
        }
    }

    /// The schedule after the steps, first to last.
    pub open spec fn run(self, steps: Seq<SqlxStep<C>>) -> SqlxSchedule<C>
        decreases steps.len(),
    {
        if steps.len() == 0 {
            self
        } else {
            self.run(steps.drop_last()).step(steps.last())
        }
    }

    /// Whether every status but a `Start` comes after the `Start` that bears
    /// the same id.
    pub open spec fn start_comes_first(self) -> bool {
        forall|i: int|
            0 <= i < self.status.len() && !((#[trigger] self.status[i]) is Start) ==> has_start(
                self.status,
                i,
                self.status[i].id(),
            )
    }

    /// Whether the `Start` of every outstanding task has been emitted.
    pub open spec fn tasks_have_started(self) -> bool {
        forall|t: int|
            0 <= t < self.tasks.len() ==> has_start(
                self.status,
                self.status.len() as int,
                (#[trigger] self.tasks[t]).0,
            )
    }

    /// A step keeps the order of the statuses: if every status came after its
    /// `Start` and every outstanding task had its `Start`, the same holds
    /// after the step.
    pub proof fn lemma_step_start_comes_first(self, step: SqlxStep<C>)
        requires
            self.start_comes_first(),
            self.tasks_have_started(),
        ensures
            self.step(step).start_comes_first(),
            self.step(step).tasks_have_started(),
    {
        let after = self.step(step);
        let emitted = self.status.len() as int;
        assert forall|i: int| 0 <= i < emitted && !((#[trigger] after.status[i]) is Start) implies
            has_start(after.status, i, after.status[i].id()) by {
            lemma_has_start_extends(self.status, after.status, i, self.status[i].id());
        }
        match step {
            SqlxStep::Events(events) => {
                assert forall|t: int| 0 <= t < after.tasks.len() implies has_start(
                    after.status,
                    after.status.len() as int,
                    (#[trigger] after.tasks[t]).0,
                ) by {
                    if t < self.tasks.len() {
                        lemma_has_start_extends(
                            self.status,
                            after.status,
                            emitted,
                            self.tasks[t].0,
                        );
                    } else {
                        let j = emitted + (t - self.tasks.len());
                        assert(after.status[j] == SqlxEventStatusView::<C>::Start(
                            after.tasks[t].0,
                        ));
                    }
                }
            },
            SqlxStep::Tasks(entities, polled) => {
                let pass = SqlxPass::<C>::begin(entities).reconcile(self.tasks, polled);
                SqlxPass::<C>::begin(entities).lemma_reconcile_status(self.tasks, polled);
                lemma_still_pending(self.tasks, polled);
                assert forall|i: int| emitted <= i < after.status.len() implies has_start(
                    after.status,
                    i,
                    (#[trigger] after.status[i]).id(),
                ) by {
                    let status = pass.status[i - emitted];
                    let t = choose|t: int|
                        0 <= t < self.tasks.len() && (#[trigger] self.tasks[t]).0 == status.id()
                            && (polled.len() == self.tasks.len() ==> polled[t].result() is Some);
                    lemma_has_start_extends(self.status, after.status, emitted, self.tasks[t].0);
                }
                assert forall|t: int| 0 <= t < after.tasks.len() implies has_start(
                    after.status,
                    after.status.len() as int,
                    (#[trigger] after.tasks[t]).0,
                ) by {
                    assert(after.tasks.contains(after.tasks[t]));
                    let u = choose|u: int|
                        0 <= u < self.tasks.len() && self.tasks[u] == after.tasks[t];
                    lemma_has_start_extends(self.status, after.status, emitted, self.tasks[u].0);
                }
            },
        }
    }

    /// The `Start` of a command comes first.
    ///
    /// However a host orders its steps, and whatever polling gives: every
    /// `Return`, `Spawn`, `Update` and `Error` that is emitted comes after the
    /// `Start` that bears the same id, and the `Start` of every task that is
    /// still outstanding has been emitted.
    pub proof fn lemma_start_comes_first(steps: Seq<SqlxStep<C>>)
        ensures
            Self::begin().run(steps).start_comes_first(),
            Self::begin().run(steps).tasks_have_started(),
        decreases steps.len(),
    {
        if steps.len() > 0 {
            Self::lemma_start_comes_first(steps.drop_last());
            Self::begin().run(steps.drop_last()).lemma_step_start_comes_first(steps.last());
        }
    }
}

} // verus!
