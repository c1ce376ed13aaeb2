use bevy_sqlx::{
    next_event_id, SqlxColumn, SqlxDatabase, SqlxEntities, SqlxEvent, SqlxEventFunc,
    SqlxEventIdGenerator, SqlxEventStatus, SqlxPoll, SqlxTasks,
};
use bevy_tasks::{block_on, poll_once, AsyncComputeTaskPool, Task, TaskPool};
use std::future::Future;
use std::pin::Pin;
use std::sync::atomic::{AtomicUsize, Ordering};
use std::sync::Arc;
use std::time::{Duration, Instant};

type Records = Pin<Box<dyn Future<Output = Result<Vec<()>, sqlx::Error>> + Send>>;
type Call = Box<dyn Fn(u8) -> Records + Send + Sync>;

fn nothing() -> Call {
    Box::new(|_pool| Box::pin(async { Ok(Vec::new()) }))
}

/// Returns as many records as the text of the SQL is long.
fn as_many_as_letters(_pool: u8, sql: String) -> Records {
    Box::pin(async move { Ok(vec![(); sql.len()]) })
}

fn task_pool() -> &'static AsyncComputeTaskPool {
    AsyncComputeTaskPool::get_or_init(|| TaskPool::new())
}

/// One poll of a task, which does not wait for it.
fn poll<C>(mut task: Task<Result<Vec<C>, sqlx::Error>>) -> SqlxPoll<C> {
    match block_on(poll_once(&mut task)) {
        Some(result) => SqlxPoll::Ready(result),
        None => SqlxPoll::Pending(task),
    }
}

/// Polls until no task is outstanding and gives every status.
fn finish_all(tasks: &mut SqlxTasks<()>) -> Vec<SqlxEventStatus<()>> {
    let mut seen = Vec::new();
    while !tasks.is_empty() {
        let frame = Instant::now();
        while frame.elapsed() < Duration::from_millis(1) {
            std::hint::spin_loop();
        }
        let mut entities = SqlxEntities::new();
        seen.extend(SqlxTasks::handle_tasks(tasks, &poll, &mut entities).status);
    }
    seen
}

#[test]
fn ids_start_at_one_and_count_up() {
    let mut ids = SqlxEventIdGenerator::new();
    assert_eq!(1, next_event_id(&mut ids));
    assert_eq!(2, next_event_id(&mut ids));
    assert_eq!(3, next_event_id(&mut ids));
}

#[test]
fn default_ids_start_at_one() {
    let mut ids = SqlxEventIdGenerator::default();
    assert_eq!(1, next_event_id(&mut ids));
}

#[test]
fn ids_start_where_they_are_told_to() {
    let mut ids = SqlxEventIdGenerator::starting_at(41);
    assert_eq!(41, next_event_id(&mut ids));
    assert_eq!(42, next_event_id(&mut ids));
}

#[test]
fn ids_wrap_after_the_largest() {
    let mut ids = SqlxEventIdGenerator::starting_at(u32::MAX - 1);
    assert_eq!(u32::MAX - 1, next_event_id(&mut ids));
    assert_eq!(u32::MAX, next_event_id(&mut ids));
    assert_eq!(0, next_event_id(&mut ids));
    assert_eq!(1, next_event_id(&mut ids));
}

#[test]
fn each_event_takes_the_next_id() {
    let mut ids = SqlxEventIdGenerator::new();
    let first = SqlxEvent::<Call>::query(&mut ids, "SELECT * FROM foos");
    let second = SqlxEvent::<Call>::query_sync(&mut ids, "SELECT * FROM foos");
    let third = SqlxEvent::call(&mut ids, None, nothing());
    let fourth = SqlxEvent::call_sync(&mut ids, None, nothing());

    assert_eq!(1, first.id());
    assert_eq!(2, second.id());
    assert_eq!(3, third.id());
    assert_eq!(4, fourth.id());
    assert_eq!(5, next_event_id(&mut ids));
}

#[test]
fn query_does_not_synchronize() {
    let mut ids = SqlxEventIdGenerator::new();
    let event = SqlxEvent::<Call>::query(&mut ids, "SELECT * FROM foos");
    assert!(!event.will_sync());
}

#[test]
fn query_sync_synchronizes() {
    let mut ids = SqlxEventIdGenerator::new();
    let event = SqlxEvent::<Call>::query_sync(&mut ids, "SELECT * FROM foos");
    assert!(event.will_sync());
}

#[test]
fn call_does_not_synchronize() {
    let mut ids = SqlxEventIdGenerator::new();
    let event = SqlxEvent::call(&mut ids, None, nothing());
    assert!(!event.will_sync());
}

#[test]
fn call_sync_synchronizes() {
    let mut ids = SqlxEventIdGenerator::new();
    let event = SqlxEvent::call_sync(&mut ids, None, nothing());
    assert!(event.will_sync());
}

#[test]
fn query_is_labelled_by_its_sql() {
    let mut ids = SqlxEventIdGenerator::new();
    let event = SqlxEvent::<Call>::query(&mut ids, "DELETE FROM foos");
    assert_eq!(Some("DELETE FROM foos"), event.label());
    assert!(matches!(event.func(), SqlxEventFunc::Query(sql) if sql == "DELETE FROM foos"));
}

#[test]
fn call_is_labelled_as_it_is_told_to() {
    let mut ids = SqlxEventIdGenerator::new();
    let named = SqlxEvent::call(&mut ids, Some("insert hello".to_string()), nothing());
    let unnamed = SqlxEvent::call_sync(&mut ids, None, nothing());
    assert_eq!(Some("insert hello"), named.label());
    assert_eq!(None, unnamed.label());
    assert!(matches!(named.func(), SqlxEventFunc::Call(_)));
}

#[test]
fn a_copy_is_the_same_command() {
    let mut ids = SqlxEventIdGenerator::new();
    let event = SqlxEvent::call_sync(&mut ids, Some("copy".to_string()), nothing());
    let copy = event.clone();
    assert_eq!(event.id(), copy.id());
    assert_eq!(event.will_sync(), copy.will_sync());
    assert_eq!(event.label(), copy.label());
    assert_eq!(2, next_event_id(&mut ids));

    let query = SqlxEvent::<Call>::query(&mut ids, "SELECT 1");
    let copy = query.clone();
    assert_eq!(query.id(), copy.id());
    assert_eq!(Some("SELECT 1"), copy.label());
    assert!(matches!(copy.func(), SqlxEventFunc::Query(sql) if sql == "SELECT 1"));
}

#[test]
fn a_copy_runs_the_same_function() {
    let calls = Arc::new(AtomicUsize::new(0));
    let counted = calls.clone();
    let call: Call = Box::new(move |_pool| {
        counted.fetch_add(1, Ordering::SeqCst);
        Box::pin(async { Ok(vec![()]) })
    });
    let mut ids = SqlxEventIdGenerator::new();
    let event = SqlxEvent::call(&mut ids, None, call);
    let copy = event.clone();
    match (event.func(), copy.func()) {
        (SqlxEventFunc::Call(func), SqlxEventFunc::Call(shared)) => {
            assert!(Arc::ptr_eq(func, shared));
        }
        _ => unreachable!(),
    }

    let mut tasks = SqlxTasks::default();
    let database = SqlxDatabase { pool: 0 };
    let events = vec![event, copy];
    SqlxEvent::handle_events(&database, task_pool(), &as_many_as_letters, &mut tasks, &events);
    assert_eq!(2, calls.load(Ordering::SeqCst));

    let status = finish_all(&mut tasks);
    assert_eq!(2, status.len());
    assert!(matches!(&status[0], SqlxEventStatus::Return(1, it) if it.len() == 1));
    assert!(matches!(&status[1], SqlxEventStatus::Return(1, it) if it.len() == 1));
}

#[test]
fn making_a_command_does_not_run_it() {
    let calls = Arc::new(AtomicUsize::new(0));
    let counted = calls.clone();
    let call: Call = Box::new(move |_pool| {
        counted.fetch_add(1, Ordering::SeqCst);
        Box::pin(async { Ok(Vec::new()) })
    });
    let mut ids = SqlxEventIdGenerator::new();
    let event = SqlxEvent::call(&mut ids, None, call);
    assert_eq!(0, calls.load(Ordering::SeqCst));

    let mut tasks = SqlxTasks::default();
    let database = SqlxDatabase { pool: 0 };
    SqlxEvent::handle_events(
        &database,
        task_pool(),
        &as_many_as_letters,
        &mut tasks,
        &vec![event],
    );
    assert_eq!(1, calls.load(Ordering::SeqCst));
}

#[test]
fn the_function_gets_a_copy_of_the_pool() {
    let seen = Arc::new(AtomicUsize::new(0));
    let pool_seen = seen.clone();
    let call: Call = Box::new(move |pool| {
        pool_seen.store(usize::from(pool), Ordering::SeqCst);
        Box::pin(async { Ok(Vec::new()) })
    });
    let mut ids = SqlxEventIdGenerator::new();
    let event = SqlxEvent::call(&mut ids, None, call);

    let mut tasks = SqlxTasks::default();
    let database = SqlxDatabase { pool: 9 };
    SqlxEvent::handle_events(
        &database,
        task_pool(),
        &as_many_as_letters,
        &mut tasks,
        &vec![event],
    );
    assert_eq!(9, seen.load(Ordering::SeqCst));
    assert_eq!(9, database.pool);
}

#[test]
fn events_are_started_in_the_order_in_which_they_were_submitted() {
    let mut ids = SqlxEventIdGenerator::starting_at(10);
    let events = vec![
        SqlxEvent::call(&mut ids, None, nothing()),
        SqlxEvent::<Call>::query_sync(&mut ids, "SELECT 1"),
        SqlxEvent::call_sync(&mut ids, None, nothing()),
        SqlxEvent::<Call>::query(&mut ids, "SELECT 2"),
    ];

    let mut tasks = SqlxTasks::default();
    let database = SqlxDatabase { pool: 0 };
    let status = SqlxEvent::handle_events(
        &database,
        task_pool(),
        &as_many_as_letters,
        &mut tasks,
        &events,
    );

    assert_eq!(4, status.len());
    assert!(matches!(status[0], SqlxEventStatus::Start(10)));
    assert!(matches!(status[1], SqlxEventStatus::Start(11)));
    assert!(matches!(status[2], SqlxEventStatus::Start(12)));
    assert!(matches!(status[3], SqlxEventStatus::Start(13)));
    assert_eq!(4, tasks.count());
}

#[test]
fn no_events_start_nothing() {
    let mut tasks: SqlxTasks<()> = SqlxTasks::default();
    let database = SqlxDatabase { pool: 0 };
    let events: Vec<SqlxEvent<Call>> = Vec::new();
    let status = SqlxEvent::handle_events(
        &database,
        task_pool(),
        &as_many_as_letters,
        &mut tasks,
        &events,
    );
    assert!(status.is_empty());
    assert!(tasks.is_empty());
}

#[test]
fn started_events_are_added_to_the_outstanding_tasks() {
    let mut ids = SqlxEventIdGenerator::new();
    let mut tasks = SqlxTasks::default();
    let database = SqlxDatabase { pool: 0 };
    let first = vec![SqlxEvent::call(&mut ids, None, nothing())];
    let second = vec![
        SqlxEvent::call(&mut ids, None, nothing()),
        SqlxEvent::call(&mut ids, None, nothing()),
    ];

    SqlxEvent::handle_events(&database, task_pool(), &as_many_as_letters, &mut tasks, &first);
    assert_eq!(1, tasks.count());
    SqlxEvent::handle_events(&database, task_pool(), &as_many_as_letters, &mut tasks, &second);
    assert_eq!(3, tasks.count());
}

#[test]
fn sql_text_is_handed_on_as_it_is() {
    let mut ids = SqlxEventIdGenerator::new();
    let events = vec![SqlxEvent::<Call>::query(&mut ids, "12345")];
    let mut tasks = SqlxTasks::default();
    let database = SqlxDatabase { pool: 0 };
    SqlxEvent::handle_events(&database, task_pool(), &as_many_as_letters, &mut tasks, &events);

    let status = finish_all(&mut tasks);
    assert_eq!(1, status.len());
    assert!(matches!(&status[0], SqlxEventStatus::Return(1, it) if it.len() == 5));
}

#[test]
fn every_status_bears_the_id_of_its_event() {
    let key = SqlxColumn::new("id", "1");
    assert_eq!(1, SqlxEventStatus::<()>::Start(1).id());
    assert_eq!(2, SqlxEventStatus::Return(2, vec![()]).id());
    assert_eq!(3, SqlxEventStatus::<()>::Spawn(3, key.clone()).id());
    assert_eq!(4, SqlxEventStatus::<()>::Update(4, key).id());
    assert_eq!(5, SqlxEventStatus::<()>::Error(5, sqlx::Error::RowNotFound).id());
    assert_eq!(u32::MAX, SqlxEventStatus::<()>::Start(u32::MAX).id());
    assert_eq!(0, SqlxEventStatus::<()>::Start(0).id());
}
