use bevy_sqlx::{
    PrimaryKey, SqlxColumn, SqlxDatabase, SqlxEffects, SqlxEntities, SqlxEvent,
    SqlxEventIdGenerator, SqlxEventStatus, SqlxPoll, SqlxTasks,
};
use bevy_tasks::{block_on, poll_once, AsyncComputeTaskPool, Task, TaskPool};
use sqlx::sqlite::{SqlitePoolOptions, SqliteRow};
use sqlx::{FromRow, Pool, Row, Sqlite};
use std::future::Future;
use std::pin::Pin;
use std::time::{Duration, Instant};

#[derive(Debug)]
struct Foo {
    id: u32,
    text: String,
}

impl<'r> FromRow<'r, SqliteRow> for Foo {
    fn from_row(row: &'r SqliteRow) -> Result<Self, sqlx::Error> {
        Ok(Foo { id: row.try_get("id")?, text: row.try_get("text")? })
    }
}

impl PrimaryKey for Foo {
    fn primary_key(&self) -> SqlxColumn {
        SqlxColumn::new("id", &self.id.to_string())
    }
}

type Records = Pin<Box<dyn Future<Output = Result<Vec<Foo>, sqlx::Error>> + Send>>;
type Call = Box<dyn Fn(Pool<Sqlite>) -> Records + Send + Sync>;

fn fetch_all(pool: Pool<Sqlite>, sql: String) -> Records {
    Box::pin(async move { sqlx::query_as(&sql).fetch_all(&pool).await })
}

/// One poll of a task, which does not wait for it.
fn poll<C>(mut task: Task<Result<Vec<C>, sqlx::Error>>) -> SqlxPoll<C> {
    match block_on(poll_once(&mut task)) {
        Some(result) => SqlxPoll::Ready(result),
        None => SqlxPoll::Pending(task),
    }
}

/// What one host holds: the pool, the outstanding tasks, and the
/// entities with their records.
struct Host {
    ids: SqlxEventIdGenerator,
    database: SqlxDatabase<Pool<Sqlite>>,
    task_pool: &'static AsyncComputeTaskPool,
    tasks: SqlxTasks<Foo>,
    foos: Vec<Foo>,
    pending: Vec<SqlxEvent<Call>>,
    status: Vec<SqlxEventStatus<Foo>>,
}

fn setup_host() -> Host {
    let task_pool = AsyncComputeTaskPool::get_or_init(|| TaskPool::new());
    let pool = block_on(async {
        let pool = SqlitePoolOptions::new()
            .max_connections(1)
            .idle_timeout(None)
            .max_lifetime(None)
            .connect("sqlite::memory:")
            .await
            .unwrap();
        sqlx::query("CREATE TABLE foos (id INTEGER PRIMARY KEY, text TEXT NOT NULL)")
            .execute(&pool)
            .await
            .unwrap();
        pool
    });
    Host {
        ids: SqlxEventIdGenerator::new(),
        database: SqlxDatabase { pool },
        task_pool,
        tasks: SqlxTasks::default(),
        foos: Vec::new(),
        pending: Vec::new(),
        status: Vec::new(),
    }
}

/// One tick: starts what was submitted, then polls what is outstanding. A
/// tick lasts some milliseconds, as a frame of a host takes its time.
fn update(host: &mut Host) {
    let frame = Instant::now();
    while frame.elapsed() < Duration::from_millis(5) {
        std::hint::spin_loop();
    }
    let events: Vec<SqlxEvent<Call>> = host.pending.drain(..).collect();
    let started = SqlxEvent::handle_events(
        &host.database,
        host.task_pool,
        &fetch_all,
        &mut host.tasks,
        &events,
    );
    host.status.extend(started);
    let keys = host.foos.iter().map(|foo| foo.primary_key()).collect();
    let mut entities = SqlxEntities::from_keys(keys);
    let SqlxEffects { status, commands } =
        SqlxTasks::handle_tasks(&mut host.tasks, &poll, &mut entities);
    for command in commands {
        assert!(command.apply(&mut host.foos));
    }
    assert_eq!(entities.len(), host.foos.len());
    host.status.extend(status);
}

fn wait_for_event(host: &mut Host) {
    while host.status.is_empty() {
        update(host);
    }
}

fn skip_started_event(host: &mut Host) {
    wait_for_event(host);
    assert!(matches!(host.status.remove(0), SqlxEventStatus::Start(_)));
}

#[test]
fn test_query() {
    let mut host = setup_host();

    let sql = "INSERT INTO foos (text) VALUES ('query') RETURNING *";
    let insert = SqlxEvent::<Call>::query(&mut host.ids, sql);
    host.pending.push(insert);

    skip_started_event(&mut host);
    wait_for_event(&mut host);

    assert!(matches!(
        &host.status[0],
        SqlxEventStatus::Return(_, components) if components[0].text == "query"
    ));
}

#[test]
fn test_query_sync() {
    let mut host = setup_host();

    let sql = "INSERT INTO foos (text) VALUES ('query_sync') RETURNING *";
    let insert = SqlxEvent::<Call>::query_sync(&mut host.ids, sql);
    host.pending.push(insert);

    let mut tries = 0;
    let mut len = host.foos.len();
    while !(len > 0) && tries < 1000 {
        update(&mut host);
        len = host.foos.len();
        tries += 1;
    }

    assert_eq!(1, host.foos.len());
    assert_eq!("query_sync", host.foos[0].text);
}

#[test]
fn test_call_sync() {
    let mut host = setup_host();

    let text = "call_sync";
    let func: Call = Box::new(move |db| {
        Box::pin(async move {
            sqlx::query_as("INSERT INTO foos (text) VALUES (?) RETURNING *")
                .bind(text)
                .fetch_all(&db)
                .await
        })
    });
    let insert = SqlxEvent::call_sync(&mut host.ids, None, func);
    host.pending.push(insert);

    let mut tries = 0;
    let mut len = host.foos.len();
    while !(len > 0) && tries < 1000 {
        update(&mut host);
        len = host.foos.len();
        tries += 1;
    }

    assert_eq!(1, host.foos.len());
    assert_eq!(text, host.foos[0].text);
}

#[test]
fn test_event_status_started() {
    let mut host = setup_host();

    let sql = "INSERT INTO foos (text) VALUES ('spawn') RETURNING *";
    let insert = SqlxEvent::<Call>::query_sync(&mut host.ids, sql);
    host.pending.push(insert);

    assert_eq!(0, host.status.len());

    // The pool has one connection. While it is held, the command cannot
    // finish, so the tick that starts it reports the start and nothing else.
    let held = block_on(host.database.pool.acquire()).unwrap();
    update(&mut host);

    assert_eq!(1, host.status.len());
    assert!(matches!(host.status[0], SqlxEventStatus::Start(_)));
    drop(held);
}

#[test]
fn test_event_status_spawn() {
    let mut host = setup_host();

    let sql = "INSERT INTO foos (text) VALUES ('spawn') RETURNING *";
    let insert = SqlxEvent::<Call>::query_sync(&mut host.ids, sql);
    host.pending.push(insert);

    skip_started_event(&mut host);
    wait_for_event(&mut host);

    assert!(matches!(host.status[0], SqlxEventStatus::Spawn(_, _)));
}

#[test]
fn test_event_status_update() {
    let mut host = setup_host();

    host.foos.push(Foo { id: 1, text: "update".into() });

    let sql = r#"
            INSERT INTO foos (id, text) VALUES (1, 'return')
            ON CONFLICT(id) DO UPDATE
            SET text = 'update'
            RETURNING *
        "#;
    let insert = SqlxEvent::<Call>::query_sync(&mut host.ids, sql);
    host.pending.push(insert);

    skip_started_event(&mut host);
    wait_for_event(&mut host);

    assert!(matches!(host.status[0], SqlxEventStatus::Update(_, _)));
}

#[test]
fn test_event_status_return() {
    let mut host = setup_host();

    let sql = "INSERT INTO foos (text) VALUES ('return') RETURNING *";
    let insert = SqlxEvent::<Call>::query(&mut host.ids, sql);
    host.pending.push(insert);

    skip_started_event(&mut host);
    wait_for_event(&mut host);

    assert!(matches!(
        &host.status[0],
        SqlxEventStatus::Return(_, components) if components[0].text == "return"
    ));
}
