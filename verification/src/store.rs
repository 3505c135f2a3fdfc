//! Durable home for task records, backed by a single local database
//! file.  The table contents are modelled as a map from id to record;
//! every statement the store runs is a trusted wrapper whose contract
//! says what it does to that map.

use vstd::prelude::*;

verus! {

use crate::task::{Task, TaskView};

/// Well-known database file name, relative to the working directory.
pub const DATABASE_FILE: &'static str = "tasks.db";

#[verifier::external_type_specification]
#[verifier::external_body]
pub struct ExConnection(rusqlite::Connection);

/// The rows of the `tasks` table of a connection's database, keyed by
/// the `id` column.  A primary key admits no duplicate, so a map loses
/// nothing.
pub uninterp spec fn table_view(conn: rusqlite::Connection) -> Map<Seq<char>, TaskView>;

/// Failure of a store operation.
#[derive(Debug)]
pub enum StoreError {
    /// The inserted id is already present.
    DuplicateId,
    /// The database engine refused the operation; carries its message.
    Storage(String),
}

/// Relies on `rusqlite::Connection::open`: opens the database file at
/// the path, creating it when absent.
#[verifier::external_body]
fn conn_open(path: &str) -> (r: Result<rusqlite::Connection, String>) {
    rusqlite::Connection::open(path).map_err(|e| e.to_string())
}

/// Relies on `rusqlite::Connection::execute` with a `CREATE TABLE IF NOT
/// EXISTS` statement: on success the `tasks` table exists, with the `id`
/// column as primary key, and holds finitely many rows; rows of an
/// already existing table are kept.
#[verifier::external_body]
fn db_create_table(conn: &mut rusqlite::Connection) -> (r: Result<(), String>)
    ensures
        r is Ok ==> table_view(*final(conn)).dom().finite(),
{
    conn.execute(
        "CREATE TABLE IF NOT EXISTS tasks (
            id TEXT PRIMARY KEY,
            description TEXT NOT NULL,
            completed BOOLEAN NOT NULL,
            created_at INTEGER NOT NULL,
            created_at_date TEXT NOT NULL,
            completed_at INTEGER NOT NULL
        )",
        [],
    ).map(|_| ()).map_err(|e| e.to_string())
}

/// Relies on `rusqlite::Connection::execute` with an `INSERT` statement:
/// on success the table gains exactly the given row, keyed by its id; a
/// failed statement leaves the table as it was (statements are atomic).
#[verifier::external_body]
fn db_insert(conn: &mut rusqlite::Connection, task: &Task) -> (r: Result<(), String>)
    ensures
        r is Ok ==> table_view(*final(conn)) == table_view(*old(conn)).insert(task.id@, task@),
        r is Err ==> table_view(*final(conn)) == table_view(*old(conn)),
{
    conn.execute(
        "INSERT INTO tasks (id, description, completed, created_at, created_at_date, completed_at)
         VALUES (?1, ?2, ?3, ?4, ?5, ?6)",
        (&task.id, &task.description, &task.completed, &task.created_at, &task.created_at_date, &task.completed_at),
    ).map(|_| ()).map_err(|e| e.to_string())
}

/// Relies on `rusqlite::Connection::execute` with an `UPDATE ... WHERE
/// id` statement: on success the row keyed by the task's id, if any, is
/// overwritten with the given fields; no row appears or disappears, and
/// a failed statement leaves the table as it was.
#[verifier::external_body]
fn db_update(conn: &mut rusqlite::Connection, task: &Task) -> (r: Result<(), String>)
    ensures
        r is Ok ==> table_view(*final(conn)) == (if table_view(*old(conn)).dom().contains(task.id@) {
            table_view(*old(conn)).insert(task.id@, task@)
        } else {
            table_view(*old(conn))
        }),
        r is Err ==> table_view(*final(conn)) == table_view(*old(conn)),
{
    conn.execute(
        "UPDATE tasks SET description = ?1, completed = ?2, created_at = ?3, created_at_date = ?4, completed_at = ?5 WHERE id = ?6",
        (&task.description, &task.completed, &task.created_at, &task.created_at_date, &task.completed_at, &task.id),
    ).map(|_| ()).map_err(|e| e.to_string())
}

/// Relies on `rusqlite::Connection::query_row` with a `SELECT ... WHERE
/// id` statement, which returns `Err(QueryReturnedNoRows)` when nothing
/// matches: the returned record is the row keyed by the id, read back
/// column by column.
#[verifier::external_body]
fn db_select(conn: &rusqlite::Connection, id: &str) -> (r: Result<Option<Task>, String>)
    ensures
        r matches Ok(Some(t)) ==> table_view(*conn).contains_pair(id@, t@) && t.id@ == id@,
        r matches Ok(None) ==> !table_view(*conn).dom().contains(id@),
{
    let sql = "SELECT id, description, completed, created_at, created_at_date, completed_at FROM tasks WHERE id = ?1";
    let res = conn.query_row(sql, [id], |row| Ok(Task {
        id: row.get(0)?, description: row.get(1)?, completed: row.get(2)?,
        created_at: row.get(3)?, created_at_date: row.get(4)?, completed_at: row.get(5)?,
    }));
    match res {
        Ok(t) => Ok(Some(t)),
        Err(rusqlite::Error::QueryReturnedNoRows) => Ok(None),
        Err(e) => Err(e.to_string()),
    }
}

/// Relies on `rusqlite::Statement::query_map` over a `SELECT` of the
/// whole table: every row is returned exactly once, in some order.
#[verifier::external_body]
fn db_select_all(conn: &rusqlite::Connection) -> (r: Result<Vec<Task>, String>)
    ensures
        r matches Ok(v) ==> {
            &&& v@.len() == table_view(*conn).dom().len()
            &&& forall|i: int|
                0 <= i < v@.len() ==> #[trigger] table_view(*conn).contains_pair(v@[i].id@, v@[i]@)
            &&& forall|i: int, j: int|
                #![trigger v@[i].id@, v@[j].id@]
                0 <= i < v@.len() && 0 <= j < v@.len() && i != j ==> v@[i].id@ != v@[j].id@
            &&& forall|k: Seq<char>|
                #[trigger] table_view(*conn).dom().contains(k) ==> exists|i: int|
                    0 <= i < v@.len() && (#[trigger] v@[i]).id@ == k
        },
{
    let sql = "SELECT id, description, completed, created_at, created_at_date, completed_at FROM tasks";
    let mut stmt = match conn.prepare(sql) {
        Ok(s) => s,
        Err(e) => return Err(e.to_string()),
    };
    let rows = stmt.query_map([], |row| Ok(Task {
        id: row.get(0)?, description: row.get(1)?, completed: row.get(2)?,
        created_at: row.get(3)?, created_at_date: row.get(4)?, completed_at: row.get(5)?,
    }));
    match rows {
        Ok(it) => it.collect::<Result<Vec<Task>, rusqlite::Error>>().map_err(|e| e.to_string()),
        Err(e) => Err(e.to_string()),
    }
}

/// Relies on `rusqlite::Connection::execute` with a `DELETE ... WHERE
/// id` statement: on success the row keyed by the id, if any, is gone
/// and nothing else changed; a failed statement leaves the table as it
/// was.
#[verifier::external_body]
fn db_delete(conn: &mut rusqlite::Connection, id: &str) -> (r: Result<(), String>)
    ensures
        r is Ok ==> table_view(*final(conn)) == table_view(*old(conn)).remove(id@),
        r is Err ==> table_view(*final(conn)) == table_view(*old(conn)),
{
    conn.execute("DELETE FROM tasks WHERE id = ?1", [id]).map(|_| ()).map_err(|e| e.to_string())
}

/// CRUD operations on the task table.  A `Store` is viewed as the map
/// from id to record that its database holds.
pub struct Store {
    conn: rusqlite::Connection,
}

impl View for Store {
    type V = Map<Seq<char>, TaskView>;

    closed spec fn view(&self) -> Map<Seq<char>, TaskView> {
        table_view(self.conn)
    }
}

impl Store {
    /// A store is valid once its table is known to hold finitely many
    /// rows; `new` establishes this and every operation keeps it.
    pub open spec fn inv(&self) -> bool {
        self@.dom().finite()
    }

    /// Opens or creates the database file and its schema.  Safe to call
    /// on every process start; rows already present are kept.
    pub fn new(db_path: &str) -> (r: Result<Store, StoreError>)
        ensures
            r matches Ok(s) ==> s.inv(),
    {
        let mut conn = match conn_open(db_path) {
            Ok(c) => c,
            Err(m) => return Err(StoreError::Storage(m)),
        };
        match db_create_table(&mut conn) {
            Ok(()) => Ok(Store { conn }),
            Err(m) => Err(StoreError::Storage(m)),
        }
    }

    /// Opens the store at the well-known database file.
    pub fn default() -> (r: Result<Store, StoreError>)
        ensures
            r matches Ok(s) ==> s.inv(),
    {
        Store::new(DATABASE_FILE)
    }

    /// Inserts a new record.  Fails with `DuplicateId`, and changes
    /// nothing, when the id is already present.
    pub fn add_task(&mut self, task: &Task) -> (r: Result<(), StoreError>)
        requires
            old(self).inv(),
        ensures
            final(self).inv(),
            r is Ok ==> !old(self)@.dom().contains(task.id@) && final(self)@ == old(self)@.insert(
                task.id@,
                task@,
            ),
            r is Err ==> final(self)@ == old(self)@,
            old(self)@.dom().contains(task.id@) ==> r is Err,
            r == Err::<(), StoreError>(StoreError::DuplicateId) ==> old(self)@.dom().contains(
                task.id@,
            ),
    {
        match db_select(&self.conn, task.id.as_str()) {
            Ok(Some(_)) => Err(StoreError::DuplicateId),
            Ok(None) => {
                match db_insert(&mut self.conn, task) {
                    Ok(()) => Ok(()),
                    Err(m) => Err(StoreError::Storage(m)),
                }
            },
            Err(m) => Err(StoreError::Storage(m)),
        }
    }

    /// Overwrites the record keyed by `task.id` with the given fields.
    /// A no-op success when the id is absent, mirroring the original
    /// fire-and-forget behaviour.
    pub fn update_task(&mut self, task: &Task) -> (r: Result<(), StoreError>)
        requires
            old(self).inv(),
            task@.completion_consistent(),
        ensures
            final(self).inv(),
            r is Ok ==> final(self)@ == (if old(self)@.dom().contains(task.id@) {
                old(self)@.insert(task.id@, task@)
            } else {
                old(self)@
            }),
            r is Err ==> final(self)@ == old(self)@,
    {
        match db_update(&mut self.conn, task) {
            Ok(()) => Ok(()),
            Err(m) => Err(StoreError::Storage(m)),
        }
    }

    /// Point lookup: the record with this id, if any.
    pub fn get_task(&self, id: &str) -> (r: Result<Option<Task>, StoreError>)
        ensures
            r matches Ok(Some(t)) ==> self@.contains_pair(id@, t@) && t.id@ == id@,
            r matches Ok(None) ==> !self@.dom().contains(id@),
    {
        match db_select(&self.conn, id) {
            Ok(o) => Ok(o),
            Err(m) => Err(StoreError::Storage(m)),
        }
    }

    /// Full scan.  The records come in no guaranteed order, each exactly
    /// once, and form a snapshot the caller may hold on to.
    pub fn get_all_tasks(&self) -> (r: Result<Vec<Task>, StoreError>)
        ensures
            r matches Ok(v) ==> {
                &&& v@.len() == self@.dom().len()
                &&& forall|i: int|
                    0 <= i < v@.len() ==> #[trigger] self@.contains_pair(v@[i].id@, v@[i]@)
                &&& forall|i: int, j: int|
                    #![trigger v@[i].id@, v@[j].id@]
                    0 <= i < v@.len() && 0 <= j < v@.len() && i != j ==> v@[i].id@ != v@[j].id@
                &&& forall|k: Seq<char>|
                    #[trigger] self@.dom().contains(k) ==> exists|i: int|
                        0 <= i < v@.len() && (#[trigger] v@[i]).id@ == k
            },
    {
        match db_select_all(&self.conn) {
            Ok(v) => Ok(v),
            Err(m) => Err(StoreError::Storage(m)),
        }
    }

    /// Looking a record up right after it was added yields the added
    /// record, field for field: `add_task` ensures the new table view is
    /// `old.insert(task.id@, task@)`, and `get_task` returns exactly the
    /// record the table view holds under the id.
    pub proof fn lemma_add_then_get(m: Map<Seq<char>, TaskView>, t: TaskView)
        ensures
            m.insert(t.id, t).dom().contains(t.id),
            m.insert(t.id, t)[t.id] == t,
    {
    }

    /// The completion flag and its timestamp agree for every record
    /// after every update: overwriting a table whose records are all
    /// completion-consistent with a consistent record (the only kind
    /// `update_task` and `add_task` accept on the toggle path) leaves
    /// every record consistent, whatever the toggle sequence was.
    pub proof fn lemma_update_keeps_consistency(m: Map<Seq<char>, TaskView>, t: TaskView)
        requires
            forall|k: Seq<char>| m.dom().contains(k) ==> (#[trigger] m[k]).completion_consistent(),
            t.completion_consistent(),
        ensures
            forall|k: Seq<char>|
                m.insert(t.id, t).dom().contains(k) ==> (#[trigger] m.insert(
                    t.id,
                    t,
                )[k]).completion_consistent(),
    {
    }

    /// Removes the record with this id; a no-op when it is absent.
    pub fn delete_task_by_id(&mut self, id: &str) -> (r: Result<(), StoreError>)
        requires
            old(self).inv(),
        ensures
            final(self).inv(),
            r is Ok ==> final(self)@ == old(self)@.remove(id@),
            r is Err ==> final(self)@ == old(self)@,
    {
        match db_delete(&mut self.conn, id) {
            Ok(()) => Ok(()),
            Err(m) => Err(StoreError::Storage(m)),
        }
    }
}

/// One mutation of the store, as a value: what a successful `add_task`
/// or `delete_task_by_id` does to the table view.
pub ghost enum StoreOp {
    Add(TaskView),
    Remove(Seq<char>),
}

pub open spec fn apply_op(m: Map<Seq<char>, TaskView>, op: StoreOp) -> Map<Seq<char>, TaskView> {
    match op {
        StoreOp::Add(t) => m.insert(t.id, t),
        StoreOp::Remove(id) => m.remove(id),
    }
}

pub open spec fn apply_ops(m: Map<Seq<char>, TaskView>, ops: Seq<StoreOp>) -> Map<
    Seq<char>,
    TaskView,
>
    decreases ops.len(),
{
    if ops.len() == 0 {
        m
    } else {
        apply_ops(apply_op(m, ops[0]), ops.drop_first())
    }
}

/// Every insert in the sequence adds a fresh id and every delete hits a
/// present one, step by step.
pub open spec fn ops_valid(m: Map<Seq<char>, TaskView>, ops: Seq<StoreOp>) -> bool
    decreases ops.len(),
{
    if ops.len() == 0 {
        true
    } else {
        (match ops[0] {
            StoreOp::Add(t) => !m.dom().contains(t.id),
            StoreOp::Remove(id) => m.dom().contains(id),
        }) && ops_valid(apply_op(m, ops[0]), ops.drop_first())
    }
}

pub open spec fn count_adds(ops: Seq<StoreOp>) -> int
    decreases ops.len(),
{
    if ops.len() == 0 {
        0
    } else {
        (if ops[0] is Add {
            1int
        } else {
            0int
        }) + count_adds(ops.drop_first())
    }
}

pub open spec fn count_removes(ops: Seq<StoreOp>) -> int
    decreases ops.len(),
{
    if ops.len() == 0 {
        0
    } else {
        (if ops[0] is Remove {
            1int
        } else {
            0int
        }) + count_removes(ops.drop_first())
    }
}

/// After any interleaving of N inserts of fresh ids and M deletes of
/// present ids, the table holds exactly N - M more records than before:
/// no duplicates appear and none go missing.
pub proof fn lemma_ops_net_count(m: Map<Seq<char>, TaskView>, ops: Seq<StoreOp>)
    requires
        m.dom().finite(),
        ops_valid(m, ops),
    ensures
        apply_ops(m, ops).dom().finite(),
        apply_ops(m, ops).dom().len() == m.dom().len() + count_adds(ops) - count_removes(ops),
    decreases ops.len(),
{
    broadcast use vstd::set::group_set_axioms;

    if ops.len() > 0 {
        let m2 = apply_op(m, ops[0]);
        match ops[0] {
            StoreOp::Add(t) => {
                assert(m2.dom() =~= m.dom().insert(t.id));
            },
            StoreOp::Remove(id) => {
                assert(m2.dom() =~= m.dom().remove(id));
            },
        }
        lemma_ops_net_count(m2, ops.drop_first());
    }
}

} // verus!
