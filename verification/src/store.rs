//! The persistent index store: one SQLite file holding the `search_index`
//! table, reached through a handful of trusted statement wrappers. The
//! store is modelled as a map from path to record, with a second map for
//! the open transaction's rollback point.

use vstd::prelude::*;

use crate::types::FileRecord;
use crate::types::IndexingStatus;
use crate::types::Rec;
use crate::types::rec_valid;
use crate::strings::lex_leq;

verus! {

#[verifier::external_type_specification]
#[verifier::external_body]
pub struct ExConnection(rusqlite::Connection);

#[verifier::external_type_specification]
#[verifier::external_body]
pub struct ExSqlError(rusqlite::Error);

/// The rows of `search_index` as seen by statements on this connection:
/// inside an open transaction, its working state.
pub uninterp spec fn rows_of(c: rusqlite::Connection) -> Map<Seq<char>, Rec>;

/// The rollback point: the committed rows at the last `BEGIN`.
pub uninterp spec fn saved_of(c: rusqlite::Connection) -> Map<Seq<char>, Rec>;

/// A transaction is open on this connection.
pub uninterp spec fn tx_open(c: rusqlite::Connection) -> bool;

/// What a failed write statement leaves behind: either nothing changed,
/// or SQLite aborted the open transaction and rolled back to the
/// rollback point.
pub open spec fn write_err_state(oldc: rusqlite::Connection, newc: rusqlite::Connection) -> bool {
    &&& saved_of(newc) == saved_of(oldc)
    &&& {
        ||| (rows_of(newc) == rows_of(oldc) && tx_open(newc) == tx_open(oldc))
        ||| (tx_open(oldc) && rows_of(newc) == saved_of(oldc) && !tx_open(newc))
    }
}

/// Relies on `rusqlite::Connection::open`: opening a database file; a
/// fresh connection has no open transaction, and a SQLite table holds
/// finitely many rows.
#[verifier::external_body]
fn open_connection(path: &str) -> (r: Result<rusqlite::Connection, rusqlite::Error>)
    ensures
        r matches Ok(c) ==> !tx_open(c) && rows_of(c).dom().finite(),
{
    rusqlite::Connection::open(path)
}

/// Relies on `rusqlite::Connection::pragma_update`: a PRAGMA adjusts
/// settings and never touches the rows of `search_index`.
#[verifier::external_body]
fn set_pragma_i64(
    conn: &mut rusqlite::Connection,
    name: &str,
    value: i64,
) -> (r: Result<(), rusqlite::Error>)
    ensures
        rows_of(*final(conn)) == rows_of(*old(conn)),
        saved_of(*final(conn)) == saved_of(*old(conn)),
        tx_open(*final(conn)) == tx_open(*old(conn)),
{
    conn.pragma_update(None, name, value)
}

/// Relies on `rusqlite::Connection::pragma_update`, as above, for a
/// text-valued PRAGMA.
#[verifier::external_body]
fn set_pragma_text(
    conn: &mut rusqlite::Connection,
    name: &str,
    value: &str,
) -> (r: Result<(), rusqlite::Error>)
    ensures
        rows_of(*final(conn)) == rows_of(*old(conn)),
        saved_of(*final(conn)) == saved_of(*old(conn)),
        tx_open(*final(conn)) == tx_open(*old(conn)),
{
    conn.pragma_update(None, name, value)
}

/// Relies on `rusqlite::Connection::execute_batch`: `CREATE TABLE IF NOT
/// EXISTS` and `CREATE INDEX IF NOT EXISTS` leave existing rows alone,
/// and a fresh table has none.
#[verifier::external_body]
fn create_schema(conn: &mut rusqlite::Connection) -> (r: Result<(), rusqlite::Error>)
    ensures
        rows_of(*final(conn)) == rows_of(*old(conn)),
        saved_of(*final(conn)) == saved_of(*old(conn)),
        tx_open(*final(conn)) == tx_open(*old(conn)),
{
    conn.execute_batch(
        "CREATE TABLE IF NOT EXISTS search_index (
            id INTEGER PRIMARY KEY AUTOINCREMENT,
            path TEXT UNIQUE NOT NULL,
            name TEXT NOT NULL,
            extension TEXT,
            file_size INTEGER,
            is_dir INTEGER NOT NULL DEFAULT 0,
            modified_time TEXT NOT NULL,
            last_indexed TEXT NOT NULL
        );
        CREATE INDEX IF NOT EXISTS idx_search_name ON search_index(name);
        CREATE INDEX IF NOT EXISTS idx_search_extension ON search_index(extension);
        CREATE INDEX IF NOT EXISTS idx_search_size ON search_index(file_size);
        CREATE INDEX IF NOT EXISTS idx_search_modified ON search_index(modified_time);
        CREATE INDEX IF NOT EXISTS idx_search_is_dir ON search_index(is_dir);",
    )
}

/// Relies on `rusqlite::Connection::execute_batch` running `BEGIN`:
/// opening a transaction freezes the rollback point at the current rows
/// and changes none of them.
#[verifier::external_body]
fn begin_tx(conn: &mut rusqlite::Connection) -> (r: Result<(), rusqlite::Error>)
    requires
        !tx_open(*old(conn)),
    ensures
        rows_of(*final(conn)) == rows_of(*old(conn)),
        r is Ok ==> tx_open(*final(conn)) && saved_of(*final(conn)) == rows_of(*old(conn)),
        r is Err ==> !tx_open(*final(conn)) && saved_of(*final(conn)) == saved_of(*old(conn)),
{
    conn.execute_batch("BEGIN")
}

/// Relies on `rusqlite::Connection::execute_batch` running `COMMIT`: on
/// success the working rows become durable; on failure the transaction
/// either stays open unchanged or SQLite has already rolled it back.
#[verifier::external_body]
fn commit_tx(conn: &mut rusqlite::Connection) -> (r: Result<(), rusqlite::Error>)
    requires
        tx_open(*old(conn)),
    ensures
        r is Ok ==> rows_of(*final(conn)) == rows_of(*old(conn)) && !tx_open(*final(conn)),
        r is Err ==> {
            ||| (tx_open(*final(conn)) && rows_of(*final(conn)) == rows_of(*old(conn))
                && saved_of(*final(conn)) == saved_of(*old(conn)))
            ||| (!tx_open(*final(conn)) && rows_of(*final(conn)) == saved_of(*old(conn)))
        },
{
    conn.execute_batch("COMMIT")
}

/// Relies on `rusqlite::Connection::execute_batch` running `ROLLBACK`:
/// with a transaction open — and no statement of this module left in
/// progress — it restores the rollback point; with none open it fails
/// and changes nothing.
#[verifier::external_body]
fn rollback_tx(conn: &mut rusqlite::Connection)
    ensures
        !tx_open(*final(conn)),
        tx_open(*old(conn)) ==> rows_of(*final(conn)) == saved_of(*old(conn)),
        !tx_open(*old(conn)) ==> rows_of(*final(conn)) == rows_of(*old(conn)),
{
    let _ = conn.execute_batch("ROLLBACK");
}

/// Relies on `rusqlite::Connection::execute` running `INSERT OR REPLACE`:
/// on success exactly the row keyed by this path is written; a failed
/// statement changes no rows unless SQLite aborted the transaction.
#[verifier::external_body]
fn exec_upsert(
    conn: &mut rusqlite::Connection,
    record: &FileRecord,
) -> (r: Result<(), rusqlite::Error>)
    ensures
        r is Ok ==> {
            &&& rows_of(*final(conn)) == rows_of(*old(conn)).insert(record@.path, record@)
            &&& saved_of(*final(conn)) == saved_of(*old(conn))
            &&& tx_open(*final(conn)) == tx_open(*old(conn))
        },
        r is Err ==> write_err_state(*old(conn), *final(conn)),
{
    conn.execute(
        "INSERT OR REPLACE INTO search_index (path, name, extension, file_size, is_dir, modified_time, last_indexed)
         VALUES (?1, ?2, ?3, ?4, ?5, ?6, ?7)",
        (
            record.path.as_str(),
            record.name.as_str(),
            record.extension.as_deref(),
            record.file_size,
            record.is_dir as i64,
            record.modified_time.as_str(),
            record.last_indexed.as_str(),
        ),
    ).map(|_| ())
}

/// Relies on `rusqlite::Connection::execute` running `DELETE ... WHERE
/// path = ?`: exactly the row with this path goes; the answer counts the
/// rows removed.
#[verifier::external_body]
fn exec_delete(conn: &mut rusqlite::Connection, path: &str) -> (r: Result<usize, rusqlite::Error>)
    ensures
        r matches Ok(n) ==> {
            &&& rows_of(*final(conn)) == rows_of(*old(conn)).remove(path@)
            &&& saved_of(*final(conn)) == saved_of(*old(conn))
            &&& tx_open(*final(conn)) == tx_open(*old(conn))
            &&& n == if rows_of(*old(conn)).dom().contains(path@) { 1int } else { 0int }
        },
        r is Err ==> write_err_state(*old(conn), *final(conn)),
{
    conn.execute("DELETE FROM search_index WHERE path = ?1", (path,))
}

/// Relies on `rusqlite::Connection::execute` running `DELETE ... WHERE
/// last_indexed < ?`: the rows that stay are exactly those at or past
/// the cutoff in SQLite's byte order, which on these UTF-8 columns is
/// the code-point order; the answer counts the rows removed.
#[verifier::external_body]
fn exec_delete_older(
    conn: &mut rusqlite::Connection,
    cutoff: &str,
) -> (r: Result<usize, rusqlite::Error>)
    ensures
        r matches Ok(n) ==> {
            &&& rows_of(*final(conn)) == Map::<Seq<char>, Rec>::new(
                |p: Seq<char>| rows_of(*old(conn)).dom().contains(p) && lex_leq(
                    cutoff@,
                    rows_of(*old(conn))[p].last_indexed,
                ),
                |p: Seq<char>| rows_of(*old(conn))[p],
            )
            &&& saved_of(*final(conn)) == saved_of(*old(conn))
            &&& tx_open(*final(conn)) == tx_open(*old(conn))
            &&& n + rows_of(*final(conn)).dom().len() == rows_of(*old(conn)).dom().len()
        },
        r is Err ==> write_err_state(*old(conn), *final(conn)),
{
    conn.execute("DELETE FROM search_index WHERE last_indexed < ?1", (cutoff,))
}

/// Relies on `rusqlite::Connection::query_row` running `SELECT COUNT(*)`:
/// the count of rows in the table.
#[verifier::external_body]
fn count_rows(conn: &rusqlite::Connection) -> (r: Result<usize, rusqlite::Error>)
    ensures
        r matches Ok(n) ==> n == rows_of(*conn).dom().len(),
{
    let n: i64 = conn.query_row("SELECT COUNT(*) FROM search_index", (), |row| row.get(0))?;
    Ok(n as usize)
}

/// The database file's page count, as `PRAGMA page_count` reports it.
pub uninterp spec fn page_count_of(c: rusqlite::Connection) -> int;

/// The database file's page size, as `PRAGMA page_size` reports it.
pub uninterp spec fn page_size_of(c: rusqlite::Connection) -> int;

/// Relies on `rusqlite::Connection::query_row` reading `PRAGMA
/// page_count`: the file's page count, non-negative and within SQLite's
/// documented page limit.
#[verifier::external_body]
fn db_page_count(conn: &rusqlite::Connection) -> (r: Result<i64, rusqlite::Error>)
    ensures
        r matches Ok(n) ==> n == page_count_of(*conn) && 0 <= n <= 0xFFFFFFFE,
{
    conn.query_row("PRAGMA page_count", (), |row| row.get(0))
}

/// Relies on `rusqlite::Connection::query_row` reading `PRAGMA
/// page_size`: the file's page size, 512 to 65536 bytes.
#[verifier::external_body]
fn db_page_size(conn: &rusqlite::Connection) -> (r: Result<i64, rusqlite::Error>)
    ensures
        r matches Ok(n) ==> n == page_size_of(*conn) && 512 <= n <= 65536,
{
    conn.query_row("PRAGMA page_size", (), |row| row.get(0))
}

/// Relies on `rusqlite::Statement::query_map` over `SELECT * FROM
/// search_index`: the answer lists every row of the table exactly once,
/// and the `UNIQUE` constraint on `path` keeps the listed paths distinct.
#[verifier::external_body]
fn query_all(conn: &rusqlite::Connection) -> (r: Result<Vec<FileRecord>, rusqlite::Error>)
    ensures
        r matches Ok(v) ==> {
            &&& rows_of(*conn).dom().finite()
            &&& v@.len() == rows_of(*conn).dom().len()
            &&& forall|i: int|
                0 <= i < v@.len() ==> rows_of(*conn).contains_pair(#[trigger] v@[i]@.path, v@[i]@)
            &&& forall|i: int, j: int|
                0 <= i < j < v@.len() ==> v@[i]@.path != v@[j]@.path
        },
{
    let mut stmt = conn.prepare(
        "SELECT path, name, extension, file_size, is_dir, modified_time, last_indexed FROM search_index",
    )?;
    let rows = stmt.query_map((), |row| {
        Ok(FileRecord {
            path: row.get(0)?,
            name: row.get(1)?,
            extension: row.get(2)?,
            file_size: row.get(3)?,
            is_dir: row.get(4)?,
            modified_time: row.get(5)?,
            last_indexed: row.get(6)?,
        })
    })?;
    rows.collect()
}

/// Relies on `rusqlite::Connection::query_row` running `SELECT
/// MAX(last_indexed)`: the greatest value in SQLite's byte order, which
/// on these UTF-8 columns is the code-point order; none when the table
/// is empty.
#[verifier::external_body]
fn max_last_indexed(conn: &rusqlite::Connection) -> (r: Result<Option<String>, rusqlite::Error>)
    ensures
        r matches Ok(o) ==> match o {
            Some(s) => {
                &&& exists|p: Seq<char>|
                    rows_of(*conn).dom().contains(p) && #[trigger] rows_of(*conn)[p].last_indexed
                        == s@
                &&& forall|p: Seq<char>|
                    rows_of(*conn).dom().contains(p) ==> lex_leq(
                        #[trigger] rows_of(*conn)[p].last_indexed,
                        s@,
                    )
            },
            None => rows_of(*conn).dom() =~= Set::<Seq<char>>::empty(),
        },
{
    conn.query_row("SELECT MAX(last_indexed) FROM search_index", (), |row| row.get(0))
}

/// Relies on `rusqlite::Connection::execute_batch` running `VACUUM`:
/// compaction rewrites the file and leaves every row as it was.
#[verifier::external_body]
fn vacuum_conn(conn: &mut rusqlite::Connection) -> (r: Result<(), rusqlite::Error>)
    ensures
        rows_of(*final(conn)) == rows_of(*old(conn)),
        saved_of(*final(conn)) == saved_of(*old(conn)),
        tx_open(*final(conn)) == tx_open(*old(conn)),
{
    conn.execute_batch("VACUUM")
}

/// Relies on `chrono`: the moment `older_than_hours` hours before now,
/// as an RFC 3339 timestamp; of the clock nothing is promised.
#[verifier::external_body]
fn cutoff_rfc3339(older_than_hours: i64) -> (r: String)
    requires
        0 <= older_than_hours <= 1000000000,
{
    (chrono::Utc::now() - chrono::Duration::hours(older_than_hours)).to_rfc3339()
}

/// Relies on the `Display` impl of `rusqlite::Error` for a readable
/// message.
#[verifier::external_body]
fn sql_error_text(e: &rusqlite::Error) -> (r: String) {
    format!("{}", e)
}

/// Why a store operation failed; each variant carries the underlying
/// database error.
#[derive(Debug)]
pub enum StoreError {
    Init(rusqlite::Error),
    Write(rusqlite::Error),
    Query(rusqlite::Error),
}

impl StoreError {
    /// A readable description, for callers that surface errors as text.
    pub fn message(&self) -> String {
        match self {
            StoreError::Init(e) => sql_error_text(e),
            StoreError::Write(e) => sql_error_text(e),
            StoreError::Query(e) => sql_error_text(e),
        }
    }
}

/// The batch applied in order: each record replaces any earlier row with
/// its path.
pub open spec fn batch_apply(m: Map<Seq<char>, Rec>, rs: Seq<Rec>) -> Map<Seq<char>, Rec>
    decreases rs.len(),
{
    if rs.len() == 0 {
        m
    } else {
        batch_apply(m.insert(rs[0].path, rs[0]), rs.drop_first())
    }
}

/// Appending one record to a batch inserts it last.
pub proof fn lemma_batch_apply_push(m: Map<Seq<char>, Rec>, rs: Seq<Rec>, r: Rec)
    ensures
        batch_apply(m, rs.push(r)) == batch_apply(m, rs).insert(r.path, r),
    decreases rs.len(),
{
    if rs.len() == 0 {
        assert(rs.push(r).drop_first() =~= Seq::<Rec>::empty());
        assert(batch_apply(m, rs.push(r)) == batch_apply(m.insert(r.path, r), Seq::<Rec>::empty()));
    } else {
        assert(rs.push(r).drop_first() =~= rs.drop_first().push(r));
        lemma_batch_apply_push(m.insert(rs[0].path, rs[0]), rs.drop_first(), r);
    }
}

/// Batch application only adds or replaces rows: every resulting row is
/// an untouched old row or one of the batch's records under its own
/// path, and the result stays finite.
pub proof fn lemma_batch_apply_facts(m: Map<Seq<char>, Rec>, rs: Seq<Rec>)
    requires
        m.dom().finite(),
    ensures
        batch_apply(m, rs).dom().finite(),
        forall|p: Seq<char>|
            #[trigger] batch_apply(m, rs).dom().contains(p) ==> (m.dom().contains(p)
                && batch_apply(m, rs)[p] == m[p]) || exists|i: int|
                0 <= i < rs.len() && #[trigger] rs[i].path == p && batch_apply(m, rs)[p] == rs[i],
    decreases rs.len(),
{
    if rs.len() > 0 {
        let m2 = m.insert(rs[0].path, rs[0]);
        lemma_batch_apply_facts(m2, rs.drop_first());
        assert forall|p: Seq<char>| #[trigger] batch_apply(m, rs).dom().contains(p) implies (m.dom()
            .contains(p) && batch_apply(m, rs)[p] == m[p]) || exists|i: int|
            0 <= i < rs.len() && #[trigger] rs[i].path == p && batch_apply(m, rs)[p] == rs[i] by {
            if m2.dom().contains(p) && batch_apply(m2, rs.drop_first())[p] == m2[p] {
                if p == rs[0].path {
                    assert(rs[0].path == p && batch_apply(m, rs)[p] == rs[0]);
                } else {
                    assert(m.dom().contains(p) && batch_apply(m, rs)[p] == m[p]);
                }
            } else {
                let i = choose|i: int|
                    0 <= i < rs.drop_first().len() && #[trigger] rs.drop_first()[i].path == p
                        && batch_apply(m2, rs.drop_first())[p] == rs.drop_first()[i];
                assert(rs[i + 1].path == p && batch_apply(m, rs)[p] == rs[i + 1]);
            }
        }
    }
}

/// The views of a sequence of records.
pub open spec fn recs_of(files: Seq<FileRecord>) -> Seq<Rec> {
    Seq::new(files.len(), |i: int| files[i]@)
}

/// The persistent store: one connection for the process lifetime, no
/// transaction left open between calls.
pub struct Database {
    conn: rusqlite::Connection,
}

impl Database {
    /// The table contents, keyed by path.
    pub closed spec fn rows(&self) -> Map<Seq<char>, Rec> {
        rows_of(self.conn)
    }

    /// The database file's size in bytes, as the two PRAGMA reads report
    /// it: page count times page size.
    pub closed spec fn database_size_model(&self) -> int {
        page_count_of(self.conn) * page_size_of(self.conn)
    }

    /// At rest the store has no open transaction and finitely many rows.
    pub closed spec fn wf(&self) -> bool {
        &&& !tx_open(self.conn)
        &&& rows_of(self.conn).dom().finite()
    }

    /// A well-formed store holds finitely many rows.
    pub proof fn lemma_wf_finite(&self)
        requires
            self.wf(),
        ensures
            self.rows().dom().finite(),
    {
    }

    /// Every row is a valid record filed under its own path.
    pub open spec fn all_valid(&self) -> bool {
        forall|p: Seq<char>|
            self.rows().dom().contains(p) ==> rec_valid(#[trigger] self.rows()[p])
                && self.rows()[p].path == p
    }

    /// Open or create the database file, apply the throughput pragmas,
    /// and make sure the schema exists.
    pub fn new(path: &str) -> (r: Result<Database, StoreError>)
        ensures
            r matches Ok(s) ==> s.wf(),
    {
        let mut conn = match open_connection(path) {
            Ok(c) => c,
            Err(e) => {
                return Err(StoreError::Init(e));
            },
        };
        if let Err(e) = set_pragma_i64(&mut conn, "synchronous", 0) {
            return Err(StoreError::Init(e));
        }
        if let Err(e) = set_pragma_i64(&mut conn, "cache_size", -50000) {
            return Err(StoreError::Init(e));
        }
        if let Err(e) = set_pragma_i64(&mut conn, "temp_store", 2) {
            return Err(StoreError::Init(e));
        }
        if let Err(e) = create_schema(&mut conn) {
            return Err(StoreError::Init(e));
        }
        Ok(Database { conn })
    }

    /// Open with write-ahead logging as well: the release configuration.
    pub fn new_wal(path: &str) -> (r: Result<Database, StoreError>)
        ensures
            r matches Ok(s) ==> s.wf(),
    {
        let mut store = Database::new(path)?;
        if let Err(e) = set_pragma_text(&mut store.conn, "journal_mode", "WAL") {
            return Err(StoreError::Init(e));
        }
        Ok(store)
    }

    /// Insert or replace the single row keyed by the record's path.
    pub fn upsert_file(&mut self, record: &FileRecord) -> (r: Result<(), StoreError>)
        requires
            old(self).wf(),
            rec_valid(record@),
        ensures
            final(self).wf(),
            r is Ok ==> final(self).rows() == old(self).rows().insert(record@.path, record@),
            r is Err ==> final(self).rows() == old(self).rows(),
            old(self).all_valid() ==> final(self).all_valid(),
    {
        match exec_upsert(&mut self.conn, record) {
            Ok(()) => Ok(()),
            Err(e) => Err(StoreError::Write(e)),
        }
    }

    /// Insert or replace many rows in one transaction. Either every
    /// record lands, or — on any row error — the table is exactly as it
    /// was before the call.
    pub fn upsert_batch(&mut self, files: &Vec<FileRecord>) -> (r: Result<(), StoreError>)
        requires
            old(self).wf(),
            forall|i: int| 0 <= i < files@.len() ==> rec_valid(#[trigger] files@[i]@),
        ensures
            final(self).wf(),
            files@.len() == 0 ==> r is Ok,
            r is Ok ==> final(self).rows() == batch_apply(old(self).rows(), recs_of(files@)),
            r is Err ==> final(self).rows() == old(self).rows(),
            old(self).all_valid() ==> final(self).all_valid(),
    {
        let ghost rows0 = self.rows();
        if files.len() == 0 {
            proof {
                assert(batch_apply(rows0, recs_of(files@)) =~= rows0);
            }
            return Ok(());
        }
        if let Err(e) = begin_tx(&mut self.conn) {
            return Err(StoreError::Write(e));
        }
        let n = files.len();
        let mut i: usize = 0;
        while i < n
            invariant
                n == files@.len(),
                0 <= i <= n,
                rows0 == old(self).rows(),
                forall|k: int| 0 <= k < files@.len() ==> rec_valid(#[trigger] files@[k]@),
                tx_open(self.conn),
                saved_of(self.conn) == rows0,
                rows0.dom().finite(),
                rows_of(self.conn) == batch_apply(rows0, recs_of(files@).take(i as int)),
            decreases n - i,
        {
            let record = &files[i];
            match exec_upsert(&mut self.conn, record) {
                Ok(()) => {
                    proof {
                        lemma_batch_apply_push(rows0, recs_of(files@).take(i as int), record@);
                        assert(recs_of(files@).take(i as int).push(record@) =~= recs_of(
                            files@,
                        ).take(i + 1));
                    }
                },
                Err(e) => {
                    rollback_tx(&mut self.conn);
                    return Err(StoreError::Write(e));
                },
            }
            i += 1;
        }
        proof {
            assert(recs_of(files@).take(n as int) =~= recs_of(files@));
        }
        match commit_tx(&mut self.conn) {
            Ok(()) => {
                proof {
                    lemma_batch_apply_facts(rows0, recs_of(files@));
                }
                Ok(())
            },
            Err(e) => {
                rollback_tx(&mut self.conn);
                Err(StoreError::Write(e))
            },
        }
    }

    /// Remove the row with exactly this path, if any.
    pub fn delete_file(&mut self, path: &str) -> (r: Result<(), StoreError>)
        requires
            old(self).wf(),
        ensures
            final(self).wf(),
            r is Ok ==> final(self).rows() == old(self).rows().remove(path@),
            r is Err ==> final(self).rows() == old(self).rows(),
            old(self).all_valid() ==> final(self).all_valid(),
    {
        match exec_delete(&mut self.conn, path) {
            Ok(_) => Ok(()),
            Err(e) => Err(StoreError::Write(e)),
        }
    }

    /// How many rows the index holds.
    pub fn get_file_count(&self) -> (r: Result<usize, StoreError>)
        requires
            self.wf(),
        ensures
            r matches Ok(n) ==> n == self.rows().dom().len(),
    {
        match count_rows(&self.conn) {
            Ok(n) => Ok(n),
            Err(e) => Err(StoreError::Query(e)),
        }
    }

    /// The database file size in bytes: page count times page size.
    pub fn get_database_size(&self) -> (r: Result<u64, StoreError>)
        requires
            self.wf(),
        ensures
            r matches Ok(n) ==> n == self.database_size_model() && n <= 0xFFFFFFFE * 65536,
    {
        let pages = match db_page_count(&self.conn) {
            Ok(n) => n,
            Err(e) => {
                return Err(StoreError::Query(e));
            },
        };
        let size = match db_page_size(&self.conn) {
            Ok(n) => n,
            Err(e) => {
                return Err(StoreError::Query(e));
            },
        };
        proof {
            assert(pages * size <= 0xFFFFFFFE * 65536) by (nonlinear_arith)
                requires
                    0 <= pages <= 0xFFFFFFFE,
                    512 <= size <= 65536,
            ;
            assert(pages * size >= 0) by (nonlinear_arith)
                requires
                    0 <= pages,
                    0 <= size,
            ;
        }
        Ok((pages * size) as u64)
    }

    /// The greatest `last_indexed` timestamp, or none if the table is
    /// empty.
    pub fn get_last_indexed_time(&self) -> (r: Result<Option<String>, StoreError>)
        requires
            self.wf(),
        ensures
            r matches Ok(o) ==> match o {
                Some(s) => {
                    &&& exists|p: Seq<char>|
                        self.rows().dom().contains(p) && #[trigger] self.rows()[p].last_indexed
                            == s@
                    &&& forall|p: Seq<char>|
                        self.rows().dom().contains(p) ==> lex_leq(
                            #[trigger] self.rows()[p].last_indexed,
                            s@,
                        )
                },
                None => self.rows().dom() =~= Set::<Seq<char>>::empty(),
            },
    {
        match max_last_indexed(&self.conn) {
            Ok(o) => Ok(o),
            Err(e) => Err(StoreError::Query(e)),
        }
    }

    /// Remove every row whose `last_indexed` lies strictly before the
    /// cutoff timestamp; the rest stay untouched.
    pub fn delete_entries_older_than(&mut self, cutoff: &str) -> (r: Result<usize, StoreError>)
        requires
            old(self).wf(),
        ensures
            final(self).wf(),
            r matches Ok(n) ==> n + final(self).rows().dom().len() == old(self).rows().dom().len(),
            r is Ok ==> final(self).rows() == Map::<Seq<char>, Rec>::new(
                |p: Seq<char>| old(self).rows().dom().contains(p) && lex_leq(
                    cutoff@,
                    old(self).rows()[p].last_indexed,
                ),
                |p: Seq<char>| old(self).rows()[p],
            ),
            r is Err ==> final(self).rows() == old(self).rows(),
            old(self).all_valid() ==> final(self).all_valid(),
    {
        match exec_delete_older(&mut self.conn, cutoff) {
            Ok(n) => {
                proof {
                    let kept = Map::<Seq<char>, Rec>::new(
                        |p: Seq<char>| rows_of(old(self).conn).dom().contains(p) && lex_leq(
                            cutoff@,
                            rows_of(old(self).conn)[p].last_indexed,
                        ),
                        |p: Seq<char>| rows_of(old(self).conn)[p],
                    );
                    assert(kept.dom() =~= rows_of(old(self).conn).dom().intersect(kept.dom()));
                    vstd::set_lib::lemma_len_intersect(rows_of(old(self).conn).dom(), kept.dom());
                }
                Ok(n)
            },
            Err(e) => Err(StoreError::Write(e)),
        }
    }

    /// Remove every row last indexed more than the given number of hours
    /// ago. Only deletions happen: whatever stays is untouched.
    pub fn delete_stale_entries(&mut self, older_than_hours: i64) -> (r: Result<usize, StoreError>)
        requires
            old(self).wf(),
            0 <= older_than_hours <= 1000000000,
        ensures
            final(self).wf(),
            r matches Ok(n) ==> n + final(self).rows().dom().len() == old(self).rows().dom().len(),
            r is Ok ==> forall|p: Seq<char>|
                final(self).rows().dom().contains(p) ==> old(self).rows().dom().contains(p)
                    && final(self).rows()[p] == old(self).rows()[p],
            r is Err ==> final(self).rows() == old(self).rows(),
            old(self).all_valid() ==> final(self).all_valid(),
    {
        let cutoff = cutoff_rfc3339(older_than_hours);
        self.delete_entries_older_than(cutoff.as_str())
    }

    /// Compact the database file.
    pub fn vacuum(&mut self) -> (r: Result<(), StoreError>)
        requires
            old(self).wf(),
        ensures
            final(self).wf(),
            final(self).rows() == old(self).rows(),
            old(self).all_valid() ==> final(self).all_valid(),
    {
        match vacuum_conn(&mut self.conn) {
            Ok(()) => Ok(()),
            Err(e) => Err(StoreError::Write(e)),
        }
    }

    /// Borrow the underlying connection; for callers outside the library
    /// that need statements of their own. The store's model assumes every
    /// statement that touches `search_index` goes through this module: a
    /// caller that writes the table through this handle steps outside
    /// what the contracts describe.
    pub fn get_connection(&self) -> &rusqlite::Connection {
        &self.conn
    }

    /// Every row of the table, each exactly once.
    pub(crate) fn all_rows(&self) -> (r: Result<Vec<FileRecord>, StoreError>)
        requires
            self.wf(),
        ensures
            r matches Ok(v) ==> {
                &&& v@.len() == self.rows().dom().len()
                &&& forall|i: int|
                    0 <= i < v@.len() ==> self.rows().contains_pair(
                        #[trigger] v@[i]@.path,
                        v@[i]@,
                    )
                &&& forall|i: int, j: int| 0 <= i < j < v@.len() ==> v@[i]@.path != v@[j]@.path
            },
    {
        match query_all(&self.conn) {
            Ok(v) => Ok(v),
            Err(e) => Err(StoreError::Query(e)),
        }
    }
}

/// Answer a status query: how many rows the index holds, when it was
/// last written, and how large the database file is. Indexing runs on a
/// separate worker this code does not track, so `is_indexing` is false.
pub fn get_indexing_status(store: &Database) -> (r: Result<IndexingStatus, StoreError>)
    requires
        store.wf(),
    ensures
        r matches Ok(st) ==> {
            &&& !st.is_indexing
            &&& st.total_files == store.rows().dom().len()
            &&& st.database_size == store.database_size_model()
            &&& (st.last_indexed matches Some(s) ==> exists|p: Seq<char>|
                store.rows().dom().contains(p) && #[trigger] store.rows()[p].last_indexed == s@)
            &&& (st.last_indexed is None ==> store.rows().dom() =~= Set::<Seq<char>>::empty())
        },
{
    let total_files = store.get_file_count()?;
    let database_size = store.get_database_size()?;
    let last_indexed = store.get_last_indexed_time()?;
    Ok(IndexingStatus { is_indexing: false, last_indexed, total_files, database_size })
}

} // verus!
