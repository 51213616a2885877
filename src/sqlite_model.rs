//! The index model kept in an SQLite database, one row per document, field,
//! term occurrence count and document frequency.
use vstd::prelude::*;
use vstd::string::*;
use crate::model::{Doc, DocHits, FieldHit, FieldTotal, SearchInput, TermHit};
use crate::statements::{
    count_documents, count_terms, distinct_terms, document_rows, field_totals_query, hits_sql_head,
    insert_document, lookup_doc_freq, lookup_id, lookup_time, removal_plan, schema, store_doc_freq,
    text_is, SqlValue, Stmt,
};
use crate::lexer::{lex, lemma_tokens_ignore_case, tokenize, upper_seq};
use crate::ranking::same_text;

verus! {

#[verifier::external_type_specification]
#[verifier::external_body]
pub struct ExConnection(sqlite::Connection);

#[verifier::external_type_specification]
#[verifier::external_body]
pub struct ExStatement<'l>(sqlite::Statement<'l>);

#[verifier::external_type_specification]
#[verifier::external_body]
pub struct ExError(sqlite::Error);

/// Relies on `sqlite::Connection::open`: opens or creates the database file at `path`.
#[verifier::external_body]
fn open_connection(path: &str) -> (r: Result<sqlite::Connection, sqlite::Error>) {
    sqlite::Connection::open(path)
}

/// Relies on `sqlite::Connection::execute`: runs `sql`, ignoring any rows.
#[verifier::external_body]
fn execute_sql(connection: &sqlite::Connection, sql: &str) -> (r: Result<(), sqlite::Error>) {
    connection.execute(sql)
}

/// Whether `sql` holds no `*`, so that every result column is named by the
/// statement itself rather than by the database's schema.
pub open spec fn no_star(sql: Seq<char>) -> bool {
    forall|i: int| 0 <= i < sql.len() ==> sql[i] != '*'
}

/// Relies on `sqlite::Connection::prepare`: compiles `sql` into a statement. The
/// crate reads the names of the result columns as UTF-8 and panics where one is
/// not; a statement without `*` names its columns itself.
#[verifier::external_body]
fn prepare_sql<'a>(connection: &'a sqlite::Connection, sql: &str) -> (r: Result<
    sqlite::Statement<'a>,
    sqlite::Error,
>)
    requires
        no_star(sql@),
{
    connection.prepare(sql)
}

/// Relies on `sqlite::Statement::bind`, with a 1-based parameter index and a text value.
#[verifier::external_body]
fn bind_text(statement: &mut sqlite::Statement, index: usize, value: &str) -> (r: Result<
    (),
    sqlite::Error,
>) {
    statement.bind((index, value))
}

/// Relies on `sqlite::Statement::bind`, with a 1-based parameter index and an integer value.
#[verifier::external_body]
fn bind_integer(statement: &mut sqlite::Statement, index: usize, value: i64) -> (r: Result<
    (),
    sqlite::Error,
>) {
    statement.bind((index, value))
}

/// Relies on `sqlite::Statement::next`: `true` where a row is ready, `false`
/// where the statement has run to its end.
#[verifier::external_body]
fn step(statement: &mut sqlite::Statement) -> (r: Result<bool, sqlite::Error>) {
    match statement.next() {
        Ok(sqlite::State::Row) => Ok(true),
        Ok(sqlite::State::Done) => Ok(false),
        Err(e) => Err(e),
    }
}

/// Relies on `sqlite::Statement::read`, for an integer in the named column of the current row.
#[verifier::external_body]
fn read_integer(statement: &sqlite::Statement, column: &str) -> (r: Result<i64, sqlite::Error>) {
    statement.read::<i64, &str>(column)
}

/// Relies on `sqlite::Statement::read`, for text in the named column of the current row.
#[verifier::external_body]
fn read_text(statement: &sqlite::Statement, column: &str) -> (r: Result<String, sqlite::Error>) {
    statement.read::<String, &str>(column)
}

/// Why an operation on the database-backed model failed.
#[derive(Debug, PartialEq, Eq, Structural)]
pub enum ModelError {
    /// The database refused a statement.
    Storage,
    /// A time does not fit the database's signed 64-bit integers.
    TimeOutOfRange,
    /// The database holds a count that is negative or too large.
    BadCount,
}

fn storage<T>(r: Result<T, sqlite::Error>) -> (o: Result<T, ModelError>)
    ensures
        match r {
            Ok(v) => o == Ok::<T, ModelError>(v),
            Err(_) => o == Err::<T, ModelError>(ModelError::Storage),
        },
{
    match r {
        Ok(v) => Ok(v),
        Err(_) => Err(ModelError::Storage),
    }
}

/// A count read from the database, where it is one.
pub fn count_from(v: i64) -> (r: Result<usize, ModelError>)
    ensures
        0 <= v <= usize::MAX ==> r == Ok::<usize, ModelError>(v as usize),
        !(0 <= v <= usize::MAX) ==> r == Err::<usize, ModelError>(ModelError::BadCount),
{
    if v < 0 || v as u64 > usize::MAX as u64 {
        Err(ModelError::BadCount)
    } else {
        Ok(v as usize)
    }
}

/// A time in seconds since the epoch, as the database stores it.
pub fn time_to_sql(t: u64) -> (r: Result<i64, ModelError>)
    ensures
        t <= i64::MAX ==> r == Ok::<i64, ModelError>(t as i64),
        t > i64::MAX ==> r == Err::<i64, ModelError>(ModelError::TimeOutOfRange),
{
    if t > i64::MAX as u64 {
        Err(ModelError::TimeOutOfRange)
    } else {
        Ok(t as i64)
    }
}

/// Whether a document must be indexed again, given the time stored for it
/// (`None` where it is not indexed) and the time of the file now.
pub fn reindex_needed(stored: Option<i64>, last_modified: i64) -> (r: bool)
    ensures
        r == match stored {
            Some(s) => s < last_modified,
            None => true,
        },
{
    match stored {
        Some(s) => s < last_modified,
        None => true,
    }
}

/// `count` parameter markers `?` separated by commas.
pub open spec fn markers(count: nat) -> Seq<char>
    decreases count,
{
    if count == 0 {
        seq![]
    } else if count == 1 {
        seq!['?']
    } else {
        markers((count - 1) as nat) + seq![',', ' ', '?']
    }
}

/// The list of `count` parameter markers for an SQL `IN (...)` clause.
pub fn placeholders(count: usize) -> (r: String)
    ensures
        r@ == markers(count as nat),
{
    proof {
        reveal_strlit("");
    }
    let mut s = String::from_str("");
    let mut i: usize = 0;
    while i < count
        invariant
            i <= count,
            s@ == markers(i as nat),
        decreases count - i,
    {
        proof {
            reveal_strlit("?");
            reveal_strlit(", ?");
        }
        if i == 0 {
            s.append("?");
            assert(s@ =~= markers(1));
        } else {
            s.append(", ?");
            assert(s@ =~= markers((i + 1) as nat));
        }
        i = i + 1;
    }
    s
}

/// Whether `e` is an error that the database's answers cause.
pub open spec fn is_db_error(e: ModelError) -> bool {
    e == ModelError::Storage || e == ModelError::BadCount
}

/// Whether `sql` holds no `*`.
pub fn has_no_star(sql: &str) -> (r: bool)
    ensures
        r == no_star(sql@),
{
    let n = sql.unicode_len();
    let mut i: usize = 0;
    while i < n
        invariant
            n == sql@.len(),
            i <= n,
            forall|j: int| 0 <= j < i ==> sql@[j] != '*',
        decreases n - i,
    {
        if sql.get_char(i) == '*' {
            return false;
        }
        i = i + 1;
    }
    true
}

/// The document frequency to store for a term that gains a document, given the
/// stored one (`None` where the term has none).
pub fn next_doc_freq(current: Option<i64>) -> (r: Result<i64, ModelError>)
    ensures
        r == match current {
            None => Ok::<i64, ModelError>(1),
            Some(c) => if 0 <= c < i64::MAX {
                Ok::<i64, ModelError>((c + 1) as i64)
            } else {
                Err::<i64, ModelError>(ModelError::BadCount)
            },
        },
{
    match current {
        None => Ok(1),
        Some(c) => if 0 <= c && c < i64::MAX {
            Ok(c + 1)
        } else {
            Err(ModelError::BadCount)
        },
    }
}

/// The counts of documents and of terms, from the answers of the two count
/// queries (`None` where a query gave no row, which counts as none).
pub fn stats_from(docs: Option<i64>, terms: Option<i64>) -> (r: Result<(usize, usize), ModelError>)
    ensures
        ({
            let dc: int = match docs { Some(n) => n as int, None => 0 };
            let tc: int = match terms { Some(n) => n as int, None => 0 };
            r == if 0 <= dc <= usize::MAX && 0 <= tc <= usize::MAX {
                Ok::<(usize, usize), ModelError>((dc as usize, tc as usize))
            } else {
                Err::<(usize, usize), ModelError>(ModelError::BadCount)
            }
        }),
{
    let d = match docs {
        Some(n) => count_from(n)?,
        None => 0,
    };
    let t = match terms {
        Some(n) => count_from(n)?,
        None => 0,
    };
    Ok((d, t))
}

/// An index held in an SQLite database.
pub struct SqliteModel {
    pub connection: sqlite::Connection,
}

impl SqliteModel {
    fn execute(&self, statement: &str) -> (r: Result<(), ModelError>)
        ensures
            r is Err ==> r == Err::<(), ModelError>(ModelError::Storage),
    {
        storage(execute_sql(&self.connection, statement))
    }

    pub fn begin(&self) -> (r: Result<(), ModelError>)
        ensures
            r is Err ==> r == Err::<(), ModelError>(ModelError::Storage),
    {
        self.execute("BEGIN;")
    }

    pub fn commit(&self) -> (r: Result<(), ModelError>)
        ensures
            r is Err ==> r == Err::<(), ModelError>(ModelError::Storage),
    {
        self.execute("COMMIT;")
    }

    fn rollback(&self) {
        let _ = self.execute("ROLLBACK;");
    }

    /// Opens the database at `path` and runs the statements of `schema`, which
    /// create the tables that are missing; only the database can refuse.
    pub fn open(path: &str) -> (r: Result<Self, ModelError>)
        ensures
            r is Err ==> r matches Err(ModelError::Storage),
    {
        let connection = storage(open_connection(path))?;
        let this = SqliteModel { connection };
        let tables = schema();
        let mut i: usize = 0;
        while i < tables.len()
            invariant
                i <= tables@.len(),
            decreases tables@.len() - i,
        {
            this.execute(tables[i].as_str())?;
            i = i + 1;
        }
        Ok(this)
    }

    /// Prepares `s.sql` and binds `s.params` to its parameters in order.
    fn prepare<'a>(&'a self, s: &Stmt) -> (r: Result<sqlite::Statement<'a>, ModelError>)
        ensures
            r is Err ==> r matches Err(ModelError::Storage),
    {
        if !has_no_star(s.sql.as_str()) {
            return Err(ModelError::Storage);
        }
        let mut stmt = storage(prepare_sql(&self.connection, s.sql.as_str()))?;
        let mut i: usize = 0;
        while i < s.params.len()
            invariant
                i <= s.params@.len(),
            decreases s.params@.len() - i,
        {
            match &s.params[i] {
                SqlValue::Text(t) => storage(bind_text(&mut stmt, i + 1, t.as_str()))?,
                SqlValue::Integer(v) => storage(bind_integer(&mut stmt, i + 1, *v))?,
            }
            i = i + 1;
        }
        Ok(stmt)
    }

    /// Runs `s` once.
    fn run(&self, s: &Stmt) -> (r: Result<(), ModelError>)
        ensures
            r is Err ==> r matches Err(ModelError::Storage),
    {
        let mut stmt = self.prepare(s)?;
        storage(step(&mut stmt))?;
        Ok(())
    }

    /// Runs the statements of `plan` in order, up to the first that fails.
    fn run_all(&self, plan: &Vec<Stmt>) -> (r: Result<(), ModelError>)
        ensures
            r is Err ==> r matches Err(ModelError::Storage),
    {
        let mut i: usize = 0;
        while i < plan.len()
            invariant
                i <= plan@.len(),
            decreases plan@.len() - i,
        {
            self.run(&plan[i])?;
            i = i + 1;
        }
        Ok(())
    }

    /// The integer in `column` of the first row of `s`, or `None` where it has no row.
    fn query_integer(&self, s: &Stmt, column: &str) -> (r: Result<Option<i64>, ModelError>)
        ensures
            r is Err ==> r matches Err(ModelError::Storage),
    {
        let mut stmt = self.prepare(s)?;
        if storage(step(&mut stmt))? {
            Ok(Some(storage(read_integer(&stmt, column))?))
        } else {
            Ok(None)
        }
    }

    /// The text in `column` of every row of `s`.
    fn query_texts(&self, s: &Stmt, column: &str) -> (r: Result<Vec<String>, ModelError>)
        ensures
            r is Err ==> r matches Err(ModelError::Storage),
    {
        let mut stmt = self.prepare(s)?;
        let mut out: Vec<String> = Vec::new();
        // A vector cannot hold more than `usize::MAX` items, which bounds the loop.
        while out.len() < usize::MAX
            decreases usize::MAX - out@.len(),
        {
            if !storage(step(&mut stmt))? {
                break;
            }
            out.push(storage(read_text(&stmt, column))?);
        }
        Ok(out)
    }

    /// Whether the document at `path` must be indexed again: it is not in the
    /// database, or its stored time is earlier than `last_modified`
    /// (`reindex_needed` on the stored time that `lookup_time` reads).
    pub fn requires_reindexing(&self, path: &String, last_modified: u64) -> (r: Result<bool, ModelError>)
        ensures
            (r == Err::<bool, ModelError>(ModelError::TimeOutOfRange)) == (last_modified > i64::MAX),
            last_modified <= i64::MAX && r is Err ==> r matches Err(ModelError::Storage),
    {
        let new_ts = time_to_sql(last_modified)?;
        let stored = self.query_integer(&lookup_time(path), "last_modified")?;
        Ok(reindex_needed(stored, new_ts))
    }

    /// The number of documents, and the number of terms with a stored document
    /// frequency: `stats_from` on the answers of `count_documents` and `count_terms`.
    pub fn stats(&self) -> (r: Result<(usize, usize), ModelError>)
        ensures
            r matches Err(e) ==> is_db_error(e),
    {
        let docs = self.query_integer(&count_documents(), "count")?;
        let terms = self.query_integer(&count_terms(), "count")?;
        stats_from(docs, terms)
    }

    /// Deletes the document at `path`: nothing happens where `lookup_id` finds
    /// no row; else the statements of `removal_plan` run on its id and on the
    /// distinct terms that `distinct_terms` reads. Only the database can refuse.
    pub fn remove_document(&mut self, path: &String) -> (r: Result<(), ModelError>)
        ensures
            r is Err ==> r matches Err(ModelError::Storage),
    {
        let doc_id = match self.query_integer(&lookup_id(path), "id")? {
            Some(id) => id,
            None => return Ok(()),
        };
        let terms = self.query_texts(&distinct_terms(doc_id), "term")?;
        let plan = removal_plan(doc_id, &terms);
        self.run_all(&plan)
    }

    /// Writes `doc` at `path`: removes any document there, inserts its row
    /// (`insert_document`), then the rows of `document_rows` on the new id, then
    /// for each distinct term of `doc` the frequency of `next_doc_freq` on the
    /// stored one (`store_doc_freq`).
    fn write_document(&mut self, path: String, last_modified: i64, doc: &Doc) -> (r: Result<(), ModelError>)
        requires
            doc.wf(),
        ensures
            r matches Err(e) ==> is_db_error(e),
    {
        self.remove_document(&path)?;
        self.run(&insert_document(&path, last_modified))?;
        let doc_id = match self.query_integer(&lookup_id(&path), "id")? {
            Some(id) => id,
            None => return Err(ModelError::Storage),
        };
        let rows = document_rows(doc_id, doc);
        let mut j: usize = 0;
        while j < rows.len()
            invariant
                j <= rows@.len(),
            decreases rows@.len() - j,
        {
            self.run(&rows[j].field)?;
            self.run_all(&rows[j].terms)?;
            j = j + 1;
        }
        let terms = doc.terms();
        let t = terms.len();
        let mut i: usize = 0;
        while i < t
            invariant
                terms.wf(),
                t == terms.size(),
                i <= t,
            decreases t - i,
        {
            let term = terms.key(i);
            let current = self.query_integer(&lookup_doc_freq(term), "freq")?;
            let next = next_doc_freq(current)?;
            self.run(&store_doc_freq(term, next))?;
            i = i + 1;
        }
        Ok(())
    }

    /// Stores the document at `path` with the fields made of `fields`' `(name,
    /// text)` pairs, in place of any document stored there before, in one
    /// transaction (`write_document`); where a step or the commit fails, the
    /// transaction is rolled back. A time beyond the database's integers is
    /// refused before anything is written.
    pub fn add_document(&mut self, path: String, last_modified: u64, fields: Vec<(String, Vec<char>)>) -> (r: Result<(), ModelError>)
        ensures
            (r == Err::<(), ModelError>(ModelError::TimeOutOfRange)) == (last_modified > i64::MAX),
            last_modified <= i64::MAX ==> (r matches Err(e) ==> is_db_error(e)),
    {
        let ts = time_to_sql(last_modified)?;
        let doc = Doc::build(&fields, last_modified);
        self.begin()?;
        match self.write_document(path, ts, &doc) {
            Ok(()) => match self.commit() {
                Ok(()) => Ok(()),
                Err(e) => {
                    self.rollback();
                    Err(e)
                },
            },
            Err(e) => {
                self.rollback();
                Err(e)
            },
        }
    }
}

/// One row of the search join: a field of a document in which a query term occurs.
pub struct HitRow {
    pub path: String,
    pub field: String,
    pub term: String,
    pub field_len: usize,
    pub tf: usize,
    pub df: usize,
}

/// A field hit as a plain value: the field's name, the term's count in it, its length.
pub open spec fn hit_view(h: FieldHit) -> (Seq<char>, usize, usize) {
    (h.field@, h.tf, h.len)
}

/// The field hits, in row order, of the rows for document `path` and term `term`.
pub open spec fn fields_for(rows: Seq<HitRow>, path: Seq<char>, term: Seq<char>) -> Seq<(Seq<char>, usize, usize)>
    decreases rows.len(),
{
    if rows.len() == 0 {
        seq![]
    } else {
        let r = rows.last();
        let rest = fields_for(rows.drop_last(), path, term);
        if r.path@ == path && r.term@ == term {
            rest.push((r.field@, r.tf, r.field_len))
        } else {
            rest
        }
    }
}

/// The document frequency of the last row for document `path` and term `term`;
/// zero where there is none.
pub open spec fn df_for(rows: Seq<HitRow>, path: Seq<char>, term: Seq<char>) -> usize
    decreases rows.len(),
{
    if rows.len() == 0 {
        0
    } else {
        let r = rows.last();
        if r.path@ == path && r.term@ == term {
            r.df
        } else {
            df_for(rows.drop_last(), path, term)
        }
    }
}

proof fn lemma_no_rows_for(rows: Seq<HitRow>, path: Seq<char>, term: Seq<char>)
    requires
        forall|j: int| 0 <= j < rows.len() ==> (#[trigger] rows[j]).path@ != path,
    ensures
        fields_for(rows, path, term) == Seq::<(Seq<char>, usize, usize)>::empty(),
        df_for(rows, path, term) == 0,
    decreases rows.len(),
{
    if rows.len() > 0 {
        lemma_no_rows_for(rows.drop_last(), path, term);
    }
}

/// The rows gathered by document, in the order in which documents first appear:
/// for each document, one entry per query term, holding that term's field hits
/// in row order.
pub fn group_hits(terms: &Vec<String>, rows: &Vec<HitRow>) -> (r: Vec<DocHits>)
    ensures
        forall|i: int, l: int| 0 <= i < l < r@.len() ==> (#[trigger] r@[i]).path@ != (#[trigger] r@[l]).path@,
        r@.map_values(|d: DocHits| d.path@).to_set() == rows@.map_values(|w: HitRow| w.path@).to_set(),
        forall|i: int| 0 <= i < r@.len() ==> (#[trigger] r@[i]).terms@.len() == terms@.len(),
        forall|i: int, k: int| 0 <= i < r@.len() && 0 <= k < terms@.len() ==> {
            let th = (#[trigger] r@[i]).terms@[k];
            &&& th.term@ == (#[trigger] terms@[k])@
            &&& th.fields@.map_values(|h: FieldHit| hit_view(h)) == fields_for(rows@, r@[i].path@, terms@[k]@)
            &&& th.df == df_for(rows@, r@[i].path@, terms@[k]@)
        },
{
    let mut out: Vec<DocHits> = Vec::new();
    let mut index: crate::table::Table<usize> = crate::table::Table::new();
    let mut j: usize = 0;
    while j < rows.len()
        invariant
            j <= rows@.len(),
            index.wf(),
            forall|p: Seq<char>| #[trigger] index@.contains_key(p) ==> index@[p] < out@.len() && out@[index@[p] as int].path@ == p,
            forall|i: int| 0 <= i < out@.len() ==> index@.contains_key((#[trigger] out@[i]).path@) && index@[out@[i].path@] == i,
            forall|p: Seq<char>| #[trigger] index@.contains_key(p) <==> exists|q: int| 0 <= q < j && (#[trigger] rows@[q]).path@ == p,
            forall|i: int| 0 <= i < out@.len() ==> (#[trigger] out@[i]).terms@.len() == terms@.len(),
            forall|i: int, k: int| 0 <= i < out@.len() && 0 <= k < terms@.len() ==> {
                let th = (#[trigger] out@[i]).terms@[k];
                &&& th.term@ == (#[trigger] terms@[k])@
                &&& th.fields@.map_values(|h: FieldHit| hit_view(h)) == fields_for(rows@.take(j as int), out@[i].path@, terms@[k]@)
                &&& th.df == df_for(rows@.take(j as int), out@[i].path@, terms@[k]@)
            },
        decreases rows@.len() - j,
    {
        let row = &rows[j];
        let ghost before = rows@.take(j as int);
        let ghost after = rows@.take(j + 1);
        assert(after.drop_last() =~= before);
        assert(after.last() == *row);
        let idx: usize = match index.get(&row.path) {
            Some(i) => *i,
            None => {
                let mut hits: Vec<TermHit> = Vec::new();
                let mut k: usize = 0;
                while k < terms.len()
                    invariant
                        k <= terms@.len(),
                        hits@.len() == k,
                        forall|q: int| 0 <= q < k ==> {
                            let th = #[trigger] hits@[q];
                            &&& th.term@ == terms@[q]@
                            &&& th.fields@.len() == 0
                            &&& th.df == 0
                        },
                    decreases terms@.len() - k,
                {
                    hits.push(TermHit { term: terms[k].clone(), df: 0, fields: Vec::new() });
                    k = k + 1;
                }
                proof {
                    assert forall|q: int| 0 <= q < before.len() implies (#[trigger] before[q]).path@ != row.path@ by {
                        if before[q].path@ == row.path@ {
                            assert(rows@[q].path@ == row.path@);
                        }
                    }
                    assert forall|k: int| 0 <= k < terms@.len() implies
                        fields_for(before, row.path@, terms@[k]@) == Seq::<(Seq<char>, usize, usize)>::empty()
                        && df_for(before, row.path@, #[trigger] terms@[k]@) == 0 by {
                        lemma_no_rows_for(before, row.path@, terms@[k]@);
                    }
                }
                let n = out.len();
                out.push(DocHits { path: row.path.clone(), terms: hits });
                index.insert(row.path.clone(), n);
                proof {
                    assert forall|i: int, k: int| 0 <= i < out@.len() && 0 <= k < terms@.len() implies {
                        let th = (#[trigger] out@[i]).terms@[k];
                        &&& th.term@ == (#[trigger] terms@[k])@
                        &&& th.fields@.map_values(|h: FieldHit| hit_view(h)) == fields_for(before, out@[i].path@, terms@[k]@)
                        &&& th.df == df_for(before, out@[i].path@, terms@[k]@)
                    } by {
                        if i == n {
                            assert(out@[i].terms@[k].fields@.map_values(|h: FieldHit| hit_view(h)) =~= Seq::<(Seq<char>, usize, usize)>::empty());
                        }
                    }
                }
                n
            },
        };
        let ghost mid = out@;
        let mut k: usize = 0;
        while k < terms.len()
            invariant
                j < rows@.len(),
                *row == rows@[j as int],
                before == rows@.take(j as int),
                after == rows@.take(j + 1),
                after.drop_last() == before,
                after.last() == *row,
                k <= terms@.len(),
                idx < out@.len(),
                out@.len() == mid.len(),
                out@[idx as int].path@ == row.path@,
                forall|i: int| 0 <= i < out@.len() ==> (#[trigger] out@[i]).path@ == mid[i].path@,
                forall|i: int| 0 <= i < out@.len() ==> (#[trigger] out@[i]).terms@.len() == terms@.len(),
                forall|i: int, q: int| 0 <= i < out@.len() && 0 <= q < terms@.len() ==> {
                    let th = (#[trigger] out@[i]).terms@[q];
                    let upto = if i == idx && q < k { after } else { before };
                    &&& th.term@ == (#[trigger] terms@[q])@
                    &&& th.fields@.map_values(|h: FieldHit| hit_view(h)) == fields_for(upto, out@[i].path@, terms@[q]@)
                    &&& th.df == df_for(upto, out@[i].path@, terms@[q]@)
                },
            decreases terms@.len() - k,
        {
            if same_text(terms[k].as_str(), row.term.as_str()) {
                let ghost old_fields = out@[idx as int].terms@[k as int].fields@;
                let d: &mut DocHits = &mut out[idx];
                let th: &mut TermHit = &mut d.terms[k];
                th.fields.push(FieldHit { field: row.field.clone(), tf: row.tf, len: row.field_len });
                th.df = row.df;
                proof {
                    assert(out@[idx as int].terms@[k as int].fields@ == old_fields.push(
                        FieldHit { field: row.field, tf: row.tf, len: row.field_len },
                    ));
                    assert(out@[idx as int].terms@[k as int].fields@.map_values(|h: FieldHit| hit_view(h))
                        =~= old_fields.map_values(|h: FieldHit| hit_view(h)).push((row.field@, row.tf, row.field_len)));
                }
            }
            k = k + 1;
        }
        proof {
            assert forall|i: int, q: int| 0 <= i < out@.len() && 0 <= q < terms@.len() implies {
                let th = (#[trigger] out@[i]).terms@[q];
                &&& th.term@ == (#[trigger] terms@[q])@
                &&& th.fields@.map_values(|h: FieldHit| hit_view(h)) == fields_for(after, out@[i].path@, terms@[q]@)
                &&& th.df == df_for(after, out@[i].path@, terms@[q]@)
            } by {
                if i != idx {
                    assert(out@[i].path@ != row.path@) by {
                        assert(index@[out@[i].path@] == i);
                    }
                }
            }
        }
        j = j + 1;
    }
    proof {
        assert(rows@.take(j as int) =~= rows@);
        assert forall|i: int, l: int| 0 <= i < l < out@.len() implies (#[trigger] out@[i]).path@ != (#[trigger] out@[l]).path@ by {
            assert(index@[out@[i].path@] == i);
            assert(index@[out@[l].path@] == l);
        }
        let outs = out@.map_values(|d: DocHits| d.path@);
        let ins = rows@.map_values(|w: HitRow| w.path@);
        assert forall|p: Seq<char>| #[trigger] ins.to_set().contains(p) implies outs.to_set().contains(p) by {
            let q = choose|q: int| 0 <= q < ins.len() && ins[q] == p;
            assert(rows@[q].path@ == p);
            assert(index@.contains_key(p));
            let w = index@[p] as int;
            assert(outs[w] == p);
        }
        assert forall|p: Seq<char>| #[trigger] outs.to_set().contains(p) implies ins.to_set().contains(p) by {
            let w = choose|w: int| 0 <= w < outs.len() && outs[w] == p;
            assert(out@[w].path@ == p);
            assert(index@.contains_key(p));
            let q = choose|q: int| 0 <= q < j && (#[trigger] rows@[q]).path@ == p;
            assert(ins[q] == p);
        }
        assert(outs.to_set() =~= ins.to_set());
    }
    out
}


/// A field's total, from one row of `field_totals_query`.
pub fn total_from(field: String, total: i64, docs: i64) -> (r: Result<FieldTotal, ModelError>)
    ensures
        (0 <= total && 0 <= docs <= usize::MAX) ==> (r matches Ok(t) && t.field == field
            && t.total == total as u128 && t.docs == docs as usize),
        !(0 <= total && 0 <= docs <= usize::MAX) ==> r == Err::<FieldTotal, ModelError>(ModelError::BadCount),
{
    let docs = count_from(docs)?;
    if total < 0 {
        return Err(ModelError::BadCount);
    }
    Ok(FieldTotal { field, total: total as u128, docs })
}

/// A row of the search join, from the values of one result row.
pub fn hit_row_from(path: String, field: String, term: String, field_len: i64, tf: i64, df: i64) -> (r: Result<HitRow, ModelError>)
    ensures
        (0 <= field_len <= usize::MAX && 0 <= tf <= usize::MAX && 0 <= df <= usize::MAX) ==> (r matches Ok(h)
            && h.path == path && h.field == field && h.term == term && h.field_len == field_len as usize
            && h.tf == tf as usize && h.df == df as usize),
        !(0 <= field_len <= usize::MAX && 0 <= tf <= usize::MAX && 0 <= df <= usize::MAX) ==> r
            == Err::<HitRow, ModelError>(ModelError::BadCount),
{
    let field_len = count_from(field_len)?;
    let tf = count_from(tf)?;
    let df = count_from(df)?;
    Ok(HitRow { path, field, term, field_len, tf, df })
}

/// The search join for `terms`: its text ends in one parameter marker per term,
/// and the terms are bound to them in order.
pub fn hit_query(terms: &Vec<String>) -> (r: Stmt)
    ensures
        r.sql@ == hits_sql_head() + markers(terms@.len()) + ")"@,
        r.params@.len() == terms@.len(),
        forall|k: int| 0 <= k < terms@.len() ==> text_is(#[trigger] r.params@[k], terms@[k]@),
{
    let sql = String::from_str(
        "SELECT Documents.path AS path, DocumentField.field AS field, DocumentField.field_term_count AS field_length, TermFreq.freq AS tf, DocFreq.freq AS df, TermFreq.term AS term FROM TermFreq JOIN Documents ON Documents.id = TermFreq.doc_id JOIN DocFreq ON TermFreq.term = DocFreq.term JOIN DocumentField ON DocumentField.doc_id = Documents.id AND DocumentField.field = TermFreq.field WHERE TermFreq.term IN (",
    ).concat(placeholders(terms.len()).as_str()).concat(")");
    let mut params: Vec<SqlValue> = Vec::new();
    let mut k: usize = 0;
    while k < terms.len()
        invariant
            k <= terms@.len(),
            params@.len() == k,
            forall|q: int| 0 <= q < k ==> text_is(#[trigger] params@[q], terms@[q]@),
        decreases terms@.len() - k,
    {
        params.push(SqlValue::Text(terms[k].clone()));
        k = k + 1;
    }
    Stmt { sql, params }
}

impl SqliteModel {
    /// The per-field totals: `total_from` on each row of `field_totals_query`.
    fn field_totals(&self) -> (r: Result<Vec<FieldTotal>, ModelError>)
        ensures
            r matches Err(e) ==> is_db_error(e),
    {
        let mut out: Vec<FieldTotal> = Vec::new();
        let mut stmt = self.prepare(&field_totals_query())?;
        while out.len() < usize::MAX
            decreases usize::MAX - out@.len(),
        {
            if !storage(step(&mut stmt))? {
                break;
            }
            let field = storage(read_text(&stmt, "field"))?;
            let total = storage(read_integer(&stmt, "total"))?;
            let docs = storage(read_integer(&stmt, "docs"))?;
            out.push(total_from(field, total, docs)?);
        }
        Ok(out)
    }

    /// The rows of the search join `hit_query(terms)`, each through `hit_row_from`.
    fn hit_rows(&self, terms: &Vec<String>) -> (r: Result<Vec<HitRow>, ModelError>)
        ensures
            r matches Err(e) ==> is_db_error(e),
    {
        let mut stmt = self.prepare(&hit_query(terms))?;
        let mut rows: Vec<HitRow> = Vec::new();
        while rows.len() < usize::MAX
            decreases usize::MAX - rows@.len(),
        {
            if !storage(step(&mut stmt))? {
                break;
            }
            let path = storage(read_text(&stmt, "path"))?;
            let field = storage(read_text(&stmt, "field"))?;
            let field_len = storage(read_integer(&stmt, "field_length"))?;
            let tf = storage(read_integer(&stmt, "tf"))?;
            let df = storage(read_integer(&stmt, "df"))?;
            let term = storage(read_text(&stmt, "term"))?;
            rows.push(hit_row_from(path, field, term, field_len, tf, df)?);
        }
        Ok(rows)
    }

    /// Whether `input` answers `query`: no documents for a query without terms,
    /// else per document one entry per query term, in order.
    pub open spec fn answers(&self, query: Seq<char>, input: SearchInput) -> bool {
        &&& lex(query).len() == 0 ==> input.docs@.len() == 0
        &&& forall|i: int| 0 <= i < input.docs@.len() ==> (#[trigger] input.docs@[i]).terms@.len() == lex(query).len()
        &&& forall|i: int, k: int| 0 <= i < input.docs@.len() && 0 <= k < lex(query).len()
            ==> #[trigger] input.docs@[i].terms@[k].term@ == lex(query)[k]
    }

    /// Everything a ranking against `query` needs. A query without terms reads
    /// nothing and gives an empty input. Else: the count of `count_documents`,
    /// the totals of `field_totals`, and the rows of `hit_rows` gathered by
    /// `group_hits`.
    pub fn search_input(&self, query: &[char]) -> (r: Result<SearchInput, ModelError>)
        ensures
            lex(query@).len() == 0 ==> (r matches Ok(input) && input.doc_count == 0
                && input.totals@.len() == 0 && input.docs@.len() == 0),
            r matches Ok(input) ==> self.answers(query@, input),
            r matches Err(e) ==> is_db_error(e),
    {
        let terms = tokenize(query);
        if terms.len() == 0 {
            return Ok(SearchInput { doc_count: 0, totals: Vec::new(), docs: Vec::new() });
        }
        let count = self.query_integer(&count_documents(), "count")?;
        let doc_count = match count {
            Some(n) => count_from(n)?,
            None => 0,
        };
        let totals = self.field_totals()?;
        let rows = self.hit_rows(&terms)?;
        let docs = group_hits(&terms, &rows);
        proof {
            assert forall|k: int| 0 <= k < terms@.len() implies #[trigger] terms@[k]@ == lex(query@)[k] by {
                assert(terms@.map_values(|t: String| t@)[k] == terms@[k]@);
            }
        }
        Ok(SearchInput { doc_count, totals, docs })
    }
}


/// A query and its ASCII upper-casing are answered alike by the database-backed model.
pub proof fn lemma_sqlite_search_ignores_case(m: &SqliteModel, query: Seq<char>, input: SearchInput)
    ensures
        m.answers(upper_seq(query), input) == m.answers(query, input),
{
    lemma_tokens_ignore_case(query);
}

} // verus!
