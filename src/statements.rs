//! The SQL statements of the database-backed model, with the values bound to
//! their parameters: each builder states exactly what it hands to SQLite.
use vstd::prelude::*;
use vstd::string::*;
use crate::model::{Doc, FieldData};

verus! {

/// A value bound to a statement parameter.
pub enum SqlValue {
    Text(String),
    Integer(i64),
}

/// A statement and the values of its parameters, in order.
pub struct Stmt {
    pub sql: String,
    pub params: Vec<SqlValue>,
}

/// Whether `v` is the text `s`.
pub open spec fn text_is(v: SqlValue, s: Seq<char>) -> bool {
    match v {
        SqlValue::Text(t) => t@ == s,
        SqlValue::Integer(_) => false,
    }
}

/// Whether `v` is the integer `n`.
pub open spec fn int_is(v: SqlValue, n: i64) -> bool {
    match v {
        SqlValue::Integer(m) => m == n,
        SqlValue::Text(_) => false,
    }
}

/// Whether `s` has the text `sql` and the single text parameter `a`.
pub open spec fn with_text(s: Stmt, sql: Seq<char>, a: Seq<char>) -> bool {
    s.sql@ == sql && s.params@.len() == 1 && text_is(s.params@[0], a)
}

/// Whether `s` has the text `sql` and the single integer parameter `n`.
pub open spec fn with_int(s: Stmt, sql: Seq<char>, n: i64) -> bool {
    s.sql@ == sql && s.params@.len() == 1 && int_is(s.params@[0], n)
}

pub open spec fn create_documents_sql() -> Seq<char> {
    "CREATE TABLE IF NOT EXISTS Documents (id INTEGER NOT NULL PRIMARY KEY, path TEXT, last_modified INTEGER, UNIQUE(path));"@
}

pub open spec fn create_term_freq_sql() -> Seq<char> {
    "CREATE TABLE IF NOT EXISTS TermFreq (term TEXT, doc_id INTEGER, field TEXT, freq INTEGER, UNIQUE(term, doc_id, field), FOREIGN KEY(doc_id) REFERENCES Documents(id));"@
}

pub open spec fn create_doc_freq_sql() -> Seq<char> {
    "CREATE TABLE IF NOT EXISTS DocFreq (term TEXT, freq INTEGER, UNIQUE(term));"@
}

pub open spec fn create_document_field_sql() -> Seq<char> {
    "CREATE TABLE IF NOT EXISTS DocumentField (doc_id INTEGER, field TEXT, field_term_count INTEGER, UNIQUE(doc_id, field), FOREIGN KEY(doc_id) REFERENCES Documents(id));"@
}

pub open spec fn select_id_sql() -> Seq<char> {
    "SELECT id FROM Documents WHERE path = ?"@
}

pub open spec fn select_time_sql() -> Seq<char> {
    "SELECT last_modified FROM Documents WHERE path = ?"@
}

pub open spec fn count_docs_sql() -> Seq<char> {
    "SELECT COUNT(1) AS count FROM Documents"@
}

pub open spec fn count_terms_sql() -> Seq<char> {
    "SELECT COUNT(1) AS count FROM DocFreq"@
}

pub open spec fn distinct_terms_sql() -> Seq<char> {
    "SELECT DISTINCT term FROM TermFreq WHERE doc_id = ?"@
}

pub open spec fn decrement_sql() -> Seq<char> {
    "UPDATE DocFreq SET freq = MAX(freq - 1, 0) WHERE term = ?"@
}

pub open spec fn delete_term_freq_sql() -> Seq<char> {
    "DELETE FROM TermFreq WHERE doc_id = ?"@
}

pub open spec fn delete_fields_sql() -> Seq<char> {
    "DELETE FROM DocumentField WHERE doc_id = ?"@
}

pub open spec fn delete_document_sql() -> Seq<char> {
    "DELETE FROM Documents WHERE id = ?"@
}

pub open spec fn insert_document_sql() -> Seq<char> {
    "INSERT INTO Documents (path, last_modified) VALUES (?, ?)"@
}

pub open spec fn insert_field_sql() -> Seq<char> {
    "INSERT INTO DocumentField (doc_id, field, field_term_count) VALUES (?, ?, ?)"@
}

pub open spec fn insert_term_sql() -> Seq<char> {
    "INSERT INTO TermFreq (doc_id, term, field, freq) VALUES (?, ?, ?, ?)"@
}

pub open spec fn select_doc_freq_sql() -> Seq<char> {
    "SELECT freq FROM DocFreq WHERE term = ?"@
}

pub open spec fn store_doc_freq_sql() -> Seq<char> {
    "INSERT OR REPLACE INTO DocFreq (term, freq) VALUES (?, ?)"@
}

pub open spec fn field_totals_sql() -> Seq<char> {
    "SELECT field, SUM(field_term_count) AS total, COUNT(1) AS docs FROM DocumentField GROUP BY field"@
}

pub open spec fn hits_sql_head() -> Seq<char> {
    "SELECT Documents.path AS path, DocumentField.field AS field, DocumentField.field_term_count AS field_length, TermFreq.freq AS tf, DocFreq.freq AS df, TermFreq.term AS term FROM TermFreq JOIN Documents ON Documents.id = TermFreq.doc_id JOIN DocFreq ON TermFreq.term = DocFreq.term JOIN DocumentField ON DocumentField.doc_id = Documents.id AND DocumentField.field = TermFreq.field WHERE TermFreq.term IN ("@
}

/// The statements that create the four tables where they are missing.
pub fn schema() -> (r: Vec<String>)
    ensures
        r@.len() == 4,
        r@[0]@ == create_documents_sql(),
        r@[1]@ == create_term_freq_sql(),
        r@[2]@ == create_doc_freq_sql(),
        r@[3]@ == create_document_field_sql(),
{
    let mut r: Vec<String> = Vec::new();
    r.push(String::from_str("CREATE TABLE IF NOT EXISTS Documents (id INTEGER NOT NULL PRIMARY KEY, path TEXT, last_modified INTEGER, UNIQUE(path));"));
    r.push(String::from_str("CREATE TABLE IF NOT EXISTS TermFreq (term TEXT, doc_id INTEGER, field TEXT, freq INTEGER, UNIQUE(term, doc_id, field), FOREIGN KEY(doc_id) REFERENCES Documents(id));"));
    r.push(String::from_str("CREATE TABLE IF NOT EXISTS DocFreq (term TEXT, freq INTEGER, UNIQUE(term));"));
    r.push(String::from_str("CREATE TABLE IF NOT EXISTS DocumentField (doc_id INTEGER, field TEXT, field_term_count INTEGER, UNIQUE(doc_id, field), FOREIGN KEY(doc_id) REFERENCES Documents(id));"));
    r
}

fn text_stmt(sql: &str, a: &String) -> (r: Stmt)
    ensures
        with_text(r, sql@, a@),
{
    let mut params: Vec<SqlValue> = Vec::new();
    params.push(SqlValue::Text(a.clone()));
    Stmt { sql: String::from_str(sql), params }
}

fn int_stmt(sql: &str, n: i64) -> (r: Stmt)
    ensures
        with_int(r, sql@, n),
{
    let mut params: Vec<SqlValue> = Vec::new();
    params.push(SqlValue::Integer(n));
    Stmt { sql: String::from_str(sql), params }
}

fn plain_stmt(sql: &str) -> (r: Stmt)
    ensures
        r.sql@ == sql@,
        r.params@.len() == 0,
{
    Stmt { sql: String::from_str(sql), params: Vec::new() }
}

/// The lookup of the id of the document at `path`.
pub fn lookup_id(path: &String) -> (r: Stmt)
    ensures
        with_text(r, select_id_sql(), path@),
{
    text_stmt("SELECT id FROM Documents WHERE path = ?", path)
}

/// The lookup of the stored time of the document at `path`.
pub fn lookup_time(path: &String) -> (r: Stmt)
    ensures
        with_text(r, select_time_sql(), path@),
{
    text_stmt("SELECT last_modified FROM Documents WHERE path = ?", path)
}

/// The count of documents.
pub fn count_documents() -> (r: Stmt)
    ensures
        r.sql@ == count_docs_sql(),
        r.params@.len() == 0,
{
    plain_stmt("SELECT COUNT(1) AS count FROM Documents")
}

/// The count of terms with a stored document frequency.
pub fn count_terms() -> (r: Stmt)
    ensures
        r.sql@ == count_terms_sql(),
        r.params@.len() == 0,
{
    plain_stmt("SELECT COUNT(1) AS count FROM DocFreq")
}

/// The per-field length sums and document counts.
pub fn field_totals_query() -> (r: Stmt)
    ensures
        r.sql@ == field_totals_sql(),
        r.params@.len() == 0,
{
    plain_stmt("SELECT field, SUM(field_term_count) AS total, COUNT(1) AS docs FROM DocumentField GROUP BY field")
}

/// The distinct terms of the document with id `doc_id`.
pub fn distinct_terms(doc_id: i64) -> (r: Stmt)
    ensures
        with_int(r, distinct_terms_sql(), doc_id),
{
    int_stmt("SELECT DISTINCT term FROM TermFreq WHERE doc_id = ?", doc_id)
}

/// The statements that take the document with id `doc_id`, whose distinct terms
/// are `terms`, out of the database: one decrement, never below zero, of each
/// term's document frequency, then the deletion of its term counts, its fields
/// and its row.
pub fn removal_plan(doc_id: i64, terms: &Vec<String>) -> (r: Vec<Stmt>)
    ensures
        r@.len() == terms@.len() + 3,
        forall|k: int| 0 <= k < terms@.len() ==> with_text(#[trigger] r@[k], decrement_sql(), terms@[k]@),
        with_int(r@[terms@.len() as int], delete_term_freq_sql(), doc_id),
        with_int(r@[terms@.len() + 1int], delete_fields_sql(), doc_id),
        with_int(r@[terms@.len() + 2int], delete_document_sql(), doc_id),
{
    let mut r: Vec<Stmt> = Vec::new();
    let mut k: usize = 0;
    while k < terms.len()
        invariant
            k <= terms@.len(),
            r@.len() == k,
            forall|q: int| 0 <= q < k ==> with_text(#[trigger] r@[q], decrement_sql(), terms@[q]@),
        decreases terms@.len() - k,
    {
        r.push(text_stmt("UPDATE DocFreq SET freq = MAX(freq - 1, 0) WHERE term = ?", &terms[k]));
        k = k + 1;
    }
    r.push(int_stmt("DELETE FROM TermFreq WHERE doc_id = ?", doc_id));
    r.push(int_stmt("DELETE FROM DocumentField WHERE doc_id = ?", doc_id));
    r.push(int_stmt("DELETE FROM Documents WHERE id = ?", doc_id));
    r
}

/// The row of the document at `path`, modified at `last_modified`.
pub fn insert_document(path: &String, last_modified: i64) -> (r: Stmt)
    ensures
        r.sql@ == insert_document_sql(),
        r.params@.len() == 2,
        text_is(r.params@[0], path@),
        int_is(r.params@[1], last_modified),
{
    let mut params: Vec<SqlValue> = Vec::new();
    params.push(SqlValue::Text(path.clone()));
    params.push(SqlValue::Integer(last_modified));
    Stmt { sql: String::from_str("INSERT INTO Documents (path, last_modified) VALUES (?, ?)"), params }
}

/// Whether `s` stores field `name` of document `doc_id` with length `len`.
pub open spec fn is_field_row(s: Stmt, doc_id: i64, name: Seq<char>, len: nat) -> bool {
    &&& s.sql@ == insert_field_sql()
    &&& s.params@.len() == 3
    &&& int_is(s.params@[0], doc_id)
    &&& text_is(s.params@[1], name)
    &&& int_is(s.params@[2], len as i64)
}

/// Whether `s` stores the count `count` of term `term` in field `name` of document `doc_id`.
pub open spec fn is_term_row(s: Stmt, doc_id: i64, term: Seq<char>, name: Seq<char>, count: nat) -> bool {
    &&& s.sql@ == insert_term_sql()
    &&& s.params@.len() == 4
    &&& int_is(s.params@[0], doc_id)
    &&& text_is(s.params@[1], term)
    &&& text_is(s.params@[2], name)
    &&& int_is(s.params@[3], count as i64)
}

/// The term of a term row.
pub open spec fn row_term(s: Stmt) -> Seq<char> {
    match s.params@[1] {
        SqlValue::Text(t) => t@,
        SqlValue::Integer(_) => Seq::empty(),
    }
}

/// The rows of one field: its length, and one count per distinct term.
pub struct FieldRows {
    pub field: Stmt,
    pub terms: Vec<Stmt>,
}

/// The rows of field `name` with data `fd`, for the document with id `doc_id`:
/// the field's length, then exactly one row per term of the field with its count.
pub fn field_rows(doc_id: i64, name: &String, fd: &FieldData) -> (r: FieldRows)
    requires
        fd.wf(),
    ensures
        is_field_row(r.field, doc_id, name@, fd@.1),
        r.terms@.len() == fd@.0.len(),
        forall|k: int| 0 <= k < r.terms@.len() ==> {
            let t = row_term(#[trigger] r.terms@[k]);
            fd@.0.contains_key(t) && is_term_row(r.terms@[k], doc_id, t, name@, fd@.0[t])
        },
        forall|k: int, l: int| 0 <= k < l < r.terms@.len() ==> row_term(#[trigger] r.terms@[k]) != row_term(#[trigger] r.terms@[l]),
{
    proof {
        fd.lemma_view();
    }
    let mut fparams: Vec<SqlValue> = Vec::new();
    fparams.push(SqlValue::Integer(doc_id));
    fparams.push(SqlValue::Text(name.clone()));
    fparams.push(SqlValue::Integer(fd.len as i64));
    let field = Stmt {
        sql: String::from_str("INSERT INTO DocumentField (doc_id, field, field_term_count) VALUES (?, ?, ?)"),
        params: fparams,
    };
    let mut terms: Vec<Stmt> = Vec::new();
    let m = fd.term_len();
    let mut k: usize = 0;
    while k < m
        invariant
            fd.wf(),
            m == fd.tf.size(),
            k <= m,
            terms@.len() == k,
            forall|q: int| 0 <= q < k ==> row_term(#[trigger] terms@[q]) == fd.tf.key_at(q)
                && is_term_row(terms@[q], doc_id, fd.tf.key_at(q), name@, fd.tf.val_at(q) as nat),
        decreases m - k,
    {
        let (term, count) = fd.term(k);
        let mut params: Vec<SqlValue> = Vec::new();
        params.push(SqlValue::Integer(doc_id));
        params.push(SqlValue::Text(term.clone()));
        params.push(SqlValue::Text(name.clone()));
        params.push(SqlValue::Integer(count as i64));
        terms.push(Stmt { sql: String::from_str("INSERT INTO TermFreq (doc_id, term, field, freq) VALUES (?, ?, ?, ?)"), params });
        k = k + 1;
    }
    proof {
        fd.tf.lemma_len();
        fd.lemma_view();
        assert forall|k: int| 0 <= k < terms@.len() implies {
            let t = row_term(#[trigger] terms@[k]);
            fd@.0.contains_key(t) && is_term_row(terms@[k], doc_id, t, name@, fd@.0[t])
        } by {
            fd.tf.lemma_entry(k);
        }
        assert forall|k: int, l: int| 0 <= k < l < terms@.len() implies row_term(#[trigger] terms@[k]) != row_term(#[trigger] terms@[l]) by {
            fd.tf.lemma_entry(k);
            fd.tf.lemma_entry(l);
        }
        assert(fd@.0.len() == fd.tf@.len());
    }
    FieldRows { field, terms }
}

/// The rows of every field of `doc`, in the document's order of fields.
pub fn document_rows(doc_id: i64, doc: &Doc) -> (r: Vec<FieldRows>)
    requires
        doc.wf(),
    ensures
        r@.len() == doc.field_count(),
        forall|j: int| 0 <= j < r@.len() ==> {
            let fr = #[trigger] r@[j];
            let f = doc.field_at(j);
            &&& is_field_row(fr.field, doc_id, doc.field_name(j), f.1)
            &&& fr.terms@.len() == f.0.len()
            &&& forall|k: int| 0 <= k < fr.terms@.len() ==> {
                let t = row_term(#[trigger] fr.terms@[k]);
                f.0.contains_key(t) && is_term_row(fr.terms@[k], doc_id, t, doc.field_name(j), f.0[t])
            }
            &&& forall|k: int, l: int| 0 <= k < l < fr.terms@.len() ==> row_term(#[trigger] fr.terms@[k]) != row_term(#[trigger] fr.terms@[l])
        },
{
    let n = doc.field_len();
    let mut r: Vec<FieldRows> = Vec::new();
    let mut j: usize = 0;
    while j < n
        invariant
            doc.wf(),
            n == doc.field_count(),
            j <= n,
            r@.len() == j,
            forall|q: int| 0 <= q < j ==> {
                let fr = #[trigger] r@[q];
                let f = doc.field_at(q);
                &&& is_field_row(fr.field, doc_id, doc.field_name(q), f.1)
                &&& fr.terms@.len() == f.0.len()
                &&& forall|k: int| 0 <= k < fr.terms@.len() ==> {
                    let t = row_term(#[trigger] fr.terms@[k]);
                    f.0.contains_key(t) && is_term_row(fr.terms@[k], doc_id, t, doc.field_name(q), f.0[t])
                }
                &&& forall|k: int, l: int| 0 <= k < l < fr.terms@.len() ==> row_term(#[trigger] fr.terms@[k]) != row_term(#[trigger] fr.terms@[l])
            },
        decreases n - j,
    {
        let (name, fd) = doc.field(j);
        r.push(field_rows(doc_id, name, fd));
        j = j + 1;
    }
    r
}

/// The lookup of the stored document frequency of `term`.
pub fn lookup_doc_freq(term: &String) -> (r: Stmt)
    ensures
        with_text(r, select_doc_freq_sql(), term@),
{
    text_stmt("SELECT freq FROM DocFreq WHERE term = ?", term)
}

/// The storing of document frequency `freq` for `term`.
pub fn store_doc_freq(term: &String, freq: i64) -> (r: Stmt)
    ensures
        r.sql@ == store_doc_freq_sql(),
        r.params@.len() == 2,
        text_is(r.params@[0], term@),
        int_is(r.params@[1], freq),
{
    let mut params: Vec<SqlValue> = Vec::new();
    params.push(SqlValue::Text(term.clone()));
    params.push(SqlValue::Integer(freq));
    Stmt { sql: String::from_str("INSERT OR REPLACE INTO DocFreq (term, freq) VALUES (?, ?)"), params }
}

} // verus!
