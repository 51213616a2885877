use local_search::crawl::{classify_entry, EntryStep};
use local_search::engine::Model;
use local_search::model::{Doc, InMemoryModel};
use local_search::sqlite_model::{
    has_no_star, hit_query, hit_row_from, next_doc_freq, stats_from, total_from, ModelError, SqliteModel,
};
use local_search::statements::{document_rows, removal_plan, schema, SqlValue, Stmt};

fn text_of(v: &SqlValue) -> Option<&str> {
    match v {
        SqlValue::Text(t) => Some(t.as_str()),
        SqlValue::Integer(_) => None,
    }
}

fn integer(v: &SqlValue) -> Option<i64> {
    match v {
        SqlValue::Integer(n) => Some(*n),
        SqlValue::Text(_) => None,
    }
}

fn content_only(content: &str) -> Vec<(String, Vec<char>)> {
    vec![("content".to_string(), content.chars().collect())]
}

#[test]
fn removal_plan_decrements_each_term_then_deletes() {
    let plan: Vec<Stmt> = removal_plan(7, &vec!["FOX".to_string(), "DOG".to_string()]);
    assert_eq!(plan.len(), 5);
    assert_eq!(plan[0].sql, "UPDATE DocFreq SET freq = MAX(freq - 1, 0) WHERE term = ?");
    assert_eq!(text_of(&plan[0].params[0]), Some("FOX"));
    assert_eq!(text_of(&plan[1].params[0]), Some("DOG"));
    assert_eq!(plan[2].sql, "DELETE FROM TermFreq WHERE doc_id = ?");
    assert_eq!(plan[3].sql, "DELETE FROM DocumentField WHERE doc_id = ?");
    assert_eq!(plan[4].sql, "DELETE FROM Documents WHERE id = ?");
    for s in &plan[2..] {
        assert_eq!(integer(&s.params[0]), Some(7));
    }
}

#[test]
fn document_rows_hold_lengths_and_counts() {
    let doc = Doc::from_parts(&vec![("content".to_string(), vec![("FOX".to_string(), 2), ("DOG".to_string(), 1)], 3)], 1);
    let rows = document_rows(4, &doc);
    assert_eq!(rows.len(), 1);
    assert_eq!(integer(&rows[0].field.params[0]), Some(4));
    assert_eq!(text_of(&rows[0].field.params[1]), Some("content"));
    assert_eq!(integer(&rows[0].field.params[2]), Some(3));
    let mut counts: Vec<(String, i64)> = rows[0]
        .terms
        .iter()
        .map(|s| (text_of(&s.params[1]).unwrap().to_string(), integer(&s.params[3]).unwrap()))
        .collect();
    counts.sort();
    assert_eq!(counts, vec![("DOG".to_string(), 1), ("FOX".to_string(), 2)]);
}

#[test]
fn document_frequency_steps() {
    assert_eq!(next_doc_freq(None), Ok(1));
    assert_eq!(next_doc_freq(Some(4)), Ok(5));
    assert_eq!(next_doc_freq(Some(-1)), Err(ModelError::BadCount));
    assert_eq!(next_doc_freq(Some(i64::MAX)), Err(ModelError::BadCount));
}

#[test]
fn stats_from_counts() {
    assert_eq!(stats_from(Some(2), Some(5)), Ok((2, 5)));
    assert_eq!(stats_from(None, None), Ok((0, 0)));
    assert_eq!(stats_from(Some(-3), Some(1)), Err(ModelError::BadCount));
}

#[test]
fn totals_and_rows_from_values() {
    let t = total_from("content".to_string(), 9, 3).unwrap();
    assert_eq!((t.field.as_str(), t.total, t.docs), ("content", 9, 3));
    assert!(total_from("content".to_string(), -1, 3).is_err());
    let h = hit_row_from("a".into(), "name".into(), "FOX".into(), 2, 1, 1).unwrap();
    assert_eq!((h.field_len, h.tf, h.df), (2, 1, 1));
    assert!(hit_row_from("a".into(), "name".into(), "FOX".into(), 2, -1, 1).is_err());
}

#[test]
fn hit_query_binds_the_terms_in_order() {
    let q = hit_query(&vec!["A".to_string(), "B".to_string()]);
    assert!(q.sql.ends_with("WHERE TermFreq.term IN (?, ?)"));
    assert_eq!(q.params.len(), 2);
    assert_eq!(text_of(&q.params[1]), Some("B"));
}

#[test]
fn statements_name_their_columns() {
    assert!(has_no_star("SELECT COUNT(1) AS count FROM Documents"));
    assert!(!has_no_star("SELECT * FROM Documents"));
    assert_eq!(schema().len(), 4);
}

#[test]
fn crawl_entry_steps() {
    assert_eq!(classify_entry(".hidden.txt", false), EntryStep::SkipDotFile);
    assert_eq!(classify_entry(".git", true), EntryStep::SkipDotFile);
    assert_eq!(classify_entry("docs", true), EntryStep::Descend);
    assert_eq!(classify_entry("a.txt", false), EntryStep::CheckFile);
}

#[test]
fn both_backends_answer_an_empty_query_with_nothing() {
    let mut mem = InMemoryModel::new();
    Model::add_document(&mut mem, "a.txt".to_string(), 1, content_only("the quick brown fox")).unwrap();
    let mut db = SqliteModel::open(":memory:").unwrap();
    Model::add_document(&mut db, "a.txt".to_string(), 1, content_only("the quick brown fox")).unwrap();
    for q in ["", "   "] {
        let q: Vec<char> = q.chars().collect();
        assert!(Model::search_query(&mem, &q).unwrap().docs.is_empty());
        assert!(Model::search_query(&db, &q).unwrap().docs.is_empty());
    }
    assert_eq!(Model::stats(&mem), Ok((1, 4)));
    assert_eq!(Model::stats(&db), Ok((1, 4)));
}

#[test]
fn search_ignores_ascii_case_on_both_backends() {
    let mut mem = InMemoryModel::new();
    Model::add_document(&mut mem, "a.txt".to_string(), 1, content_only("Quick fox")).unwrap();
    let lower: Vec<char> = "quick".chars().collect();
    let upper: Vec<char> = "QUICK".chars().collect();
    let a = Model::search_query(&mem, &lower).unwrap();
    let b = Model::search_query(&mem, &upper).unwrap();
    assert_eq!(a.docs[0].terms[0].fields[0].tf, b.docs[0].terms[0].fields[0].tf);
    assert_eq!(a.docs[0].terms[0].term, b.docs[0].terms[0].term);
}

#[test]
fn sqlite_re_add_and_remove_then_add_agree() {
    let mut once = SqliteModel::open(":memory:").unwrap();
    once.add_document("a.txt".to_string(), 1, content_only("alpha beta")).unwrap();
    let mut twice = SqliteModel::open(":memory:").unwrap();
    twice.add_document("a.txt".to_string(), 1, content_only("alpha beta")).unwrap();
    twice.add_document("a.txt".to_string(), 1, content_only("alpha beta")).unwrap();
    assert_eq!(once.stats(), twice.stats());
    let mut removed = SqliteModel::open(":memory:").unwrap();
    removed.add_document("a.txt".to_string(), 1, content_only("alpha")).unwrap();
    removed.remove_document(&"a.txt".to_string()).unwrap();
    removed.add_document("a.txt".to_string(), 1, content_only("alpha beta")).unwrap();
    let q: Vec<char> = "alpha beta".chars().collect();
    let x = once.search_input(&q).unwrap();
    let y = removed.search_input(&q).unwrap();
    assert_eq!(x.docs.len(), y.docs.len());
    assert_eq!(x.docs[0].terms[0].df, y.docs[0].terms[0].df);
    assert_eq!(x.docs[0].terms[1].df, 1);
    assert_eq!(y.docs[0].terms[0].df, 1);
}
