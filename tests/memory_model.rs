use local_search::crawl::document_fields;
use local_search::model::{FieldTotal, InMemoryModel, SearchInput};
use local_search::ranking::{b_for_field, weights_for_fields, K1};

fn fields(name: &str, ext: &str, content: &str) -> Vec<(String, Vec<char>)> {
    document_fields(name, ext, content.chars().collect())
}

fn content_only(content: &str) -> Vec<(String, Vec<char>)> {
    vec![("content".to_string(), content.chars().collect())]
}

fn df_of(m: &InMemoryModel, term: &str) -> Option<usize> {
    (0..m.terms_len()).map(|i| m.term(i)).find(|(t, _)| t.as_str() == term).map(|(_, c)| c)
}

fn search(m: &InMemoryModel, q: &str) -> SearchInput {
    m.search_input(&q.chars().collect::<Vec<_>>())
}

/// The summed occurrences of the query's terms, over all fields, per document path.
fn occurrences(input: &SearchInput) -> Vec<(String, usize)> {
    input
        .docs
        .iter()
        .map(|d| (d.path.clone(), d.terms.iter().flat_map(|t| t.fields.iter()).map(|f| f.tf).sum()))
        .collect()
}

fn two_documents() -> InMemoryModel {
    let mut m = InMemoryModel::new();
    m.add_document("a.txt".to_string(), 1, fields("a", "txt", "the quick brown fox"));
    m.add_document("b.txt".to_string(), 1, fields("b", "txt", "the lazy dog"));
    m
}

#[test]
fn fox_occurs_only_in_the_first_document() {
    let m = two_documents();
    let input = search(&m, "fox");
    assert_eq!(input.doc_count, 2);
    let occ = occurrences(&input);
    assert!(occ.contains(&("a.txt".to_string(), 1)));
    assert!(occ.contains(&("b.txt".to_string(), 0)));
    assert_eq!(input.docs[0].terms[0].df, 1);
}

#[test]
fn the_occurs_in_both_documents() {
    let m = two_documents();
    let input = search(&m, "the");
    assert_eq!(input.docs.len(), 2);
    for d in &input.docs {
        assert_eq!(d.terms.len(), 1);
        assert_eq!(d.terms[0].term, "THE");
        assert_eq!(d.terms[0].df, 2);
        let content = d.terms[0].fields.iter().find(|f| f.field == "content").unwrap();
        assert_eq!(content.tf, 1);
    }
}

#[test]
fn adding_again_replaces_the_document() {
    let mut m = InMemoryModel::new();
    m.add_document("a.txt".to_string(), 1, content_only("alpha"));
    m.add_document("a.txt".to_string(), 2, content_only("beta"));
    assert_eq!(df_of(&m, "ALPHA"), Some(0));
    assert_eq!(df_of(&m, "BETA"), Some(1));
    assert_eq!(m.stats(), (1, 2));
}

#[test]
fn unchanged_files_are_skipped() {
    let mut m = InMemoryModel::new();
    m.add_document("a.txt".to_string(), 1, content_only("alpha"));
    m.add_document("a.txt".to_string(), 2, content_only("beta"));
    assert!(!m.requires_reindexing(&"a.txt".to_string(), 2));
    assert!(m.requires_reindexing(&"a.txt".to_string(), 3));
    assert!(!m.requires_reindexing(&"a.txt".to_string(), 1));
    assert!(m.requires_reindexing(&"other.txt".to_string(), 0));
}

#[test]
fn a_name_match_lands_in_the_weighted_field() {
    let mut m = InMemoryModel::new();
    m.add_document("readme.md".to_string(), 1, fields("readme", "md", "installation guide"));
    m.add_document("guide.md".to_string(), 1, fields("guide", "md", "another document"));
    let input = search(&m, "guide");
    for d in &input.docs {
        let hits: Vec<(&str, usize)> = d.terms[0].fields.iter().filter(|f| f.tf > 0).map(|f| (f.field.as_str(), f.tf)).collect();
        if d.path == "guide.md" {
            assert_eq!(hits, vec![("name", 1)]);
        } else {
            assert_eq!(hits, vec![("content", 1)]);
        }
    }
    assert_eq!(weights_for_fields("name"), (2, 1));
    assert_eq!(weights_for_fields("content"), (1, 1));
}

#[test]
fn a_query_without_terms_finds_nothing() {
    let m = two_documents();
    assert!(search(&m, "").docs.is_empty());
    assert!(search(&m, "   ").docs.is_empty());
}

#[test]
fn repeated_query_terms_are_kept() {
    let m = two_documents();
    let input = search(&m, "fox fox");
    assert_eq!(input.docs[0].terms.len(), 2);
}

#[test]
fn adding_the_same_document_twice_changes_nothing() {
    let mut once = InMemoryModel::new();
    once.add_document("a.txt".to_string(), 5, fields("a", "txt", "one two two"));
    let mut twice = InMemoryModel::new();
    twice.add_document("a.txt".to_string(), 5, fields("a", "txt", "one two two"));
    twice.add_document("a.txt".to_string(), 5, fields("a", "txt", "one two two"));
    assert_eq!(once.stats(), twice.stats());
    for t in ["ONE", "TWO", "A", "TXT"] {
        assert_eq!(df_of(&once, t), df_of(&twice, t));
    }
    assert_eq!(df_of(&twice, "TWO"), Some(1));
}

#[test]
fn remove_then_add_matches_add() {
    let mut a = two_documents();
    a.remove_document(&"a.txt".to_string());
    assert_eq!(a.stats().0, 1);
    assert_eq!(df_of(&a, "FOX"), Some(0));
    a.add_document("a.txt".to_string(), 3, fields("a", "txt", "new text"));
    let mut b = two_documents();
    b.add_document("a.txt".to_string(), 3, fields("a", "txt", "new text"));
    assert_eq!(a.stats(), b.stats());
    for t in ["NEW", "TEXT", "THE", "FOX", "LAZY"] {
        assert_eq!(df_of(&a, t), df_of(&b, t));
    }
}

#[test]
fn removing_a_missing_document_changes_nothing() {
    let mut m = two_documents();
    m.remove_document(&"nothing.txt".to_string());
    assert_eq!(m.stats(), two_documents().stats());
}

#[test]
fn field_totals_give_the_average_lengths() {
    let m = two_documents();
    let totals: Vec<FieldTotal> = m.field_totals();
    let content = totals.iter().find(|t| t.field == "content").unwrap();
    assert_eq!((content.total, content.docs), (7, 2));
    let name = totals.iter().find(|t| t.field == "name").unwrap();
    assert_eq!((name.total, name.docs), (2, 2));
    assert_eq!(totals.len(), 3);
}

#[test]
fn a_field_that_one_document_lacks_averages_over_the_others() {
    let mut m = InMemoryModel::new();
    m.add_document("x".to_string(), 1, content_only("a b c d"));
    m.add_document("y".to_string(), 1, vec![("title".to_string(), "t u".chars().collect())]);
    let totals = m.field_totals();
    let content = totals.iter().find(|t| t.field == "content").unwrap();
    assert_eq!((content.total, content.docs), (4, 1));
}

#[test]
fn an_empty_model_has_no_totals() {
    let m = InMemoryModel::new();
    assert!(m.field_totals().is_empty());
    assert_eq!(m.stats(), (0, 0));
}

#[test]
fn a_document_reads_back_its_fields() {
    let m = two_documents();
    assert_eq!(m.documents_len(), 2);
    let (path, doc) = m.document(0);
    assert_eq!(path, "a.txt");
    assert_eq!(doc.last_modified(), 1);
    assert_eq!(doc.field_len(), 3);
    let (name, data) = doc.field(2);
    assert_eq!(name, "content");
    assert_eq!(data.len, 4);
    assert_eq!(data.term_len(), 4);
}

#[test]
fn ranking_constants() {
    assert_eq!(weights_for_fields("extension"), (1, 2));
    assert_eq!(weights_for_fields("other"), (1, 1));
    assert_eq!(b_for_field("content"), (3, 4));
    assert_eq!(K1, (3, 2));
}
