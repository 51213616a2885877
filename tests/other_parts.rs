use local_search::cli::{parse_args, CliError};
use local_search::crawl::{document_fields, format_for_extension, is_dot_file, split_file_name, CrawlCounts, Format};
use local_search::extract::{join_pieces, xml_text};
use local_search::model::{Doc, InMemoryModel};
use local_search::routes::{route, Route};
use local_search::sqlite_model::{count_from, group_hits, placeholders, reindex_needed, time_to_sql, HitRow, ModelError, SqliteModel};

fn args(list: &[&str]) -> Vec<String> {
    list.iter().map(|s| s.to_string()).collect()
}

fn content_only(content: &str) -> Vec<(String, Vec<char>)> {
    vec![("content".to_string(), content.chars().collect())]
}

#[test]
fn serve_with_defaults() {
    let o = parse_args(&args(&["serve", "docs"])).unwrap();
    assert_eq!(o.dir, "docs");
    assert_eq!(o.address, "127.0.0.1:6969");
    assert!(!o.sqlite);
}

#[test]
fn serve_with_flag_and_address() {
    let o = parse_args(&args(&["--sqlite", "serve", "docs", "0.0.0.0:80"])).unwrap();
    assert_eq!(o.dir, "docs");
    assert_eq!(o.address, "0.0.0.0:80");
    assert!(o.sqlite);
}

#[test]
fn command_line_errors() {
    assert_eq!(parse_args(&args(&[])).err(), Some(CliError::NoSubcommand));
    assert_eq!(parse_args(&args(&["--sqlite"])).err(), Some(CliError::NoSubcommand));
    assert_eq!(parse_args(&args(&["serve"])).err(), Some(CliError::NoDirectory));
    assert_eq!(parse_args(&args(&["index", "x"])).err(), Some(CliError::UnknownSubcommand("index".to_string())));
}

#[test]
fn routes_of_the_server() {
    assert_eq!(route("POST", "/api/search"), Route::Search);
    assert_eq!(route("GET", "/api/stats"), Route::Stats);
    assert_eq!(route("GET", "/index.js"), Route::Script);
    assert_eq!(route("GET", "/"), Route::Page);
    assert_eq!(route("GET", "/index.html"), Route::Page);
    assert_eq!(route("GET", "/api/search"), Route::NotFound);
    assert_eq!(route("POST", "/"), Route::NotFound);
}

#[test]
fn dot_files_are_recognised() {
    assert!(is_dot_file(".hidden.txt"));
    assert!(!is_dot_file("visible.txt"));
    assert!(!is_dot_file(""));
}

#[test]
fn file_names_split_like_paths() {
    assert_eq!(split_file_name("report.pdf"), ("report".to_string(), Some("pdf".to_string())));
    assert_eq!(split_file_name("archive.tar.gz"), ("archive.tar".to_string(), Some("gz".to_string())));
    assert_eq!(split_file_name("README"), ("README".to_string(), None));
    assert_eq!(split_file_name(".bashrc"), (".bashrc".to_string(), None));
    assert_eq!(split_file_name("trailing."), ("trailing".to_string(), Some("".to_string())));
}

#[test]
fn extractors_by_extension() {
    assert_eq!(format_for_extension("html"), Some(Format::Xml));
    assert_eq!(format_for_extension("xhtml"), Some(Format::Xml));
    assert_eq!(format_for_extension("xml"), Some(Format::Xml));
    assert_eq!(format_for_extension("md"), Some(Format::Text));
    assert_eq!(format_for_extension("txt"), Some(Format::Text));
    assert_eq!(format_for_extension("pdf"), Some(Format::Pdf));
    assert_eq!(format_for_extension("rs"), None);
}

#[test]
fn fields_of_a_file() {
    let f = document_fields("notes", "md", "body".chars().collect());
    assert_eq!(f.len(), 3);
    assert_eq!(f[0], ("name".to_string(), "notes".chars().collect::<Vec<_>>()));
    assert_eq!(f[1], ("extension".to_string(), "md".chars().collect::<Vec<_>>()));
    assert_eq!(f[2], ("content".to_string(), "body".chars().collect::<Vec<_>>()));
}

#[test]
fn crawl_counts() {
    let mut c = CrawlCounts::new();
    c.skip();
    c.skip();
    c.process();
    assert_eq!((c.skipped, c.processed), (2, 1));
}

#[test]
fn xml_character_data_is_joined_with_spaces() {
    let text = xml_text(b"<doc><p>hello</p><p>world</p></doc>").unwrap();
    assert_eq!(text, "hello world ");
    assert!(xml_text(b"<doc><p>unclosed</doc>").is_none());
}

#[test]
fn pieces_are_joined_with_spaces() {
    let pieces = vec![Some("page one".to_string()), None, Some("page two".to_string())];
    assert_eq!(join_pieces(&pieces), "page one page two ");
    assert_eq!(join_pieces(&vec![]), "");
}

#[test]
fn a_snapshot_is_restored_with_fresh_document_frequencies() {
    let a = Doc::from_parts(&vec![("content".to_string(), vec![("FOX".to_string(), 2), ("DOG".to_string(), 1)], 3)], 7);
    let b = Doc::from_parts(&vec![("content".to_string(), vec![("FOX".to_string(), 1)], 1)], 8);
    let m = InMemoryModel::from_documents(vec![("a".to_string(), a), ("b".to_string(), b)]);
    assert_eq!(m.stats(), (2, 2));
    let dfs: Vec<(String, usize)> = (0..m.terms_len()).map(|i| { let (t, c) = m.term(i); (t.clone(), c) }).collect();
    assert!(dfs.contains(&("FOX".to_string(), 2)));
    assert!(dfs.contains(&("DOG".to_string(), 1)));
    assert!(!m.requires_reindexing(&"b".to_string(), 8));
}

#[test]
fn sql_helpers() {
    assert_eq!(placeholders(0), "");
    assert_eq!(placeholders(1), "?");
    assert_eq!(placeholders(3), "?, ?, ?");
    assert_eq!(count_from(5), Ok(5));
    assert_eq!(count_from(-1), Err(ModelError::BadCount));
    assert_eq!(time_to_sql(10), Ok(10));
    assert_eq!(time_to_sql(u64::MAX), Err(ModelError::TimeOutOfRange));
    assert!(reindex_needed(None, 0));
    assert!(reindex_needed(Some(1), 2));
    assert!(!reindex_needed(Some(2), 2));
}

#[test]
fn rows_are_grouped_by_document_and_term() {
    let row = |path: &str, field: &str, term: &str, tf: usize| HitRow {
        path: path.to_string(),
        field: field.to_string(),
        term: term.to_string(),
        field_len: 4,
        tf,
        df: 2,
    };
    let terms = vec!["FOX".to_string(), "DOG".to_string()];
    let rows = vec![row("a", "content", "FOX", 1), row("b", "name", "DOG", 2), row("a", "name", "FOX", 3)];
    let docs = group_hits(&terms, &rows);
    assert_eq!(docs.len(), 2);
    assert_eq!(docs[0].path, "a");
    assert_eq!(docs[0].terms[0].fields.iter().map(|f| (f.field.as_str(), f.tf)).collect::<Vec<_>>(), vec![("content", 1), ("name", 3)]);
    assert_eq!(docs[0].terms[0].df, 2);
    assert!(docs[0].terms[1].fields.is_empty());
    assert_eq!(docs[0].terms[1].df, 0);
    assert_eq!(docs[1].path, "b");
    assert_eq!(docs[1].terms[1].fields[0].tf, 2);
}

#[test]
fn sqlite_model_updates_and_searches() {
    let mut m = SqliteModel::open(":memory:").unwrap();
    m.add_document("a.txt".to_string(), 1, content_only("alpha gamma")).unwrap();
    m.add_document("a.txt".to_string(), 2, content_only("beta gamma")).unwrap();
    m.add_document("b.txt".to_string(), 1, content_only("gamma")).unwrap();
    assert_eq!(m.stats(), Ok((2, 3)));
    assert_eq!(m.requires_reindexing(&"a.txt".to_string(), 2), Ok(false));
    assert_eq!(m.requires_reindexing(&"a.txt".to_string(), 3), Ok(true));
    assert_eq!(m.requires_reindexing(&"c.txt".to_string(), 1), Ok(true));
    let input = m.search_input(&"gamma alpha".chars().collect::<Vec<_>>()).unwrap();
    assert_eq!(input.doc_count, 2);
    assert_eq!(input.docs.len(), 2);
    for d in &input.docs {
        assert_eq!(d.terms[0].term, "GAMMA");
        assert_eq!(d.terms[0].df, 2);
        assert!(d.terms[1].fields.is_empty());
    }
    let content = input.totals.iter().find(|t| t.field == "content").unwrap();
    assert_eq!((content.total, content.docs), (3, 2));
    assert!(m.search_input(&[]).unwrap().docs.is_empty());
}

#[test]
fn sqlite_model_removes_each_term_once() {
    let mut m = SqliteModel::open(":memory:").unwrap();
    let fields = vec![("name".to_string(), "gamma".chars().collect()), ("content".to_string(), "gamma".chars().collect())];
    m.add_document("a.txt".to_string(), 1, fields).unwrap();
    m.add_document("b.txt".to_string(), 1, content_only("gamma")).unwrap();
    m.remove_document(&"a.txt".to_string()).unwrap();
    let input = m.search_input(&"gamma".chars().collect::<Vec<_>>()).unwrap();
    assert_eq!(input.docs.len(), 1);
    assert_eq!(input.docs[0].terms[0].df, 1);
    assert_eq!(m.stats(), Ok((1, 1)));
}

#[test]
fn sqlite_model_refuses_times_beyond_its_range() {
    let mut m = SqliteModel::open(":memory:").unwrap();
    assert_eq!(m.add_document("a".to_string(), u64::MAX, content_only("x")), Err(ModelError::TimeOutOfRange));
    assert_eq!(m.requires_reindexing(&"a".to_string(), u64::MAX), Err(ModelError::TimeOutOfRange));
}
