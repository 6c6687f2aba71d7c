use sift::extract::{ExtractedDocument, SourceKind};
use sift::search::{Document, Engine, LoadedCorpus, build_snippet, collect_materialized_file, collect_search_file, count_terms, document_frequencies, index_document, is_benchmark_metadata_file, query_terms, tokenize};

fn doc(id: &str) -> Document {
    index_document(
        id.to_string(),
        format!("/c/{id}.txt"),
        ExtractedDocument { text: format!("text of {id}"), source_kind: SourceKind::Text },
    )
}

#[test]
fn engine_labels() {
    assert_eq!(Engine::Bm25.label(), "bm25");
    assert_eq!(Engine::Hybrid.label(), "hybrid");
}

#[test]
fn tokens_are_lowercased_alphanumeric_runs() {
    assert_eq!(tokenize("Retrieval architecture, BM25!"), vec!["retrieval", "architecture", "bm25"]);
    assert_eq!(tokenize("  "), Vec::<String>::new());
    assert_eq!(tokenize("Ünïcode-Wörds"), vec!["ünïcode", "wörds"]);
    assert_eq!(tokenize("a_b"), vec!["a", "b"]);
}

#[test]
fn terms_count_each_token_once() {
    let tokens = tokenize("to be or not to be");
    let terms = count_terms(&tokens);
    assert_eq!(terms.len(), 4);
    let get = |t: &str| terms.iter().find(|(k, _)| k == t).map(|(_, c)| *c);
    assert_eq!(get("to"), Some(2));
    assert_eq!(get("be"), Some(2));
    assert_eq!(get("or"), Some(1));
    assert_eq!(get("not"), Some(1));
    let total: usize = terms.iter().map(|(_, c)| *c).sum();
    assert_eq!(total, tokens.len());
}

#[test]
fn indexed_documents_keep_text_and_count_tokens() {
    let d = index_document(
        "doc".into(),
        "/c/doc.txt".into(),
        ExtractedDocument { text: "Alpha beta alpha".into(), source_kind: SourceKind::Html },
    );
    assert_eq!(d.length, 3);
    assert_eq!(d.text(), "Alpha beta alpha");
    assert_eq!(d.source_kind, SourceKind::Html);
    assert_eq!(d.terms.iter().find(|(k, _)| k == "alpha").map(|(_, c)| *c), Some(2));
}

#[test]
fn snippets_collapse_white_space_and_cut_at_160() {
    assert_eq!(build_snippet("  Retrieval \n\n architecture\tguide "), "Retrieval architecture guide");
    assert_eq!(build_snippet(" \n "), "");
    let long = "word ".repeat(40);
    let snippet = build_snippet(&long);
    assert_eq!(snippet.chars().count(), 163);
    assert!(snippet.ends_with("..."));
    let exact = "x".repeat(160);
    assert_eq!(build_snippet(&exact), exact);
}

#[test]
fn benchmark_metadata_is_tsv_or_under_qrels() {
    assert!(is_benchmark_metadata_file("/c", "/c/test-queries.tsv"));
    assert!(is_benchmark_metadata_file("/c", "/c/qrels/test.txt"));
    assert!(!is_benchmark_metadata_file("/c", "/c/doc.txt"));
    assert!(!is_benchmark_metadata_file("/c", "/other/qrels/doc.txt"));
}

#[test]
fn corpora_are_ordered_by_identifier() {
    let corpus = LoadedCorpus::from_documents(vec![doc("b"), doc("c"), doc("a")], 42, 1);
    let ids: Vec<&str> = corpus.documents.iter().map(|d| d.id.as_str()).collect();
    assert_eq!(ids, vec!["a", "b", "c"]);
    assert_eq!(corpus.indexed_files, 3);
    assert_eq!(corpus.total_bytes, 42);
    assert_eq!(corpus.skipped_files, 1);
    assert_eq!(corpus.document_by_id("c").map(|d| d.path.as_str()), Some("/c/c.txt"));
    assert!(corpus.document_by_id("z").is_none());
}

#[test]
fn query_terms_are_sorted_and_distinct() {
    assert_eq!(query_terms("zeta Alpha alpha beta"), vec!["alpha", "beta", "zeta"]);
    assert!(query_terms("  ...  ").is_empty());
}

#[test]
fn document_frequencies_count_documents_not_occurrences() {
    let docs = vec![
        index_document("a".into(), "/a".into(), ExtractedDocument { text: "x x y".into(), source_kind: SourceKind::Text }),
        index_document("b".into(), "/b".into(), ExtractedDocument { text: "y z".into(), source_kind: SourceKind::Text }),
    ];
    let df = document_frequencies(&docs);
    let get = |t: &str| df.iter().find(|(k, _)| k == t).map(|(_, c)| *c);
    assert_eq!(df.len(), 3);
    assert_eq!(get("x"), Some(1));
    assert_eq!(get("y"), Some(2));
    assert_eq!(get("z"), Some(1));
}

#[test]
fn document_length_equals_summed_term_counts() {
    let d = index_document(
        "d".into(),
        "/d".into(),
        ExtractedDocument { text: "one two two three three three".into(), source_kind: SourceKind::Text },
    );
    let total: usize = d.terms.iter().map(|(_, c)| *c).sum();
    assert_eq!(d.length, total);
    assert_eq!(d.length, 6);
}

#[test]
fn corpus_order_does_not_depend_on_read_order() {
    let forward = LoadedCorpus::from_documents(vec![doc("a"), doc("b"), doc("c")], 0, 0);
    let backward = LoadedCorpus::from_documents(vec![doc("c"), doc("a"), doc("b")], 0, 0);
    let ids = |c: &LoadedCorpus| c.documents.iter().map(|d| d.id.clone()).collect::<Vec<_>>();
    assert_eq!(ids(&forward), ids(&backward));
}

#[test]
fn collecting_a_search_file_counts_bytes_or_skips() {
    let mut documents = Vec::new();
    let mut total_bytes = 0_u64;
    let mut skipped = 0_usize;
    let text = ExtractedDocument { text: "héllo world".into(), source_kind: SourceKind::Text };
    collect_search_file("/c/a.txt".into(), Some(text), &mut documents, &mut total_bytes, &mut skipped);
    collect_search_file("/c/b.bin".into(), None, &mut documents, &mut total_bytes, &mut skipped);
    assert_eq!(documents.len(), 1);
    assert_eq!(documents[0].id, "/c/a.txt");
    assert_eq!(documents[0].path, "/c/a.txt");
    assert_eq!(documents[0].length, 2);
    assert_eq!(total_bytes, 12);
    assert_eq!(skipped, 1);
}

#[test]
fn collecting_a_materialized_file_uses_the_stem() {
    let mut documents = Vec::new();
    let mut total_bytes = 0_u64;
    let mut skipped = 0_usize;
    let text = || ExtractedDocument { text: "claim text".into(), source_kind: SourceKind::Text };
    collect_materialized_file("/corpus/doc-17.txt".into(), Some(text()), &mut documents, &mut total_bytes, &mut skipped);
    collect_materialized_file("/corpus/.hidden".into(), Some(text()), &mut documents, &mut total_bytes, &mut skipped);
    collect_materialized_file("/corpus/x.tar.gz".into(), Some(text()), &mut documents, &mut total_bytes, &mut skipped);
    collect_materialized_file("/".into(), Some(text()), &mut documents, &mut total_bytes, &mut skipped);
    collect_materialized_file("/corpus/empty.txt".into(), None, &mut documents, &mut total_bytes, &mut skipped);
    let ids: Vec<&str> = documents.iter().map(|d| d.id.as_str()).collect();
    assert_eq!(ids, vec!["doc-17", ".hidden", "x.tar"]);
    assert_eq!(documents[0].path, "/corpus/doc-17.txt");
    assert_eq!(total_bytes, 30);
    assert_eq!(skipped, 2);
}
