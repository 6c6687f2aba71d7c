use sift::bench::{QualityBenchmarkRequest};
use sift::dense::{DenseModelSpec};
use sift::eval::{AgenticTaskFixture, AgenticTurnFixture, AutonomousPlannerStopReason, EvalFileError, collapse_agentic_task_query, expected_documents_satisfied, filter_evaluation_helper_documents, format_autonomous_stop_reason, is_gated_model_error, join_url, materialized_body, materialized_query_row, parse_qrels, parse_queries, parse_u32, qrel_query_ids, sanitize_doc_id, scifact_download_summary, scifact_downloads, search_path_to_document_id, summarize_autonomous_stop_reasons};
use sift::extract::{SourceKind};
use sift::search::{Document, LoadedCorpus};

fn test_document(path: &str, text: &str) -> Document {
    Document {
        id: path.to_string(),
        path: path.to_string(),
        source_kind: SourceKind::Text,
        length: text.len(),
        terms: Vec::new(),
        text: text.to_string(),
    }
}

#[test]
fn detects_gated_model_http_status_errors() {
    assert!(is_gated_model_error(&["http status: 401".to_string()]));
    assert!(is_gated_model_error(&["http status: 403".to_string()]));
}

#[test]
fn ignores_non_authentication_errors() {
    assert!(!is_gated_model_error(&["failed to parse config".to_string()]));
}

#[test]
fn filters_eval_helper_documents_from_loaded_corpus() {
    let doc_path = "/tmp/eval-corpus/doc.txt";
    let queries_path = "/tmp/eval-corpus/test-queries.tsv";
    let qrels_path = "/tmp/eval-corpus/qrels/test.tsv";
    let corpus = LoadedCorpus {
        documents: vec![
            test_document(doc_path, "real document"),
            test_document(queries_path, "helper queries"),
            test_document(qrels_path, "helper qrels"),
        ],
        total_bytes: ("real document".len() + "helper queries".len() + "helper qrels".len()) as u64,
        indexed_files: 3,
        skipped_files: 1,
    };

    let filtered =
        filter_evaluation_helper_documents(corpus, &[queries_path.to_string(), qrels_path.to_string()]);

    assert_eq!(filtered.documents.len(), 1);
    assert_eq!(filtered.documents[0].path, doc_path);
    assert_eq!(filtered.indexed_files, 1);
    assert_eq!(filtered.skipped_files, 3);
    assert_eq!(filtered.total_bytes, "real document".len() as u64);
}

#[test]
fn gated_errors_are_found_anywhere_in_the_chain_and_ignore_case() {
    assert!(is_gated_model_error(&[
        "download config".to_string(),
        "HuggingFace said: Unauthorized".to_string()
    ]));
    assert!(is_gated_model_error(&["huggingface: FORBIDDEN".to_string()]));
    assert!(!is_gated_model_error(&["forbidden".to_string()]));
    assert!(!is_gated_model_error(&[]));
}

#[test]
fn empty_helper_paths_leave_the_corpus_alone() {
    let corpus = LoadedCorpus {
        documents: vec![test_document("/a.txt", "abc")],
        total_bytes: 999,
        indexed_files: 7,
        skipped_files: 2,
    };
    let same = filter_evaluation_helper_documents(corpus, &[String::new()]);
    assert_eq!(same.total_bytes, 999);
    assert_eq!(same.indexed_files, 7);
    assert_eq!(same.skipped_files, 2);
    assert_eq!(same.documents.len(), 1);
}

#[test]
fn helper_paths_match_by_components() {
    let corpus = LoadedCorpus {
        documents: vec![test_document("/c/q.tsv", "q"), test_document("/c/d.txt", "dd")],
        total_bytes: 3,
        indexed_files: 2,
        skipped_files: 0,
    };
    let filtered = filter_evaluation_helper_documents(corpus, &["/c//q.tsv".to_string()]);
    assert_eq!(filtered.documents.len(), 1);
    assert_eq!(filtered.documents[0].path, "/c/d.txt");
    assert_eq!(filtered.total_bytes, 2);
    assert_eq!(filtered.skipped_files, 1);
}

#[test]
fn document_ids_are_sanitized_for_file_names() {
    assert_eq!(sanitize_doc_id("a/b\\c:d\0e"), "a_b_c_d_e");
    assert_eq!(sanitize_doc_id("plain-id"), "plain-id");
}

#[test]
fn urls_join_with_one_slash() {
    assert_eq!(join_url("https://h/x///", "f.gz"), "https://h/x/f.gz");
    assert_eq!(join_url("https://h/x", "f.gz"), "https://h/x/f.gz");
    assert_eq!(join_url("", "f"), "/f");
}

#[test]
fn agentic_task_query_joins_trimmed_turns() {
    let task = AgenticTaskFixture {
        id: "t".into(),
        root_task: None,
        turns: vec![
            AgenticTurnFixture { query: "  first  ".into(), expected_documents: vec![] },
            AgenticTurnFixture { query: "   ".into(), expected_documents: vec![] },
            AgenticTurnFixture { query: "second".into(), expected_documents: vec![] },
        ],
        expected_final_documents: vec![],
    };
    assert_eq!(collapse_agentic_task_query(&task), "first second");
}

#[test]
fn result_paths_map_to_document_ids() {
    assert_eq!(search_path_to_document_id("/corpus/doc-12.txt"), "doc-12");
    assert_eq!(search_path_to_document_id("doc"), "doc");
    assert_eq!(search_path_to_document_id(".."), "..");
}

#[test]
fn expected_documents_must_all_be_found() {
    let actual = vec!["a".to_string(), "b".to_string()];
    assert!(expected_documents_satisfied(&[], &actual));
    assert!(expected_documents_satisfied(&["b".to_string()], &actual));
    assert!(!expected_documents_satisfied(&["b".to_string(), "c".to_string()], &actual));
}

#[test]
fn stop_reasons_are_counted_in_fixed_order() {
    let counts = summarize_autonomous_stop_reasons(&[
        Some(AutonomousPlannerStopReason::NoFurtherQueries),
        None,
        Some(AutonomousPlannerStopReason::GoalSatisfied),
        Some(AutonomousPlannerStopReason::NoFurtherQueries),
    ]);
    assert_eq!(counts.len(), 2);
    assert_eq!(counts[0].stop_reason, AutonomousPlannerStopReason::GoalSatisfied);
    assert_eq!(counts[0].tasks, 1);
    assert_eq!(counts[1].stop_reason, AutonomousPlannerStopReason::NoFurtherQueries);
    assert_eq!(counts[1].tasks, 2);
    assert!(summarize_autonomous_stop_reasons(&[None]).is_empty());
}

#[test]
fn scifact_files_come_from_the_dataset_addresses() {
    let plan = scifact_downloads("https://d/scifact/", "https://q", "/out");
    assert_eq!(plan[0], ("https://d/scifact/corpus.jsonl.gz".to_string(), "/out/corpus.jsonl.gz".to_string()));
    assert_eq!(plan[1].0, "https://d/scifact/queries.jsonl.gz");
    assert_eq!(plan[2], ("https://q/test.tsv".to_string(), "/out/qrels/test.tsv".to_string()));
    let summary = scifact_download_summary();
    assert_eq!(summary.dataset, "scifact");
    assert_eq!(summary.qrels_test, "qrels/test.tsv");
}

#[test]
fn queries_files_skip_headers_and_blank_lines() {
    let parsed = parse_queries("query-id\ttext\n1\tfirst query\n\n2\tsecond\n1\treplaced\n").expect("queries");
    assert_eq!(
        parsed,
        vec![("1".to_string(), "replaced".to_string()), ("2".to_string(), "second".to_string())]
    );
    assert_eq!(parse_queries(""), Ok(vec![]));
}

#[test]
fn queries_files_refuse_missing_fields() {
    assert_eq!(parse_queries("\tno id\n"), Err(EvalFileError::MissingQueryId));
    assert_eq!(parse_queries("7\t\n"), Err(EvalFileError::MissingQueryText));
    assert_eq!(parse_queries("1\tok\n7\n"), Err(EvalFileError::MissingQueryText));
    assert_eq!(parse_queries("x\tquery-id\t\n"), Ok(vec![("x".to_string(), "query-id\t".to_string())]));
}

#[test]
fn qrels_group_judgements_by_query() {
    let parsed = parse_qrels("query-id\tcorpus-id\tscore\nq1\td1\t1\nq2\td9\t2\nq1\td2\t+3\nq1\td1\t0\n").expect("qrels");
    assert_eq!(parsed.len(), 2);
    assert_eq!(parsed[0].0, "q1");
    assert_eq!(parsed[0].1, vec![("d1".to_string(), 0), ("d2".to_string(), 3)]);
    assert_eq!(parsed[1], ("q2".to_string(), vec![("d9".to_string(), 2)]));
}

#[test]
fn qrels_refuse_missing_and_invalid_fields() {
    assert_eq!(parse_qrels("\td\t1\n"), Err(EvalFileError::MissingQrelsQueryId));
    assert_eq!(parse_qrels("q\n"), Err(EvalFileError::MissingQrelsCorpusId));
    assert_eq!(parse_qrels("q\t\t1\n"), Err(EvalFileError::MissingQrelsCorpusId));
    assert_eq!(parse_qrels("q\td\n"), Err(EvalFileError::MissingQrelsScore));
    assert_eq!(parse_qrels("q\td\tx\n"), Err(EvalFileError::InvalidQrelsScore));
    assert_eq!(parse_qrels("q\td\t-1\n"), Err(EvalFileError::InvalidQrelsScore));
    assert_eq!(parse_qrels("q\td\t4294967296\n"), Err(EvalFileError::InvalidQrelsScore));
    assert_eq!(parse_qrels("q\td\t4294967295\n").expect("max")[0].1[0].1, u32::MAX);
}

#[test]
fn numbers_parse_like_std() {
    for text in ["0", "+7", "0042", "4294967295", "", "+", "-1", "1 ", "4294967296", "99999999999999999999"] {
        let chars: Vec<char> = text.chars().collect();
        assert_eq!(parse_u32(&chars), text.parse::<u32>().ok(), "{text:?}");
    }
}

#[test]
fn materialization_reads_query_ids_of_judgement_lines() {
    assert_eq!(
        qrel_query_ids("query-id\tcorpus-id\tscore\nq1\td1\t1\n\nq2\td2\t1\n"),
        Ok(vec!["q1".to_string(), "q2".to_string()])
    );
    assert_eq!(qrel_query_ids("header\nq1\td1\t\n"), Err(EvalFileError::MissingQrelsScore));
}

#[test]
fn materialized_documents_and_queries() {
    assert_eq!(materialized_body(Some("  Title "), " body text \n"), "Title\n\nbody text");
    assert_eq!(materialized_body(Some("   "), "body"), "body");
    assert_eq!(materialized_body(None, "body"), "body");
    assert_eq!(materialized_query_row("q1", "line one\nline two"), "q1\tline one line two");
}

#[test]
fn benchmark_requests_default_their_files() {
    let request = QualityBenchmarkRequest {
        strategy: "bm25".into(),
        baseline: None,
        command: "sift".into(),
        corpus_dir: "/c".into(),
        queries_path: None,
        qrels_path: "/q.tsv".into(),
        shortlist: 8,
        dense_model: DenseModelSpec::default(),
    };
    assert_eq!(request.queries_file(), "/c/test-queries.tsv");
    assert_eq!(request.baseline_strategy(), "bm25");
}

#[test]
fn stop_reasons_read_as_planner_messages() {
    assert_eq!(format_autonomous_stop_reason(AutonomousPlannerStopReason::GoalSatisfied), "planner terminated: goal satisfied");
    assert_eq!(format_autonomous_stop_reason(AutonomousPlannerStopReason::StepLimitReached), "planner terminated: step limit reached");
    assert_eq!(
        format_autonomous_stop_reason(AutonomousPlannerStopReason::NoFurtherQueries),
        "planner terminated: no further queries available"
    );
    assert_eq!(
        format_autonomous_stop_reason(AutonomousPlannerStopReason::NoAdditionalEvidence),
        "planner terminated: no additional evidence found"
    );
}
