use std::io::Write;

use flate2::write::GzEncoder;
use flate2::Compression;
use sift::dataset::{jsonl_lines, jsonl_text_lines, materialized_file_name, scifact_materialization_summary, select_test_queries};
use sift::eval::EvalFileError;

fn gzip(bytes: &[u8]) -> Vec<u8> {
    let mut encoder = GzEncoder::new(Vec::new(), Compression::default());
    encoder.write_all(bytes).unwrap();
    encoder.finish().unwrap()
}

#[test]
fn archive_rows_are_the_nonblank_decoded_lines() {
    let archive = gzip(b"{\"_id\":\"1\"}\n\n  \t\r\n{\"_id\":\"2\"}\r\n{\"_id\":\"3\"}");
    assert_eq!(
        jsonl_lines(&archive),
        Some(vec!["{\"_id\":\"1\"}".to_string(), "{\"_id\":\"2\"}".to_string(), "{\"_id\":\"3\"}".to_string()])
    );
    assert_eq!(jsonl_lines(&gzip(b"")), Some(vec![]));
}

#[test]
fn archives_that_do_not_decode_give_no_rows() {
    assert_eq!(jsonl_lines(b"{\"_id\":\"1\"}\n"), None);
    assert_eq!(jsonl_lines(&gzip(&[0x7b, 0xff, 0xfe, b'\n'])), None);
    let mut truncated = gzip(b"{\"_id\":\"1\"}\n{\"_id\":\"2\"}\n");
    truncated.truncate(truncated.len() - 4);
    assert_eq!(jsonl_lines(&truncated), None);
}

#[test]
fn test_queries_are_those_the_judgements_name() {
    let queries = vec![
        ("1".to_string(), "first\nquery".to_string()),
        ("2".to_string(), "second".to_string()),
        ("3".to_string(), "third".to_string()),
    ];
    let qrels = "query-id\tcorpus-id\tscore\n3\td1\t1\n1\td2\t1\n3\td3\t1\n";
    assert_eq!(
        select_test_queries(&queries, qrels),
        Ok(vec!["1\tfirst query".to_string(), "3\tthird".to_string()])
    );
    assert_eq!(select_test_queries(&queries, "query-id\tcorpus-id\tscore\n"), Ok(vec![]));
    assert_eq!(select_test_queries(&queries, "header\n1\td1\t\n"), Err(EvalFileError::MissingQrelsScore));
}

#[test]
fn materialized_names_and_summary() {
    assert_eq!(materialized_file_name("a/b:c"), "a_b_c.txt");
    let s = scifact_materialization_summary(5183, 300, "/out");
    assert_eq!(s.dataset, "scifact");
    assert_eq!(s.artifacts, 5183);
    assert_eq!(s.test_queries, 300);
    assert_eq!(s.output_dir, "/out");
}

#[test]
fn decoded_text_rows_are_its_nonblank_lines() {
    assert_eq!(jsonl_text_lines(b"a\n \n\tb\r\n"), Some(vec!["a".to_string(), "\tb".to_string()]));
    assert_eq!(jsonl_text_lines(&[0xc3, 0x28]), None);
}
