//! Materializing the SciFact dataset: the rows of its gzip-compressed JSON
//! Lines archives, the test queries that its judgements name, and the files
//! and summary that materializing writes.
use std::io::Read;
use vstd::prelude::*;
use vstd::utf8::{decode_utf8, valid_utf8};
use crate::eval::{
    materialized_query_row, qrel_ids_from, qrel_query_ids, query_row_spec, sanitize_doc_id, sanitize_spec,
    EvalFileError, MaterializationSummary,
};
use crate::extract::utf8_string;
use crate::search::strings;
use crate::text::{char_seqs, chars_of, extend_str, lines_of, lines_spec, string_of, trim_chars, trim_spec};

verus! {

/// The bytes that gzip-decoding `bytes` yields (its first member), or `None`
/// where the data is not valid gzip.
pub uninterp spec fn gzip_decode(bytes: Seq<u8>) -> Option<Seq<u8>>;

/// Reads `bytes` to the end through `flate2::read::GzDecoder`. Claimed: the
/// result is the named decoding of the bytes, `None` where the decoder
/// reports an error.
#[verifier::external_body]
fn gunzip(bytes: &[u8]) -> (r: Option<Vec<u8>>)
    ensures
        match r {
            Some(v) => gzip_decode(bytes@) == Some(v@),
            None => gzip_decode(bytes@) is None,
        },
{
    let mut out: Vec<u8> = Vec::new();
    match flate2::read::GzDecoder::new(bytes).read_to_end(&mut out) {
        Ok(_) => Some(out),
        Err(_) => None,
    }
}

/// The lines of `lines` that hold more than white space, in order.
pub open spec fn nonblank(lines: Seq<Seq<char>>) -> Seq<Seq<char>>
    decreases lines.len(),
{
    if lines.len() == 0 {
        Seq::empty()
    } else {
        let kept = nonblank(lines.drop_last());
        if trim_spec(lines.last()).len() > 0 {
            kept.push(lines.last())
        } else {
            kept
        }
    }
}

/// The JSON rows of JSON Lines text given as bytes: the non-blank lines of
/// its UTF-8 text; `None` where the bytes are not UTF-8.
pub open spec fn jsonl_text_rows(decoded: Seq<u8>) -> Option<Seq<Seq<char>>> {
    if valid_utf8(decoded) {
        Some(nonblank(lines_spec(decode_utf8(decoded))))
    } else {
        None
    }
}

/// The JSON rows of a gzip-compressed JSON Lines archive: the rows of its
/// decoded bytes; `None` where it does not decode.
pub open spec fn jsonl_rows(archive: Seq<u8>) -> Option<Seq<Seq<char>>> {
    match gzip_decode(archive) {
        Some(d) => jsonl_text_rows(d),
        None => None,
    }
}

/// The non-blank lines of JSON Lines text given as bytes, each one row, or
/// `None` where the bytes are not UTF-8.
pub fn jsonl_text_lines(decoded: &[u8]) -> (r: Option<Vec<String>>)
    ensures
        match r {
            Some(v) => jsonl_text_rows(decoded@) == Some(strings(v@)),
            None => jsonl_text_rows(decoded@) is None,
        },
{
    let text = match utf8_string(decoded) {
        Some(t) => t,
        None => return None,
    };
    let chars = chars_of(text.as_str());
    let lines = lines_of(chars.as_slice());
    let ghost ls = char_seqs(lines@);
    let mut out: Vec<String> = Vec::new();
    let mut i: usize = 0;
    assert(ls.take(0) =~= Seq::<Seq<char>>::empty());
    while i < lines.len()
        invariant
            i <= lines@.len(),
            ls == char_seqs(lines@),
            strings(out@) == nonblank(ls.take(i as int)),
        decreases lines.len() - i,
    {
        let trimmed = trim_chars(lines[i].as_slice());
        proof {
            let t = ls.take(i + 1);
            assert(t.drop_last() =~= ls.take(i as int));
            assert(t.last() == lines@[i as int]@);
        }
        if trimmed.len() > 0 {
            let line = string_of(lines[i].as_slice());
            out.push(line);
            proof {
                assert(strings(out@) =~= nonblank(ls.take(i as int)).push(lines@[i as int]@));
            }
        }
        i += 1;
    }
    assert(ls.take(lines@.len() as int) =~= ls);
    Some(out)
}

/// The non-blank lines of a gzip-compressed JSON Lines archive, each one row.
pub fn jsonl_lines(archive: &[u8]) -> (r: Option<Vec<String>>)
    ensures
        match r {
            Some(v) => jsonl_rows(archive@) == Some(strings(v@)),
            None => jsonl_rows(archive@) is None,
        },
{
    match gunzip(archive) {
        Some(d) => jsonl_text_lines(d.as_slice()),
        None => None,
    }
}

/// The views of id and text pairs.
pub open spec fn pair_views(v: Seq<(String, String)>) -> Seq<(Seq<char>, Seq<char>)> {
    v.map_values(|p: (String, String)| (p.0@, p.1@))
}

/// The query-file rows of the queries whose id is among `ids`, in order.
pub open spec fn wanted_rows(queries: Seq<(Seq<char>, Seq<char>)>, ids: Seq<Seq<char>>) -> Seq<Seq<char>>
    decreases queries.len(),
{
    if queries.len() == 0 {
        Seq::empty()
    } else {
        let kept = wanted_rows(queries.drop_last(), ids);
        let q = queries.last();
        if ids.contains(q.0) {
            kept.push(query_row_spec(q.0, q.1))
        } else {
            kept
        }
    }
}

/// Whether `id` is one of `ids`.
fn listed(ids: &Vec<String>, id: &String) -> (r: bool)
    ensures
        r == strings(ids@).contains(id@),
{
    let mut k: usize = 0;
    while k < ids.len()
        invariant
            k <= ids@.len(),
            forall|j: int| 0 <= j < k ==> strings(ids@)[j] != id@,
        decreases ids.len() - k,
    {
        if ids[k] == *id {
            assert(strings(ids@)[k as int] == id@);
            return true;
        }
        k += 1;
    }
    false
}

/// The test-query rows of `queries` (id and text pairs): one row per query
/// whose id the judgements `qrels` name, in the order given, or the error
/// that reading the judgements' query ids met.
pub fn select_test_queries(queries: &[(String, String)], qrels: &str) -> (r: Result<Vec<String>, EvalFileError>)
    ensures
        match (r, qrel_ids_from(lines_spec(qrels@))) {
            (Ok(v), Ok(ids)) => strings(v@) == wanted_rows(pair_views(queries@), ids),
            (Err(e), Err(e2)) => e == e2,
            _ => false,
        },
{
    let ids = match qrel_query_ids(qrels) {
        Ok(ids) => ids,
        Err(e) => return Err(e),
    };
    let ghost ps = pair_views(queries@);
    let mut out: Vec<String> = Vec::new();
    let mut i: usize = 0;
    assert(ps.take(0) =~= Seq::<(Seq<char>, Seq<char>)>::empty());
    while i < queries.len()
        invariant
            i <= queries@.len(),
            ps == pair_views(queries@),
            strings(out@) == wanted_rows(ps.take(i as int), strings(ids@)),
        decreases queries.len() - i,
    {
        proof {
            let t = ps.take(i + 1);
            assert(t.drop_last() =~= ps.take(i as int));
            assert(t.last() == (queries@[i as int].0@, queries@[i as int].1@));
        }
        if listed(&ids, &queries[i].0) {
            let row = materialized_query_row(queries[i].0.as_str(), queries[i].1.as_str());
            out.push(row);
            proof {
                assert(strings(out@) =~= wanted_rows(ps.take(i as int), strings(ids@)).push(
                    query_row_spec(queries@[i as int].0@, queries@[i as int].1@),
                ));
            }
        }
        i += 1;
    }
    assert(ps.take(queries@.len() as int) =~= ps);
    Ok(out)
}

/// The file name a materialized document is written to: its sanitized id
/// with `.txt` appended.
pub fn materialized_file_name(id: &str) -> (r: String)
    ensures
        r@ == sanitize_spec(id@) + ".txt"@,
{
    let mut chars = chars_of(sanitize_doc_id(id).as_str());
    extend_str(&mut chars, ".txt");
    string_of(chars.as_slice())
}

/// What materializing SciFact under `output_dir` reports: the number of
/// documents and of test queries written.
pub fn scifact_materialization_summary(artifacts: usize, test_queries: usize, output_dir: &str) -> (r: MaterializationSummary)
    ensures
        r.dataset@ == "scifact"@,
        r.artifacts == artifacts,
        r.test_queries == test_queries,
        r.output_dir@ == output_dir@,
{
    MaterializationSummary {
        dataset: "scifact".to_owned(),
        artifacts,
        test_queries,
        output_dir: output_dir.to_owned(),
    }
}

} // verus!
