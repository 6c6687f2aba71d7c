//! Lexical search: tokens and term counts of documents, result snippets,
//! benchmark metadata files, and the loaded corpus in identifier order.
use vstd::prelude::*;
use vstd::utf8::encode_utf8;
use crate::dense::DenseModelSpec;
use crate::extract::{ExtractedDocument, SourceKind};
use crate::order::{compare_chars, lemma_text_order_basics, lemma_text_order_trans, text_order};
use crate::paths::{
    components, components_of, extension_spec, file_stem_chars, file_stem_spec, strip_prefix_chars, strip_prefix_spec, views,
};
use crate::perm::{is_permutation, lemma_occ_index, lemma_occ_le_len, lemma_occ_push, lemma_occ_remove, occ};
use crate::text::{
    char_is_alphanumeric, char_is_whitespace, char_seqs, char_to_lowercase, chars_eq, chars_of, extend_chars,
    string_of, unicode_alphanumeric, unicode_lowercase, unicode_whitespace,
};

verus! {

/// How many results a search returns when no limit is given.
pub const DEFAULT_RESULT_LIMIT: usize = 10;

/// How many lexical candidates the hybrid engine reranks by default.
pub const DEFAULT_HYBRID_SHORTLIST: usize = 8;

/// How many characters of a document a result snippet shows.
pub const SNIPPET_LIMIT: usize = 160;

/// The ranking engine of a search.
#[derive(Debug, Clone, Copy, PartialEq, Eq, Structural)]
pub enum Engine {
    Bm25,
    Hybrid,
}

/// How search results are printed.
#[derive(Debug, Clone, Copy, PartialEq, Eq, Structural)]
pub enum OutputFormat {
    Text,
    Json,
}

/// The name of an engine.
pub open spec fn engine_label(e: Engine) -> Seq<char> {
    match e {
        Engine::Bm25 => "bm25"@,
        Engine::Hybrid => "hybrid"@,
    }
}

impl Engine {
    /// The engine's name: `bm25` or `hybrid`.
    pub fn label(self) -> (r: &'static str)
        ensures
            r@ == engine_label(self),
    {
        match self {
            Engine::Bm25 => "bm25",
            Engine::Hybrid => "hybrid",
        }
    }
}

/// One search over a file or directory.
#[derive(Debug, Clone)]
pub struct SearchRequest {
    pub engine: Engine,
    pub query: String,
    pub path: String,
    pub limit: usize,
    pub shortlist: usize,
    pub dense_model: DenseModelSpec,
}

/// An indexed document: where it came from, its text, and how often each of
/// its terms occurs (each term listed once).
#[derive(Debug, Clone)]
pub struct Document {
    pub id: String,
    pub path: String,
    pub source_kind: SourceKind,
    pub length: usize,
    pub terms: Vec<(String, usize)>,
    pub text: String,
}

/// The documents of a search root and what loading them came to.
#[derive(Debug, Clone)]
pub struct LoadedCorpus {
    pub documents: Vec<Document>,
    pub total_bytes: u64,
    pub indexed_files: usize,
    pub skipped_files: usize,
}

impl Document {
    /// The document's text.
    pub fn text(&self) -> (r: &str)
        ensures
            r@ == self.text@,
    {
        self.text.as_str()
    }
}

/// Which characters make up a run: alphanumerics for tokens, anything but
/// white space for words.
pub open spec fn keep_fn(alnum: bool) -> spec_fn(char) -> bool {
    |c: char| if alnum { unicode_alphanumeric(c) } else { !unicode_whitespace(c) }
}

/// The maximal runs of consecutive characters of `s` that `keep` accepts, in
/// order.
pub open spec fn runs(s: Seq<char>, keep: spec_fn(char) -> bool) -> Seq<Seq<char>>
    decreases s.len(),
{
    if s.len() == 0 {
        Seq::empty()
    } else {
        let r = runs(s.drop_last(), keep);
        let c = s.last();
        if !keep(c) {
            r
        } else if s.len() >= 2 && keep(s[s.len() - 2]) {
            r.update(r.len() - 1, r.last().push(c))
        } else {
            r.push(seq![c])
        }
    }
}

/// The lowercase form of a word, character by character.
pub open spec fn lower_all(w: Seq<char>) -> Seq<char>
    decreases w.len(),
{
    if w.len() == 0 {
        Seq::empty()
    } else {
        lower_all(w.drop_last()) + unicode_lowercase(w.last())
    }
}

/// The tokens of a text: its maximal alphanumeric runs, lowercased.
pub open spec fn tokens_spec(s: Seq<char>) -> Seq<Seq<char>> {
    runs(s, keep_fn(true)).map_values(|w: Seq<char>| lower_all(w))
}

/// The words of a text: its maximal runs without white space.
pub open spec fn words_spec(s: Seq<char>) -> Seq<Seq<char>> {
    runs(s, keep_fn(false))
}

/// Words joined by single spaces.
pub open spec fn join_words(ws: Seq<Seq<char>>) -> Seq<char>
    decreases ws.len(),
{
    if ws.len() == 0 {
        Seq::empty()
    } else if ws.len() == 1 {
        ws[0]
    } else {
        join_words(ws.drop_last()) + seq![' '] + ws.last()
    }
}

/// A result snippet: the text with its white space collapsed to single
/// spaces, cut to 160 characters, with `...` when something was cut.
pub open spec fn snippet_spec(text: Seq<char>) -> Seq<char> {
    let c = join_words(words_spec(text));
    if c.len() > SNIPPET_LIMIT {
        c.take(SNIPPET_LIMIT as int) + "..."@
    } else {
        c
    }
}

/// The views of a sequence of strings.
pub open spec fn strings(v: Seq<String>) -> Seq<Seq<char>> {
    v.map_values(|s: String| s@)
}

/// The run that ends with a kept last character exists.
pub proof fn lemma_runs_nonempty(s: Seq<char>, keep: spec_fn(char) -> bool)
    requires
        s.len() > 0,
        keep(s.last()),
    ensures
        runs(s, keep).len() > 0,
    decreases s.len(),
{
    if s.len() >= 2 && keep(s[s.len() - 2]) {
        assert(s.drop_last().last() == s[s.len() - 2]);
        lemma_runs_nonempty(s.drop_last(), keep);
    }
}

/// Whether `c` belongs to a run.
fn keeps(alnum: bool, c: char) -> (r: bool)
    ensures
        r == keep_fn(alnum)(c),
{
    if alnum {
        char_is_alphanumeric(c)
    } else {
        !char_is_whitespace(c)
    }
}

/// The maximal runs of `s`: alphanumeric ones when `alnum`, else the ones
/// without white space.
fn runs_of(s: &[char], alnum: bool) -> (r: Vec<Vec<char>>)
    ensures
        char_seqs(r@) == runs(s@, keep_fn(alnum)),
{
    let mut r: Vec<Vec<char>> = Vec::new();
    let mut prev_kept = false;
    let mut i: usize = 0;
    assert(s@.take(0) =~= Seq::<char>::empty());
    while i < s.len()
        invariant
            i <= s.len(),
            char_seqs(r@) == runs(s@.take(i as int), keep_fn(alnum)),
            prev_kept == (i > 0 && keep_fn(alnum)(s@[i - 1])),
        decreases s.len() - i,
    {
        let c = s[i];
        let k = keeps(alnum, c);
        let ghost t = s@.take(i + 1);
        proof {
            assert(t.drop_last() =~= s@.take(i as int));
            assert(t.last() == c);
            if i > 0 {
                assert(t[t.len() - 2] == s@[i - 1]);
            }
        }
        if k {
            if prev_kept {
                proof {
                    lemma_runs_nonempty(s@.take(i as int), keep_fn(alnum));
                    assert(s@.take(i as int).last() == s@[i - 1]);
                }
                let ghost before = r@;
                let mut last = r.pop().unwrap();
                last.push(c);
                r.push(last);
                proof {
                    assert(char_seqs(r@) =~= char_seqs(before).update(before.len() - 1, char_seqs(before).last().push(c)));
                }
            } else {
                let mut run: Vec<char> = Vec::new();
                run.push(c);
                let ghost before = r@;
                r.push(run);
                proof {
                    assert(run@ =~= seq![c]);
                    assert(char_seqs(r@) =~= char_seqs(before).push(seq![c]));
                }
            }
        }
        prev_kept = k;
        i += 1;
    }
    assert(s@.take(s@.len() as int) =~= s@);
    r
}

/// The lowercase form of a word.
fn lower_word(w: &[char]) -> (r: Vec<char>)
    ensures
        r@ == lower_all(w@),
{
    let mut r: Vec<char> = Vec::new();
    let mut i: usize = 0;
    assert(w@.take(0) =~= Seq::<char>::empty());
    while i < w.len()
        invariant
            i <= w.len(),
            r@ == lower_all(w@.take(i as int)),
        decreases w.len() - i,
    {
        let l = char_to_lowercase(w[i]);
        extend_chars(&mut r, l.as_slice());
        proof {
            let t = w@.take(i + 1);
            assert(t.drop_last() =~= w@.take(i as int));
            assert(t.last() == w@[i as int]);
        }
        i += 1;
    }
    assert(w@.take(w@.len() as int) =~= w@);
    r
}

/// The tokens of a text: every maximal run of alphanumeric characters,
/// lowercased, in order.
pub fn tokenize(text: &str) -> (r: Vec<String>)
    ensures
        strings(r@) == tokens_spec(text@),
{
    let chars = chars_of(text);
    let words = runs_of(chars.as_slice(), true);
    let ghost ws = char_seqs(words@);
    let mut r: Vec<String> = Vec::new();
    let mut i: usize = 0;
    while i < words.len()
        invariant
            i <= words.len(),
            ws == char_seqs(words@),
            ws == runs(text@, keep_fn(true)),
            strings(r@) == ws.take(i as int).map_values(|w: Seq<char>| lower_all(w)),
        decreases words.len() - i,
    {
        let l = lower_word(words[i].as_slice());
        let ghost before = r@;
        r.push(string_of(l.as_slice()));
        proof {
            assert(ws[i as int] == words@[i as int]@);
            assert(strings(r@) =~= strings(before).push(lower_all(ws[i as int])));
            assert(ws.take(i + 1).map_values(|w: Seq<char>| lower_all(w)) =~= ws.take(i as int).map_values(
                |w: Seq<char>| lower_all(w),
            ).push(lower_all(ws[i as int])));
        }
        i += 1;
    }
    assert(ws.take(ws.len() as int) =~= ws);
    r
}

/// Words joined by single spaces.
fn join_words_of(ws: &[Vec<char>]) -> (r: Vec<char>)
    ensures
        r@ == join_words(char_seqs(ws@)),
{
    let mut r: Vec<char> = Vec::new();
    let mut i: usize = 0;
    let ghost w = char_seqs(ws@);
    assert(w.take(0) =~= Seq::<Seq<char>>::empty());
    while i < ws.len()
        invariant
            i <= ws.len(),
            w == char_seqs(ws@),
            r@ == join_words(w.take(i as int)),
        decreases ws.len() - i,
    {
        if i > 0 {
            r.push(' ');
        }
        extend_chars(&mut r, ws[i].as_slice());
        proof {
            let t = w.take(i + 1);
            assert(t.drop_last() =~= w.take(i as int));
            assert(t.last() == ws@[i as int]@);
            if i == 0 {
                assert(r@ =~= t[0]);
            } else {
                assert(r@ =~= join_words(w.take(i as int)) + seq![' '] + t.last());
            }
        }
        i += 1;
    }
    assert(w.take(w.len() as int) =~= w);
    r
}

/// A result snippet of a document's text: white space collapsed to single
/// spaces, at most 160 characters, and `...` after a cut.
pub fn build_snippet(text: &str) -> (r: String)
    ensures
        r@ == snippet_spec(text@),
        r@.len() <= SNIPPET_LIMIT + 3,
{
    proof {
        reveal_strlit("...");
    }
    let chars = chars_of(text);
    let words = runs_of(chars.as_slice(), false);
    let collapsed = join_words_of(words.as_slice());
    if collapsed.len() <= SNIPPET_LIMIT {
        return string_of(collapsed.as_slice());
    }
    let mut out: Vec<char> = Vec::new();
    let mut i: usize = 0;
    while i < SNIPPET_LIMIT
        invariant
            i <= SNIPPET_LIMIT < collapsed.len(),
            out@ == collapsed@.take(i as int),
        decreases SNIPPET_LIMIT - i,
    {
        out.push(collapsed[i]);
        assert(out@ =~= collapsed@.take(i + 1));
        i += 1;
    }
    let dots = chars_of("...");
    extend_chars(&mut out, dots.as_slice());
    string_of(out.as_slice())
}

/// Whether `terms` lists each distinct token of `tokens` once, with how
/// often it occurs, and nothing else.
pub open spec fn counts_tokens(terms: Seq<(String, usize)>, tokens: Seq<Seq<char>>) -> bool {
    &&& forall|i: int, j: int| 0 <= i < j < terms.len() ==> #[trigger] terms[i].0@ != #[trigger] terms[j].0@
    &&& forall|i: int|
        0 <= i < terms.len() ==> #[trigger] terms[i].1 == occ(tokens, terms[i].0@) && occ(tokens, terms[i].0@) > 0
    &&& forall|k: int|
        0 <= k < tokens.len() ==> exists|j: int| 0 <= j < terms.len() && #[trigger] terms[j].0@ == #[trigger] tokens[k]
}

/// What a document indexed from `id`, `path` and `extracted` holds: the
/// same identity and text, the counts of its tokens, and as its length the
/// number of tokens.
pub open spec fn indexed_from(d: Document, id: String, path: String, extracted: ExtractedDocument) -> bool {
    &&& d.id == id
    &&& d.path == path
    &&& d.source_kind == extracted.source_kind
    &&& d.text == extracted.text
    &&& counts_tokens(d.terms@, tokens_spec(extracted.text@))
    &&& d.length == tokens_spec(extracted.text@).len()
}

/// The position of the term `t` in `terms`, if it is listed.
fn find_term(terms: &Vec<(String, usize)>, t: &String) -> (r: Option<usize>)
    ensures
        match r {
            Some(j) => j < terms@.len() && terms@[j as int].0@ == t@,
            None => forall|j: int| 0 <= j < terms@.len() ==> #[trigger] terms@[j].0@ != t@,
        },
{
    let mut j: usize = 0;
    while j < terms.len()
        invariant
            j <= terms@.len(),
            forall|q: int| 0 <= q < j ==> #[trigger] terms@[q].0@ != t@,
        decreases terms.len() - j,
    {
        if terms[j].0 == *t {
            return Some(j);
        }
        j += 1;
    }
    None
}

/// How often each distinct token occurs, each listed once in order of first
/// occurrence.
#[verifier::spinoff_prover]
pub fn count_terms(tokens: &Vec<String>) -> (r: Vec<(String, usize)>)
    ensures
        counts_tokens(r@, strings(tokens@)),
{
    let ghost toks = strings(tokens@);
    let mut terms: Vec<(String, usize)> = Vec::new();
    let mut i: usize = 0;
    assert(toks.take(0) =~= Seq::<Seq<char>>::empty());
    while i < tokens.len()
        invariant
            i <= tokens@.len(),
            toks == strings(tokens@),
            counts_tokens(terms@, toks.take(i as int)),
        decreases tokens.len() - i,
    {
        let t = &tokens[i];
        let ghost p = toks.take(i as int);
        let ghost p2 = toks.take(i + 1);
        proof {
            assert(p2 =~= p.push(t@));
            assert(toks[i as int] == t@);
        }
        let ghost old_terms = terms@;
        match find_term(&terms, t) {
            Some(j) => {
                let c = terms[j].1;
                proof {
                    lemma_occ_le_len(p, t@);
                }
                let key = terms[j].0.clone();
                terms.set(j, (key, c + 1));
                proof {
                    assert forall|q: int| 0 <= q < terms@.len() implies #[trigger] terms@[q].1 == occ(p2, terms@[q].0@)
                        && occ(p2, terms@[q].0@) > 0 by {
                        lemma_occ_push(p, t@, terms@[q].0@);
                        if q != j {
                            assert(terms@[q] == old_terms[q]);
                            assert(old_terms[q].0@ != old_terms[j as int].0@);
                            assert(old_terms[q].1 == occ(p, old_terms[q].0@));
                        } else {
                            assert(old_terms[j as int].1 == occ(p, old_terms[j as int].0@));
                            assert(terms@[q].1 == old_terms[j as int].1 + 1);
                        }
                    }
                    assert forall|k: int| 0 <= k < p2.len() implies exists|q: int|
                        0 <= q < terms@.len() && #[trigger] terms@[q].0@ == #[trigger] p2[k] by {
                        if k < i {
                            assert(p2[k] == p[k]);
                            let q = choose|q: int| 0 <= q < old_terms.len() && #[trigger] old_terms[q].0@ == p[k];
                            assert(terms@[q].0@ == old_terms[q].0@);
                        } else {
                            assert(terms@[j as int].0@ == p2[k]);
                        }
                    }
                    assert forall|a: int, b: int| 0 <= a < b < terms@.len() implies #[trigger] terms@[a].0@
                        != #[trigger] terms@[b].0@ by {
                        assert(terms@[a].0@ == old_terms[a].0@);
                        assert(terms@[b].0@ == old_terms[b].0@);
                    }
                }
            },
            None => {
                proof {
                    if occ(p, t@) > 0 {
                        let k = lemma_occ_index(p, t@);
                        assert(p[k] == t@);
                        let q = choose|q: int| 0 <= q < old_terms.len() && #[trigger] old_terms[q].0@ == p[k];
                        assert(old_terms[q].0@ == t@);
                    }
                }
                terms.push((t.clone(), 1));
                proof {
                    assert forall|q: int| 0 <= q < terms@.len() implies #[trigger] terms@[q].1 == occ(p2, terms@[q].0@)
                        && occ(p2, terms@[q].0@) > 0 by {
                        lemma_occ_push(p, t@, terms@[q].0@);
                        if q < old_terms.len() {
                            assert(terms@[q] == old_terms[q]);
                            assert(old_terms[q].0@ != t@);
                        }
                    }
                    assert forall|k: int| 0 <= k < p2.len() implies exists|q: int|
                        0 <= q < terms@.len() && #[trigger] terms@[q].0@ == #[trigger] p2[k] by {
                        if k < i {
                            assert(p2[k] == p[k]);
                            let q = choose|q: int| 0 <= q < old_terms.len() && #[trigger] old_terms[q].0@ == p[k];
                            assert(terms@[q].0@ == old_terms[q].0@);
                        } else {
                            assert(terms@[old_terms.len() as int].0@ == p2[k]);
                        }
                    }
                    assert forall|a: int, b: int| 0 <= a < b < terms@.len() implies #[trigger] terms@[a].0@
                        != #[trigger] terms@[b].0@ by {
                        assert(terms@[a] == old_terms[a]);
                        if b < old_terms.len() {
                            assert(terms@[b] == old_terms[b]);
                        }
                    }
                }
            },
        }
        i += 1;
    }
    assert(toks.take(toks.len() as int) =~= toks);
    terms
}

/// Indexes extracted text as a document: its tokens are counted, and its
/// length is the number of tokens.
pub fn index_document(id: String, path: String, extracted: ExtractedDocument) -> (d: Document)
    ensures
        indexed_from(d, id, path, extracted),
{
    let tokens = tokenize(extracted.text.as_str());
    let terms = count_terms(&tokens);
    let length = tokens.len();
    proof {
        assert(strings(tokens@).len() == tokens@.len());
    }
    Document {
        id,
        path,
        source_kind: extracted.source_kind,
        length,
        terms,
        text: extracted.text,
    }
}

/// The size of a text in bytes, encoded as UTF-8.
pub open spec fn byte_len(text: Seq<char>) -> nat {
    encode_utf8(text).len()
}

/// Whether adding one extraction outcome keeps the running counts of a
/// corpus being gathered in range (a text held in memory has a size that
/// fits in `usize`).
pub open spec fn gathering_fits(extracted: Option<ExtractedDocument>, total_bytes: u64, skipped_files: usize) -> bool {
    match extracted {
        Some(e) => byte_len(e.text@) <= usize::MAX && total_bytes + byte_len(e.text@) <= u64::MAX,
        None => skipped_files < usize::MAX,
    }
}

/// Adds the outcome of extracting the file at `path` to a corpus being
/// gathered, the path serving as identifier. A file that gave no text, or
/// could not be read (`None`), counts as skipped; a text adds its size in
/// bytes and the document indexed from it.
pub fn collect_search_file(
    path: String,
    extracted: Option<ExtractedDocument>,
    documents: &mut Vec<Document>,
    total_bytes: &mut u64,
    skipped_files: &mut usize,
)
    requires
        gathering_fits(extracted, *old(total_bytes), *old(skipped_files)),
    ensures
        match extracted {
            Some(e) => {
                &&& final(documents)@.len() == old(documents)@.len() + 1
                &&& final(documents)@.drop_last() == old(documents)@
                &&& indexed_from(final(documents)@.last(), path, path, e)
                &&& *final(total_bytes) == *old(total_bytes) + byte_len(e.text@)
                &&& *final(skipped_files) == *old(skipped_files)
            },
            None => {
                &&& final(documents)@ == old(documents)@
                &&& *final(total_bytes) == *old(total_bytes)
                &&& *final(skipped_files) == *old(skipped_files) + 1
            },
        },
{
    match extracted {
        Some(e) => {
            let size = e.text.as_str().len();
            *total_bytes = *total_bytes + size as u64;
            let id = path.clone();
            let d = index_document(id, path, e);
            documents.push(d);
            proof {
                assert(documents@.drop_last() =~= old(documents)@);
            }
        },
        None => {
            *skipped_files = *skipped_files + 1;
        },
    }
}

/// Adds the outcome of extracting the file at `path` to a materialized
/// corpus being gathered, the file's stem serving as identifier. A file
/// that gave no text, could not be read (`None`), or has no file name
/// counts as skipped; otherwise its text adds its size in bytes and the
/// document indexed from it.
pub fn collect_materialized_file(
    path: String,
    extracted: Option<ExtractedDocument>,
    documents: &mut Vec<Document>,
    total_bytes: &mut u64,
    skipped_files: &mut usize,
)
    requires
        gathering_fits(extracted, *old(total_bytes), *old(skipped_files)),
        file_stem_spec(path@) is None ==> *old(skipped_files) < usize::MAX,
    ensures
        match (extracted, file_stem_spec(path@)) {
            (Some(e), Some(stem)) => {
                &&& final(documents)@.len() == old(documents)@.len() + 1
                &&& final(documents)@.drop_last() == old(documents)@
                &&& final(documents)@.last().id@ == stem
                &&& indexed_from(final(documents)@.last(), final(documents)@.last().id, path, e)
                &&& *final(total_bytes) == *old(total_bytes) + byte_len(e.text@)
                &&& *final(skipped_files) == *old(skipped_files)
            },
            _ => {
                &&& final(documents)@ == old(documents)@
                &&& *final(total_bytes) == *old(total_bytes)
                &&& *final(skipped_files) == *old(skipped_files) + 1
            },
        },
{
    let e = match extracted {
        Some(e) => e,
        None => {
            *skipped_files = *skipped_files + 1;
            return;
        },
    };
    let chars = chars_of(path.as_str());
    let stem = match file_stem_chars(chars.as_slice()) {
        Some(stem) => stem,
        None => {
            *skipped_files = *skipped_files + 1;
            return;
        },
    };
    let id = string_of(stem.as_slice());
    let size = e.text.as_str().len();
    *total_bytes = *total_bytes + size as u64;
    let d = index_document(id, path, e);
    documents.push(d);
    proof {
        assert(documents@.drop_last() =~= old(documents)@);
    }
}

/// Whether documents stand in identifier order.
pub open spec fn sorted_by_id(docs: Seq<Document>) -> bool {
    forall|a: int, b: int| 0 <= a < b < docs.len() ==> text_order(#[trigger] docs[a].id@, #[trigger] docs[b].id@) <= 0
}

/// `docs` with `d` placed after the last document whose identifier orders
/// before or equal to its own.
pub open spec fn insert_by_id(docs: Seq<Document>, d: Document) -> Seq<Document>
    decreases docs.len(),
{
    if docs.len() == 0 {
        seq![d]
    } else if text_order(docs.last().id@, d.id@) <= 0 {
        docs.push(d)
    } else {
        insert_by_id(docs.drop_last(), d).push(docs.last())
    }
}

/// Documents in identifier order, those with equal identifiers in the order
/// given.
pub open spec fn sort_by_id(docs: Seq<Document>) -> Seq<Document>
    decreases docs.len(),
{
    if docs.len() == 0 {
        Seq::empty()
    } else {
        insert_by_id(sort_by_id(docs.drop_last()), docs.last())
    }
}

/// Placing a document into an ordered list keeps it ordered and adds just
/// that document.
proof fn lemma_insert_by_id(s: Seq<Document>, d: Document)
    requires
        sorted_by_id(s),
    ensures
        sorted_by_id(insert_by_id(s, d)),
        forall|x: Document| #[trigger] occ(insert_by_id(s, d), x) == occ(s, x) + if d == x { 1nat } else { 0nat },
        insert_by_id(s, d).len() == s.len() + 1,
        forall|i: int| 0 <= i < insert_by_id(s, d).len() ==> (#[trigger] insert_by_id(s, d)[i] == d
            || exists|j: int| 0 <= j < s.len() && s[j] == insert_by_id(s, d)[i]),
    decreases s.len(),
{
    let r = insert_by_id(s, d);
    if s.len() == 0 {
        assert(r =~= Seq::<Document>::empty().push(d));
        assert forall|x: Document| #[trigger] occ(r, x) == occ(s, x) + if d == x { 1nat } else { 0nat } by {
            lemma_occ_push(Seq::<Document>::empty(), d, x);
            assert(s =~= Seq::<Document>::empty());
        }
    } else if text_order(s.last().id@, d.id@) <= 0 {
        assert forall|x: Document| #[trigger] occ(r, x) == occ(s, x) + if d == x { 1nat } else { 0nat } by {
            lemma_occ_push(s, d, x);
        }
        assert forall|i: int, j: int| 0 <= i < j < r.len() implies text_order(#[trigger] r[i].id@, #[trigger] r[j].id@) <= 0 by {
            if j == s.len() {
                if i < s.len() - 1 {
                    assert(text_order(s[i].id@, s.last().id@) <= 0);
                    lemma_text_order_trans(s[i].id@, s.last().id@, d.id@);
                }
            } else {
                assert(r[i] == s[i] && r[j] == s[j]);
            }
        }
        assert forall|i: int| 0 <= i < r.len() implies (#[trigger] r[i] == d || exists|j: int|
            0 <= j < s.len() && s[j] == r[i]) by {
            if i < s.len() {
                assert(s[i] == r[i]);
            }
        }
    } else {
        let sd = s.drop_last();
        let last = s.last();
        assert(sorted_by_id(sd)) by {
            assert forall|i: int, j: int| 0 <= i < j < sd.len() implies text_order(#[trigger] sd[i].id@, #[trigger] sd[j].id@)
                <= 0 by {
                assert(sd[i] == s[i] && sd[j] == s[j]);
            }
        }
        lemma_insert_by_id(sd, d);
        let t = insert_by_id(sd, d);
        assert(r == t.push(last));
        assert forall|x: Document| #[trigger] occ(r, x) == occ(s, x) + if d == x { 1nat } else { 0nat } by {
            lemma_occ_push(t, last, x);
            lemma_occ_push(sd, last, x);
            assert(s =~= sd.push(last));
        }
        lemma_text_order_basics(last.id@, d.id@);
        assert forall|i: int, j: int| 0 <= i < j < r.len() implies text_order(#[trigger] r[i].id@, #[trigger] r[j].id@) <= 0 by {
            if j == r.len() - 1 {
                assert(r[j] == last);
                assert(r[i] == t[i]);
                if t[i] != d {
                    let k = choose|k: int| 0 <= k < sd.len() && sd[k] == t[i];
                    assert(text_order(s[k].id@, s.last().id@) <= 0);
                }
            } else {
                assert(r[i] == t[i] && r[j] == t[j]);
            }
        }
        assert forall|i: int| 0 <= i < r.len() implies (#[trigger] r[i] == d || exists|j: int|
            0 <= j < s.len() && s[j] == r[i]) by {
            if i < t.len() {
                assert(r[i] == t[i]);
                if t[i] != d {
                    let k = choose|k: int| 0 <= k < sd.len() && sd[k] == t[i];
                    assert(s[k] == sd[k]);
                }
            } else {
                assert(s[s.len() - 1] == r[i]);
            }
        }
    }
}

/// The ordered arrangement is ordered and holds the documents given.
pub proof fn lemma_sort_by_id(docs: Seq<Document>)
    ensures
        sorted_by_id(sort_by_id(docs)),
        is_permutation(sort_by_id(docs), docs),
    decreases docs.len(),
{
    if docs.len() > 0 {
        lemma_sort_by_id(docs.drop_last());
        lemma_insert_by_id(sort_by_id(docs.drop_last()), docs.last());
        assert forall|x: Document| #[trigger] occ(sort_by_id(docs), x) == occ(docs, x) by {
            assert(occ(sort_by_id(docs.drop_last()), x) == occ(docs.drop_last(), x));
        }
    }
}

/// In an ordered list, placing `d` after the last document that does not
/// order after it is inserting it at the first document that does.
proof fn lemma_insert_by_id_at(s: Seq<Document>, d: Document, p: int)
    requires
        sorted_by_id(s),
        0 <= p <= s.len(),
        forall|q: int| 0 <= q < p ==> text_order(#[trigger] s[q].id@, d.id@) <= 0,
        p < s.len() ==> text_order(s[p].id@, d.id@) > 0,
    ensures
        insert_by_id(s, d) == s.insert(p, d),
    decreases s.len(),
{
    if s.len() == 0 {
        assert(s.insert(p, d) =~= seq![d]);
    } else if text_order(s.last().id@, d.id@) <= 0 {
        if p < s.len() {
            if p < s.len() - 1 {
                assert(text_order(s[p].id@, s.last().id@) <= 0);
                lemma_text_order_trans(s[p].id@, s.last().id@, d.id@);
            }
        }
        assert(s.insert(p, d) =~= s.push(d));
    } else {
        let sd = s.drop_last();
        if p == s.len() {
            assert(text_order(s[s.len() - 1].id@, d.id@) <= 0);
        }
        assert(sorted_by_id(sd)) by {
            assert forall|i: int, j: int| 0 <= i < j < sd.len() implies text_order(#[trigger] sd[i].id@, #[trigger] sd[j].id@)
                <= 0 by {
                assert(sd[i] == s[i] && sd[j] == s[j]);
            }
        }
        assert forall|q: int| 0 <= q < p implies text_order(#[trigger] sd[q].id@, d.id@) <= 0 by {
            assert(sd[q] == s[q]);
        }
        if p < sd.len() {
            assert(sd[p] == s[p]);
        }
        lemma_insert_by_id_at(sd, d, p);
        assert(s.insert(p, d) =~= sd.insert(p, d).push(s.last()));
    }
}

/// The first position in `docs` whose identifier orders after `key`.
fn first_after(docs: &Vec<Document>, key: &[char]) -> (p: usize)
    ensures
        p <= docs@.len(),
        forall|q: int| 0 <= q < p ==> text_order(#[trigger] docs@[q].id@, key@) <= 0,
        p < docs@.len() ==> text_order(docs@[p as int].id@, key@) > 0,
{
    let mut p: usize = 0;
    while p < docs.len()
        invariant
            p <= docs@.len(),
            forall|q: int| 0 <= q < p ==> text_order(#[trigger] docs@[q].id@, key@) <= 0,
        decreases docs.len() - p,
    {
        let id = chars_of(docs[p].id.as_str());
        let c = compare_chars(id.as_slice(), key);
        if c > 0 {
            return p;
        }
        p += 1;
    }
    p
}

impl LoadedCorpus {
    /// A corpus of `documents` in identifier order (documents with equal
    /// identifiers keep their order), with the byte count and skip count
    /// that loading them came to; every document is indexed.
    pub fn from_documents(documents: Vec<Document>, total_bytes: u64, skipped_files: usize) -> (r: LoadedCorpus)
        ensures
            r.documents@ == sort_by_id(documents@),
            sorted_by_id(r.documents@),
            is_permutation(r.documents@, documents@),
            r.total_bytes == total_bytes,
            r.skipped_files == skipped_files,
            r.indexed_files == r.documents@.len(),
    {
        let ghost given = documents@;
        let mut rest = documents;
        let mut out: Vec<Document> = Vec::new();
        let mut k: usize = 0;
        let n: usize = rest.len();
        proof {
            assert(given.take(0) =~= Seq::<Document>::empty());
            assert(given.skip(0) =~= given);
        }
        while rest.len() > 0
            invariant
                k <= given.len() == n,
                rest@ == given.skip(k as int),
                out@ == sort_by_id(given.take(k as int)),
            decreases rest@.len(),
        {
            assert(given.skip(k as int).len() == given.len() - k);
            let d = rest.remove(0);
            proof {
                assert(d == given[k as int]);
                assert(rest@ =~= given.skip(k + 1));
                assert(given.take(k + 1).drop_last() =~= given.take(k as int));
                assert(given.take(k + 1).last() == d);
                lemma_sort_by_id(given.take(k as int));
            }
            let key = chars_of(d.id.as_str());
            let p = first_after(&out, key.as_slice());
            proof {
                lemma_insert_by_id_at(out@, d, p as int);
            }
            out.insert(p, d);
            k += 1;
        }
        proof {
            assert(given.take(k as int) =~= given);
            lemma_sort_by_id(given);
        }
        let count = out.len();
        LoadedCorpus { documents: out, total_bytes, indexed_files: count, skipped_files }
    }

    /// The first document with identifier `id`.
    pub fn document_by_id(&self, id: &str) -> (r: Option<&Document>)
        ensures
            match r {
                Some(d) => exists|k: int|
                    0 <= k < self.documents@.len() && self.documents@[k] == *d && d.id@ == id@ && forall|q: int|
                        0 <= q < k ==> #[trigger] self.documents@[q].id@ != id@,
                None => forall|q: int| 0 <= q < self.documents@.len() ==> #[trigger] self.documents@[q].id@ != id@,
            },
    {
        let key = id.to_owned();
        let mut i: usize = 0;
        while i < self.documents.len()
            invariant
                i <= self.documents@.len(),
                key@ == id@,
                forall|q: int| 0 <= q < i ==> #[trigger] self.documents@[q].id@ != id@,
            decreases self.documents.len() - i,
        {
            if self.documents[i].id == key {
                return Some(&self.documents[i]);
            }
            i += 1;
        }
        None
    }
}

/// Whether a file under a benchmark root is benchmark metadata rather than a
/// document: a `.tsv` file, or anything inside a `qrels` directory of the
/// root.
pub open spec fn benchmark_metadata(root: Seq<char>, path: Seq<char>) -> bool {
    extension_spec(path) == Some("tsv"@) || match strip_prefix_spec(path, root) {
        Some(rel) => components(rel).contains("qrels"@),
        None => false,
    }
}

/// Whether a file under a benchmark root is benchmark metadata: a `.tsv`
/// file, or anything inside a `qrels` directory of the root.
pub fn is_benchmark_metadata_file(root: &str, path: &str) -> (r: bool)
    ensures
        r == benchmark_metadata(root@, path@),
{
    let p = chars_of(path);
    let tsv = chars_of("tsv");
    let is_tsv = match crate::paths::extension_chars(p.as_slice()) {
        Some(e) => chars_eq(e.as_slice(), tsv.as_slice()),
        None => false,
    };
    if is_tsv {
        return true;
    }
    let r = chars_of(root);
    let rel = match strip_prefix_chars(p.as_slice(), r.as_slice()) {
        Some(rel) => rel,
        None => return false,
    };
    let comps = components_of(rel.as_slice());
    let qrels = chars_of("qrels");
    let mut i: usize = 0;
    while i < comps.len()
        invariant
            i <= comps@.len(),
            views(comps@) == components(rel@),
            qrels@ == "qrels"@,
            extension_spec(path@) != Some("tsv"@),
            strip_prefix_spec(path@, root@) == Some(rel@),
            forall|q: int| 0 <= q < i ==> #[trigger] views(comps@)[q] != "qrels"@,
        decreases comps.len() - i,
    {
        proof {
            assert(views(comps@)[i as int] == comps@[i as int]@);
        }
        if chars_eq(comps[i].as_slice(), qrels.as_slice()) {
            assert(components(rel@)[i as int] == "qrels"@);
            return true;
        }
        i += 1;
    }
    false
}

/// Whether a document lists each of its terms once.
pub open spec fn terms_distinct(d: Document) -> bool {
    forall|i: int, j: int| 0 <= i < j < d.terms@.len() ==> #[trigger] d.terms@[i].0@ != #[trigger] d.terms@[j].0@
}

/// Whether a document lists term `t`.
pub open spec fn has_term(d: Document, t: Seq<char>) -> bool {
    exists|j: int| 0 <= j < d.terms@.len() && #[trigger] d.terms@[j].0@ == t
}

/// How many of `docs` list term `t`.
pub open spec fn doc_count(docs: Seq<Document>, t: Seq<char>) -> nat
    decreases docs.len(),
{
    if docs.len() == 0 {
        0
    } else {
        doc_count(docs.drop_last(), t) + if has_term(docs.last(), t) { 1nat } else { 0nat }
    }
}

/// Whether `df` lists term `t`.
pub open spec fn covers(df: Seq<(String, usize)>, t: Seq<char>) -> bool {
    exists|i: int| 0 <= i < df.len() && #[trigger] df[i].0@ == t
}

/// Whether `df` lists each term of `docs` once, with the number of
/// documents that list it, and nothing else.
pub open spec fn counts_documents(df: Seq<(String, usize)>, docs: Seq<Document>) -> bool {
    &&& forall|i: int, j: int| 0 <= i < j < df.len() ==> #[trigger] df[i].0@ != #[trigger] df[j].0@
    &&& forall|i: int|
        0 <= i < df.len() ==> #[trigger] df[i].1 == doc_count(docs, df[i].0@) && doc_count(docs, df[i].0@) > 0
    &&& forall|k: int, j: int|
        0 <= k < docs.len() && 0 <= j < docs[k].terms@.len() ==> covers(df, #[trigger] docs[k].terms@[j].0@)
}

/// Keys kept in place stay listed.
proof fn lemma_covers_keep(old: Seq<(String, usize)>, new: Seq<(String, usize)>)
    requires
        old.len() <= new.len(),
        forall|a: int| 0 <= a < old.len() ==> #[trigger] new[a].0@ == old[a].0@,
    ensures
        forall|t: Seq<char>| #[trigger] covers(old, t) ==> covers(new, t),
{
    assert forall|t: Seq<char>| #[trigger] covers(old, t) implies covers(new, t) by {
        let i = choose|i: int| 0 <= i < old.len() && #[trigger] old[i].0@ == t;
        assert(new[i].0@ == old[i].0@);
    }
}

/// A term no document lists is counted by none.
proof fn lemma_doc_count_le(docs: Seq<Document>, t: Seq<char>)
    ensures
        doc_count(docs, t) <= docs.len(),
        doc_count(docs, t) > 0 ==> exists|k: int| 0 <= k < docs.len() && has_term(#[trigger] docs[k], t),
    decreases docs.len(),
{
    if docs.len() > 0 {
        lemma_doc_count_le(docs.drop_last(), t);
        if doc_count(docs.drop_last(), t) > 0 {
            let k = choose|k: int| 0 <= k < docs.drop_last().len() && has_term(#[trigger] docs.drop_last()[k], t);
            assert(docs[k] == docs.drop_last()[k]);
        }
        if has_term(docs.last(), t) {
            assert(docs[docs.len() - 1] == docs.last());
        }
    }
}

/// Whether one of the first `j` terms of `d` is `t`.
pub open spec fn listed_before(d: Document, j: int, t: Seq<char>) -> bool {
    exists|q: int| 0 <= q < j && #[trigger] d.terms@[q].0@ == t
}

/// One more term of a document.
proof fn lemma_listed_step(d: Document, j: int, t: Seq<char>)
    requires
        0 <= j < d.terms@.len(),
    ensures
        listed_before(d, j + 1, t) == (listed_before(d, j, t) || d.terms@[j].0@ == t),
{
    if listed_before(d, j + 1, t) && !listed_before(d, j, t) {
        let q = choose|q: int| 0 <= q < j + 1 && #[trigger] d.terms@[q].0@ == t;
        assert(q == j);
    }
}

/// In how many documents each term occurs: every term of every document
/// listed once, in order of first appearance.
pub fn document_frequencies(documents: &Vec<Document>) -> (r: Vec<(String, usize)>)
    requires
        forall|k: int| 0 <= k < documents@.len() ==> terms_distinct(#[trigger] documents@[k]),
    ensures
        counts_documents(r@, documents@),
{
    let ghost docs = documents@;
    let mut df: Vec<(String, usize)> = Vec::new();
    let mut k: usize = 0;
    let n: usize = documents.len();
    assert(docs.take(0) =~= Seq::<Document>::empty());
    while k < documents.len()
        invariant
            k <= docs.len(),
            docs.len() == n,
            docs == documents@,
            forall|q: int| 0 <= q < docs.len() ==> terms_distinct(#[trigger] docs[q]),
            counts_documents(df@, docs.take(k as int)),
        decreases documents.len() - k,
    {
        let d = &documents[k];
        let ghost prev = docs.take(k as int);
        let ghost next = docs.take(k + 1);
        proof {
            assert(next.drop_last() =~= prev);
            assert(next.last() == *d);
            assert forall|i: int| 0 <= i < df@.len() implies #[trigger] df@[i].1 == doc_count(prev, df@[i].0@)
                + (if listed_before(*d, 0, df@[i].0@) { 1nat } else { 0nat }) by {}
            assert forall|i: int| 0 <= i < df@.len() implies doc_count(prev, #[trigger] df@[i].0@) > 0 || listed_before(
                *d,
                0,
                df@[i].0@,
            ) by {
                assert(df@[i].1 == doc_count(prev, df@[i].0@));
            }
            assert forall|p: int, q: int| 0 <= p < prev.len() && 0 <= q < prev[p].terms@.len() implies covers(
                df@,
                #[trigger] prev[p].terms@[q].0@,
            ) by {
                assert(prev[p].terms@[q].0@ == docs.take(k as int)[p].terms@[q].0@);
            }
        }
        let mut j: usize = 0;
        while j < d.terms.len()
            invariant
                j <= d.terms@.len(),
                k < docs.len(),
                docs.len() == n,
                docs[k as int] == *d,
                terms_distinct(*d),
                prev == docs.take(k as int),
                prev.len() == k,
                forall|a: int, b: int| 0 <= a < b < df@.len() ==> #[trigger] df@[a].0@ != #[trigger] df@[b].0@,
                forall|i: int| 0 <= i < df@.len() ==> #[trigger] df@[i].1 == doc_count(prev, df@[i].0@) + (if listed_before(
                    *d,
                    j as int,
                    df@[i].0@,
                ) { 1nat } else { 0nat }),
                forall|i: int| 0 <= i < df@.len() ==> doc_count(prev, #[trigger] df@[i].0@) > 0 || listed_before(
                    *d,
                    j as int,
                    df@[i].0@,
                ),
                forall|p: int, q: int|
                    0 <= p < prev.len() && 0 <= q < prev[p].terms@.len() ==> covers(df@, #[trigger] prev[p].terms@[q].0@),
                forall|q: int| 0 <= q < j ==> covers(df@, #[trigger] d.terms@[q].0@),
            decreases d.terms.len() - j,
        {
            let t = &d.terms[j].0;
            let ghost tv = t@;
            proof {
                lemma_doc_count_le(prev, tv);
                assert forall|i: int| 0 <= i < df@.len() implies listed_before(*d, j + 1, #[trigger] df@[i].0@)
                    == (listed_before(*d, j as int, df@[i].0@) || tv == df@[i].0@) by {
                    lemma_listed_step(*d, j as int, df@[i].0@);
                }
            }
            let ghost old_df = df@;
            match find_term(&df, t) {
                Some(i) => {
                    let c = df[i].1;
                    proof {
                        if listed_before(*d, j as int, tv) {
                            let q = choose|q: int| 0 <= q < j && #[trigger] d.terms@[q].0@ == tv;
                            assert(d.terms@[q].0@ != d.terms@[j as int].0@);
                        }
                        assert(c == doc_count(prev, tv));
                    }
                    let key = df[i].0.clone();
                    df.set(i, (key, c + 1));
                    proof {
                        assert forall|a: int| 0 <= a < df@.len() implies #[trigger] df@[a].0@ == old_df[a].0@ by {}
                        assert forall|a: int, b: int| 0 <= a < b < df@.len() implies #[trigger] df@[a].0@
                            != #[trigger] df@[b].0@ by {
                            assert(df@[a].0@ == old_df[a].0@ && df@[b].0@ == old_df[b].0@);
                        }
                        assert forall|a: int| 0 <= a < df@.len() implies #[trigger] df@[a].1 == doc_count(prev, df@[a].0@)
                            + (if listed_before(*d, j + 1, df@[a].0@) { 1nat } else { 0nat }) by {
                            lemma_listed_step(*d, j as int, df@[a].0@);
                            if a != i {
                                assert(old_df[a].0@ != old_df[i as int].0@);
                                assert(df@[a] == old_df[a]);
                            }
                        }
                        assert forall|a: int| 0 <= a < df@.len() implies doc_count(prev, #[trigger] df@[a].0@) > 0
                            || listed_before(*d, j + 1, df@[a].0@) by {
                            lemma_listed_step(*d, j as int, df@[a].0@);
                            assert(df@[a].0@ == old_df[a].0@);
                        }
                        lemma_covers_keep(old_df, df@);
                        assert(covers(df@, tv)) by {
                            assert(df@[i as int].0@ == tv);
                        }
                    }
                },
                None => {
                    proof {
                        if doc_count(prev, tv) > 0 {
                            let p = choose|p: int| 0 <= p < prev.len() && has_term(#[trigger] prev[p], tv);
                            let q = choose|q: int| 0 <= q < prev[p].terms@.len() && #[trigger] prev[p].terms@[q].0@ == tv;
                            assert(covers(old_df, prev[p].terms@[q].0@));
                            let x = choose|x: int| 0 <= x < old_df.len() && #[trigger] old_df[x].0@ == tv;
                            assert(old_df[x].0@ == tv);
                        }
                        if listed_before(*d, j as int, tv) {
                            let q = choose|q: int| 0 <= q < j && #[trigger] d.terms@[q].0@ == tv;
                            assert(covers(old_df, d.terms@[q].0@));
                            let x = choose|x: int| 0 <= x < old_df.len() && #[trigger] old_df[x].0@ == tv;
                            assert(old_df[x].0@ == tv);
                        }
                        lemma_listed_step(*d, j as int, tv);
                    }
                    df.push((t.clone(), 1));
                    proof {
                        assert forall|a: int, b: int| 0 <= a < b < df@.len() implies #[trigger] df@[a].0@
                            != #[trigger] df@[b].0@ by {
                            assert(df@[a] == old_df[a]);
                            if b < old_df.len() {
                                assert(df@[b] == old_df[b]);
                            }
                        }
                        assert forall|a: int| 0 <= a < df@.len() implies #[trigger] df@[a].1 == doc_count(prev, df@[a].0@)
                            + (if listed_before(*d, j + 1, df@[a].0@) { 1nat } else { 0nat }) by {
                            lemma_listed_step(*d, j as int, df@[a].0@);
                            if a < old_df.len() {
                                assert(df@[a] == old_df[a]);
                            }
                        }
                        assert forall|a: int| 0 <= a < df@.len() implies doc_count(prev, #[trigger] df@[a].0@) > 0
                            || listed_before(*d, j + 1, df@[a].0@) by {
                            lemma_listed_step(*d, j as int, df@[a].0@);
                            if a < old_df.len() {
                                assert(df@[a] == old_df[a]);
                            }
                        }
                        assert forall|a: int| 0 <= a < old_df.len() implies #[trigger] df@[a].0@ == old_df[a].0@ by {
                            assert(df@[a] == old_df[a]);
                        }
                        lemma_covers_keep(old_df, df@);
                        assert(covers(df@, tv)) by {
                            assert(df@[old_df.len() as int].0@ == tv);
                        }
                    }
                },
            }
            j += 1;
        }
        proof {
            let next = docs.take(k + 1);
            assert(next.drop_last() =~= prev);
            assert(next.last() == *d);
            assert forall|t: Seq<char>| #[trigger] listed_before(*d, d.terms@.len() as int, t) == has_term(*d, t) by {}
            assert forall|i: int| 0 <= i < df@.len() implies #[trigger] df@[i].1 == doc_count(next, df@[i].0@)
                && doc_count(next, df@[i].0@) > 0 by {
                assert(listed_before(*d, d.terms@.len() as int, df@[i].0@) == has_term(*d, df@[i].0@));
            }
            assert forall|p: int, q: int| 0 <= p < next.len() && 0 <= q < next[p].terms@.len() implies covers(
                df@,
                #[trigger] next[p].terms@[q].0@,
            ) by {
                if p < k {
                    assert(next[p] == prev[p]);
                    assert(next[p].terms@[q].0@ == prev[p].terms@[q].0@);
                } else {
                    assert(next[p] == *d);
                    assert(next[p].terms@[q].0@ == d.terms@[q].0@);
                }
            }
        }
        k += 1;
    }
    assert(docs.take(docs.len() as int) =~= docs);
    df
}

/// Whether texts stand in strictly increasing order.
pub open spec fn strictly_sorted(v: Seq<Seq<char>>) -> bool {
    forall|a: int, b: int| 0 <= a < b < v.len() ==> text_order(#[trigger] v[a], #[trigger] v[b]) < 0
}

/// Where `key` goes among strictly sorted texts: after every text that
/// orders before it.
fn text_insertion_point(v: &Vec<String>, key: &[char]) -> (p: usize)
    ensures
        p <= v@.len(),
        forall|q: int| 0 <= q < p ==> text_order(#[trigger] v@[q]@, key@) < 0,
        p < v@.len() ==> text_order(v@[p as int]@, key@) >= 0,
{
    let mut p: usize = 0;
    while p < v.len()
        invariant
            p <= v@.len(),
            forall|q: int| 0 <= q < p ==> text_order(#[trigger] v@[q]@, key@) < 0,
        decreases v.len() - p,
    {
        let c = compare_chars(chars_of(v[p].as_str()).as_slice(), key);
        if c >= 0 {
            return p;
        }
        p += 1;
    }
    p
}

/// The distinct tokens of a query, in increasing order.
pub fn query_terms(query: &str) -> (r: Vec<String>)
    ensures
        strictly_sorted(strings(r@)),
        forall|t: Seq<char>| #[trigger] strings(r@).contains(t) <==> tokens_spec(query@).contains(t),
{
    let tokens = tokenize(query);
    let ghost toks = strings(tokens@);
    let mut out: Vec<String> = Vec::new();
    let mut i: usize = 0;
    assert(toks.take(0) =~= Seq::<Seq<char>>::empty());
    while i < tokens.len()
        invariant
            i <= tokens@.len(),
            toks == strings(tokens@),
            toks == tokens_spec(query@),
            strictly_sorted(strings(out@)),
            forall|t: Seq<char>| #[trigger] strings(out@).contains(t) <==> toks.take(i as int).contains(t),
        decreases tokens.len() - i,
    {
        let tok = &tokens[i];
        let key = chars_of(tok.as_str());
        let p = text_insertion_point(&out, key.as_slice());
        let ghost before = strings(out@);
        let ghost prefix = toks.take(i as int);
        let ghost prefix2 = toks.take(i + 1);
        proof {
            assert(prefix2 =~= prefix.push(tok@));
            assert(toks[i as int] == tok@);
            assert forall|t: Seq<char>| #[trigger] prefix2.contains(t) == (prefix.contains(t) || t == tok@) by {
                if prefix2.contains(t) && !prefix.contains(t) {
                    let k = choose|k: int| 0 <= k < prefix2.len() && prefix2[k] == t;
                    if k < i {
                        assert(prefix[k] == t);
                    }
                }
                if prefix.contains(t) {
                    let k = choose|k: int| 0 <= k < prefix.len() && prefix[k] == t;
                    assert(prefix2[k] == t);
                }
                if t == tok@ {
                    assert(prefix2[i as int] == t);
                }
            }
        }
        let present = p < out.len() && out[p] == *tok;
        if !present {
            out.insert(p, tok.clone());
            proof {
                assert(strings(out@) =~= before.insert(p as int, tok@));
                if p < before.len() {
                    lemma_text_order_basics(before[p as int], tok@);
                }
                assert forall|a: int, b: int| 0 <= a < b < strings(out@).len() implies text_order(
                    #[trigger] strings(out@)[a],
                    #[trigger] strings(out@)[b],
                ) < 0 by {
                    let n = strings(out@);
                    if b < p {
                        assert(n[a] == before[a] && n[b] == before[b]);
                    } else if b == p {
                        assert(n[a] == before[a] && n[b] == tok@);
                        assert(before[a] == out@[a]@);
                    } else if a == p {
                        assert(n[a] == tok@ && n[b] == before[b - 1]);
                        if b - 1 > p {
                            assert(text_order(before[p as int], before[b - 1]) < 0);
                            crate::order::lemma_text_order_trans_strict(tok@, before[p as int], before[b - 1]);
                        }
                    } else if a < p {
                        assert(n[a] == before[a] && n[b] == before[b - 1]);
                    } else {
                        assert(n[a] == before[a - 1] && n[b] == before[b - 1]);
                    }
                }
                assert forall|t: Seq<char>| #[trigger] strings(out@).contains(t) <==> prefix2.contains(t) by {
                    let n = strings(out@);
                    if n.contains(t) {
                        let k = choose|k: int| 0 <= k < n.len() && n[k] == t;
                        if k < p {
                            assert(before[k] == t);
                        } else if k > p {
                            assert(before[k - 1] == t);
                        }
                    }
                    if before.contains(t) {
                        let k = choose|k: int| 0 <= k < before.len() && before[k] == t;
                        if k < p {
                            assert(n[k] == t);
                        } else {
                            assert(n[k + 1] == t);
                        }
                    }
                    if t == tok@ {
                        assert(n[p as int] == t);
                    }
                }
            }
        } else {
            proof {
                assert(before[p as int] == tok@);
                assert forall|t: Seq<char>| #[trigger] strings(out@).contains(t) <==> prefix2.contains(t) by {
                    if t == tok@ {
                        assert(before[p as int] == t);
                    }
                }
            }
        }
        i += 1;
    }
    assert(toks.take(toks.len() as int) =~= toks);
    out
}

/// Whether documents that share an identifier are the same document.
pub open spec fn ids_determine(docs: Seq<Document>) -> bool {
    forall|u: Document, v: Document|
        occ(docs, u) > 0 && occ(docs, v) > 0 && (#[trigger] u.id@) == (#[trigger] v.id@) ==> u == v
}

/// Two arrangements in identifier order of the same documents, whose
/// identifiers tell them apart, are the same arrangement.
proof fn lemma_sorted_documents_unique(a: Seq<Document>, b: Seq<Document>)
    requires
        sorted_by_id(a),
        sorted_by_id(b),
        is_permutation(a, b),
        ids_determine(a),
    ensures
        a == b,
    decreases a.len(),
{
    crate::perm::lemma_permutation_len(a, b);
    if a.len() == 0 {
        assert(a =~= b);
    } else {
        let n = a.len() - 1;
        let x = a.last();
        let y = b.last();
        crate::perm::lemma_index_occ(a, n);
        crate::perm::lemma_index_occ(b, n);
        assert(occ(a, x) == occ(b, x));
        assert(occ(a, y) == occ(b, y));
        let k = lemma_occ_index(b, x);
        let k2 = lemma_occ_index(a, y);
        lemma_text_order_basics(x.id@, y.id@);
        if k < n {
            assert(text_order(b[k].id@, b[n].id@) <= 0);
        }
        if k2 < n {
            assert(text_order(a[k2].id@, a[n].id@) <= 0);
        }
        assert(x.id@ == y.id@);
        assert(x == y);
        crate::perm::lemma_permutation_remove(a, b, n);
        assert(b.remove(n) =~= b.drop_last());
        assert(a.remove(n) =~= a.drop_last());
        let (ad, bd) = (a.drop_last(), b.drop_last());
        assert(sorted_by_id(ad)) by {
            assert forall|i: int, j: int| 0 <= i < j < ad.len() implies text_order(#[trigger] ad[i].id@, #[trigger] ad[j].id@)
                <= 0 by {
                assert(ad[i] == a[i] && ad[j] == a[j]);
            }
        }
        assert(sorted_by_id(bd)) by {
            assert forall|i: int, j: int| 0 <= i < j < bd.len() implies text_order(#[trigger] bd[i].id@, #[trigger] bd[j].id@)
                <= 0 by {
                assert(bd[i] == b[i] && bd[j] == b[j]);
            }
        }
        assert forall|u: Document, v: Document|
            occ(ad, u) > 0 && occ(ad, v) > 0 && (#[trigger] u.id@) == (#[trigger] v.id@) implies u == v by {
            lemma_occ_push(ad, x, u);
            lemma_occ_push(ad, x, v);
            assert(a =~= ad.push(x));
        }
        lemma_sorted_documents_unique(ad, bd);
        assert(a =~= ad.push(x));
        assert(b =~= bd.push(y));
    }
}

/// Loading a corpus puts its documents in the same order whatever order they
/// were read in, when no two documents share an identifier: the corpora
/// built from two arrangements of the same documents hold the same sequence.
pub proof fn lemma_corpus_order_ignores_read_order(
    a: Seq<Document>,
    b: Seq<Document>,
    from_a: Seq<Document>,
    from_b: Seq<Document>,
)
    requires
        is_permutation(a, b),
        ids_determine(a),
        sorted_by_id(from_a),
        is_permutation(from_a, a),
        sorted_by_id(from_b),
        is_permutation(from_b, b),
    ensures
        from_a == from_b,
{
    assert forall|x: Document| #[trigger] occ(from_a, x) == occ(from_b, x) by {
        assert(occ(from_a, x) == occ(a, x));
        assert(occ(from_b, x) == occ(b, x));
        assert(occ(a, x) == occ(b, x));
    }
    assert forall|u: Document, v: Document|
        occ(from_a, u) > 0 && occ(from_a, v) > 0 && (#[trigger] u.id@) == (#[trigger] v.id@) implies u == v by {
        assert(occ(from_a, u) == occ(a, u));
        assert(occ(from_a, v) == occ(a, v));
    }
    lemma_sorted_documents_unique(from_a, from_b);
}

/// Term counts as plain pairs.
pub open spec fn count_pairs(terms: Seq<(String, usize)>) -> Seq<(Seq<char>, nat)> {
    terms.map_values(|p: (String, usize)| (p.0@, p.1 as nat))
}

/// The total of the counts of `ps`.
pub open spec fn pair_sum(ps: Seq<(Seq<char>, nat)>) -> nat
    decreases ps.len(),
{
    if ps.len() == 0 {
        0
    } else {
        pair_sum(ps.drop_last()) + ps.last().1
    }
}

/// The total of the term counts of a document.
pub open spec fn term_total(terms: Seq<(String, usize)>) -> nat {
    pair_sum(count_pairs(terms))
}

/// Whether `ps` lists each distinct token of `toks` once with how often it
/// occurs, and nothing else.
pub open spec fn pairs_count(ps: Seq<(Seq<char>, nat)>, toks: Seq<Seq<char>>) -> bool {
    &&& forall|i: int, j: int| 0 <= i < j < ps.len() ==> #[trigger] ps[i].0 != #[trigger] ps[j].0
    &&& forall|i: int| 0 <= i < ps.len() ==> #[trigger] ps[i].1 == occ(toks, ps[i].0) && occ(toks, ps[i].0) > 0
    &&& forall|k: int| 0 <= k < toks.len() ==> pairs_cover(ps, #[trigger] toks[k])
}

/// Whether `ps` lists key `t`.
pub open spec fn pairs_cover(ps: Seq<(Seq<char>, nat)>, t: Seq<char>) -> bool {
    exists|i: int| 0 <= i < ps.len() && #[trigger] ps[i].0 == t
}

proof fn lemma_pair_sum_update(ps: Seq<(Seq<char>, nat)>, j: int, e: (Seq<char>, nat))
    requires
        0 <= j < ps.len(),
    ensures
        pair_sum(ps.update(j, e)) + ps[j].1 == pair_sum(ps) + e.1,
    decreases ps.len(),
{
    if j < ps.len() - 1 {
        assert(ps.update(j, e).drop_last() =~= ps.drop_last().update(j, e));
        lemma_pair_sum_update(ps.drop_last(), j, e);
    } else {
        assert(ps.update(j, e).drop_last() =~= ps.drop_last());
    }
}

proof fn lemma_pair_sum_remove(ps: Seq<(Seq<char>, nat)>, j: int)
    requires
        0 <= j < ps.len(),
    ensures
        pair_sum(ps.remove(j)) + ps[j].1 == pair_sum(ps),
    decreases ps.len(),
{
    if j < ps.len() - 1 {
        assert(ps.remove(j).drop_last() =~= ps.drop_last().remove(j));
        assert(ps.remove(j).last() == ps.last());
        lemma_pair_sum_remove(ps.drop_last(), j);
    } else {
        assert(ps.remove(j) =~= ps.drop_last());
    }
}

/// Counts of each distinct token add up to the number of tokens.
proof fn lemma_pairs_sum(ps: Seq<(Seq<char>, nat)>, toks: Seq<Seq<char>>)
    requires
        pairs_count(ps, toks),
    ensures
        pair_sum(ps) == toks.len(),
    decreases toks.len(),
{
    if toks.len() == 0 {
        if ps.len() > 0 {
            assert(ps[0].1 == occ(toks, ps[0].0));
        }
        assert(ps =~= Seq::<(Seq<char>, nat)>::empty());
    } else {
        let t0 = toks.drop_last();
        let x = toks.last();
        assert(toks =~= t0.push(x));
        assert(toks[toks.len() - 1] == x);
        assert(pairs_cover(ps, toks[toks.len() - 1]));
        let j = choose|i: int| 0 <= i < ps.len() && #[trigger] ps[i].0 == x;
        lemma_occ_push(t0, x, x);
        assert(ps[j].1 == occ(toks, x));
        assert forall|k: int| 0 <= k < t0.len() implies #[trigger] t0[k] == toks[k] by {}
        if occ(t0, x) > 0 {
            let e = (x, (ps[j].1 - 1) as nat);
            let ps2 = ps.update(j, e);
            assert forall|i: int, q: int| 0 <= i < q < ps2.len() implies #[trigger] ps2[i].0 != #[trigger] ps2[q].0 by {
                assert(ps2[i].0 == ps[i].0 && ps2[q].0 == ps[q].0);
            }
            assert forall|i: int| 0 <= i < ps2.len() implies #[trigger] ps2[i].1 == occ(t0, ps2[i].0) && occ(
                t0,
                ps2[i].0,
            ) > 0 by {
                lemma_occ_push(t0, x, ps[i].0);
                if i != j {
                    assert(ps[i].0 != ps[j].0);
                    assert(ps2[i] == ps[i]);
                    assert(ps[i].1 == occ(toks, ps[i].0));
                }
            }
            assert forall|k: int| 0 <= k < t0.len() implies pairs_cover(ps2, #[trigger] t0[k]) by {
                assert(t0[k] == toks[k]);
                assert(pairs_cover(ps, toks[k]));
                let i = choose|i: int| 0 <= i < ps.len() && #[trigger] ps[i].0 == toks[k];
                assert(ps2[i].0 == ps[i].0);
            }
            lemma_pairs_sum(ps2, t0);
            lemma_pair_sum_update(ps, j, e);
        } else {
            let ps2 = ps.remove(j);
            assert forall|i: int, q: int| 0 <= i < q < ps2.len() implies #[trigger] ps2[i].0 != #[trigger] ps2[q].0 by {
                let a = if i < j { i } else { i + 1 };
                let b = if q < j { q } else { q + 1 };
                assert(ps2[i] == ps[a] && ps2[q] == ps[b]);
            }
            assert forall|i: int| 0 <= i < ps2.len() implies #[trigger] ps2[i].1 == occ(t0, ps2[i].0) && occ(
                t0,
                ps2[i].0,
            ) > 0 by {
                let a = if i < j { i } else { i + 1 };
                assert(ps2[i] == ps[a]);
                assert(ps[a].0 != ps[j].0);
                lemma_occ_push(t0, x, ps[a].0);
                assert(ps[a].1 == occ(toks, ps[a].0));
            }
            assert forall|k: int| 0 <= k < t0.len() implies pairs_cover(ps2, #[trigger] t0[k]) by {
                assert(t0[k] == toks[k]);
                assert(pairs_cover(ps, toks[k]));
                let i = choose|i: int| 0 <= i < ps.len() && #[trigger] ps[i].0 == toks[k];
                if t0[k] == x {
                    crate::perm::lemma_index_occ(t0, k);
                }
                assert(i != j);
                if i < j {
                    assert(ps2[i] == ps[i]);
                } else {
                    assert(ps2[i - 1] == ps[i]);
                }
            }
            lemma_pairs_sum(ps2, t0);
            lemma_pair_sum_remove(ps, j);
        }
    }
}

/// A document's length is the total of its term counts: every token is
/// counted under its term exactly once.
pub proof fn lemma_length_is_summed_counts(d: Document, id: String, path: String, extracted: ExtractedDocument)
    requires
        indexed_from(d, id, path, extracted),
    ensures
        d.length == term_total(d.terms@),
{
    let toks = tokens_spec(extracted.text@);
    let ps = count_pairs(d.terms@);
    assert forall|i: int, j: int| 0 <= i < j < ps.len() implies #[trigger] ps[i].0 != #[trigger] ps[j].0 by {
        assert(ps[i].0 == d.terms@[i].0@ && ps[j].0 == d.terms@[j].0@);
    }
    assert forall|i: int| 0 <= i < ps.len() implies #[trigger] ps[i].1 == occ(toks, ps[i].0) && occ(toks, ps[i].0) > 0 by {
        assert(ps[i].0 == d.terms@[i].0@);
        assert(d.terms@[i].1 == occ(toks, d.terms@[i].0@));
    }
    assert forall|k: int| 0 <= k < toks.len() implies pairs_cover(ps, #[trigger] toks[k]) by {
        let i = choose|i: int| 0 <= i < d.terms@.len() && #[trigger] d.terms@[i].0@ == #[trigger] toks[k];
        assert(ps[i].0 == d.terms@[i].0@);
    }
    lemma_pairs_sum(ps, toks);
}

} // verus!
