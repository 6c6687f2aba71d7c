//! Evaluation support: the SciFact dataset layout, agentic fixtures, the
//! exclusion of evaluation helper files from a corpus, stop-reason
//! summaries, and the recognition of gated-model failures.
use vstd::prelude::*;
use crate::order::{compare_lists, char_views, lemma_list_order_basics};
use crate::paths::{components, components_of, file_stem_chars, file_stem_spec, join, path_join, views};
use crate::perm::occ;
use crate::search::{Document, LoadedCorpus, join_words, strings};
use crate::text::{
    first_index, find_char, lines_of, lines_spec, seq_starts_with, split_chars, split_on, starts_with, char_seqs,
    chars_of, contains, extend_chars, seq_ascii_lower, seq_contains, string_of, to_ascii_lower, trim_chars,
    trim_spec,
};

verus! {

/// What downloading the SciFact dataset fetched.
#[derive(Debug, Clone, PartialEq, Eq)]
pub struct DownloadSummary {
    pub dataset: String,
    pub corpus_archive: String,
    pub queries_archive: String,
    pub qrels_test: String,
}

/// What materializing the SciFact dataset wrote.
#[derive(Debug, Clone, PartialEq, Eq)]
pub struct MaterializationSummary {
    pub dataset: String,
    pub artifacts: usize,
    pub test_queries: usize,
    pub output_dir: String,
}

/// A set of agentic evaluation tasks.
#[derive(Debug, Clone, PartialEq, Eq)]
pub struct AgenticFixtureSet {
    pub tasks: Vec<AgenticTaskFixture>,
}

/// One agentic task: its turns and the documents it should end with.
#[derive(Debug, Clone, PartialEq, Eq)]
pub struct AgenticTaskFixture {
    pub id: String,
    pub root_task: Option<String>,
    pub turns: Vec<AgenticTurnFixture>,
    pub expected_final_documents: Vec<String>,
}

/// One turn of an agentic task.
#[derive(Debug, Clone, PartialEq, Eq)]
pub struct AgenticTurnFixture {
    pub query: String,
    pub expected_documents: Vec<String>,
}

/// Why an autonomous planner stopped.
#[derive(Debug, Clone, Copy, PartialEq, Eq, Structural)]
pub enum AutonomousPlannerStopReason {
    GoalSatisfied,
    StepLimitReached,
    NoFurtherQueries,
    NoAdditionalEvidence,
}

/// The line that reports why a planner stopped.
pub open spec fn stop_reason_message(reason: AutonomousPlannerStopReason) -> Seq<char> {
    match reason {
        AutonomousPlannerStopReason::GoalSatisfied => "planner terminated: goal satisfied"@,
        AutonomousPlannerStopReason::StepLimitReached => "planner terminated: step limit reached"@,
        AutonomousPlannerStopReason::NoFurtherQueries => "planner terminated: no further queries available"@,
        AutonomousPlannerStopReason::NoAdditionalEvidence => "planner terminated: no additional evidence found"@,
    }
}

/// Reports why a planner stopped, as one line of text.
pub fn format_autonomous_stop_reason(reason: AutonomousPlannerStopReason) -> (r: String)
    ensures
        r@ == stop_reason_message(reason),
{
    match reason {
        AutonomousPlannerStopReason::GoalSatisfied => "planner terminated: goal satisfied".to_owned(),
        AutonomousPlannerStopReason::StepLimitReached => "planner terminated: step limit reached".to_owned(),
        AutonomousPlannerStopReason::NoFurtherQueries => "planner terminated: no further queries available".to_owned(),
        AutonomousPlannerStopReason::NoAdditionalEvidence => "planner terminated: no additional evidence found".to_owned(),
    }
}

/// How many tasks stopped for one reason.
#[derive(Debug, Clone, Copy, PartialEq, Eq)]
pub struct AutonomousStopReasonCount {
    pub stop_reason: AutonomousPlannerStopReason,
    pub tasks: usize,
}

/// A latency evaluation run.
#[derive(Debug, Clone)]
pub struct LatencyEvaluationRequest {
    pub strategy: String,
    pub command: String,
    pub corpus_dir: String,
    pub queries_path: String,
    pub shortlist: usize,
    pub dense_model: crate::dense::DenseModelSpec,
    pub verbose: u8,
    pub query_limit: Option<usize>,
}

/// A quality evaluation run.
#[derive(Debug, Clone)]
pub struct QualityEvaluationRequest {
    pub strategy: String,
    pub baseline: Option<String>,
    pub command: String,
    pub corpus_dir: String,
    pub queries_path: Option<String>,
    pub qrels_path: String,
    pub shortlist: usize,
    pub dense_model: crate::dense::DenseModelSpec,
    pub verbose: u8,
    pub query_limit: Option<usize>,
}

/// A document identifier made safe as a file name: `/`, `\`, `:` and NUL
/// become `_`.
pub open spec fn sanitize_spec(id: Seq<char>) -> Seq<char> {
    id.map_values(|c: char| if c == '/' || c == '\\' || c == ':' || c == '\0' { '_' } else { c })
}

/// `s` without its trailing slashes.
pub open spec fn trim_end_slashes(s: Seq<char>) -> Seq<char>
    decreases s.len(),
{
    if s.len() > 0 && s.last() == '/' {
        trim_end_slashes(s.drop_last())
    } else {
        s
    }
}

/// The address of `file` under the base address `base`.
pub open spec fn join_url_spec(base: Seq<char>, file: Seq<char>) -> Seq<char> {
    trim_end_slashes(base) + "/"@ + file
}

/// Whether a lowercased error message reports a refusal by a gated model
/// host: HTTP status 401 or 403, or Hugging Face saying unauthorized or
/// forbidden.
pub open spec fn gated_message(m: Seq<char>) -> bool {
    ||| seq_contains(m, "http status: 401"@)
    ||| seq_contains(m, "http status: 403"@)
    ||| seq_contains(m, "huggingface"@) && seq_contains(m, "unauthorized"@)
    ||| seq_contains(m, "huggingface"@) && seq_contains(m, "forbidden"@)
}

/// The trimmed, non-empty turn queries of a task, in order.
pub open spec fn kept_queries(turns: Seq<AgenticTurnFixture>) -> Seq<Seq<char>>
    decreases turns.len(),
{
    if turns.len() == 0 {
        Seq::empty()
    } else {
        let r = kept_queries(turns.drop_last());
        let q = trim_spec(turns.last().query@);
        if q.len() > 0 {
            r.push(q)
        } else {
            r
        }
    }
}

/// The document identifier of a search result path: its file stem, or the
/// path itself when it has none.
pub open spec fn document_id_spec(path: Seq<char>) -> Seq<char> {
    match file_stem_spec(path) {
        Some(stem) => stem,
        None => path,
    }
}

/// Whether a helper path excludes the document at `path`: it is non-empty
/// and names the same path.
pub open spec fn helper_excluded(path: Seq<char>, helpers: Seq<Seq<char>>) -> bool {
    exists|i: int| 0 <= i < helpers.len() && helpers[i].len() > 0 && #[trigger] components(helpers[i]) == components(path)
}

/// Whether some helper path is non-empty.
pub open spec fn any_helper(helpers: Seq<Seq<char>>) -> bool {
    exists|i: int| 0 <= i < helpers.len() && #[trigger] helpers[i].len() > 0
}

/// The documents that no helper path excludes, in order.
pub open spec fn kept_documents(docs: Seq<Document>, helpers: Seq<Seq<char>>) -> Seq<Document>
    decreases docs.len(),
{
    if docs.len() == 0 {
        Seq::empty()
    } else {
        let r = kept_documents(docs.drop_last(), helpers);
        if helper_excluded(docs.last().path@, helpers) {
            r
        } else {
            r.push(docs.last())
        }
    }
}

/// The summed lengths of documents.
pub open spec fn sum_lengths(docs: Seq<Document>) -> nat
    decreases docs.len(),
{
    if docs.len() == 0 {
        0
    } else {
        sum_lengths(docs.drop_last()) + docs.last().length as nat
    }
}

/// `a - b`, or zero when `b` is larger.
pub open spec fn saturating_sub(a: nat, b: nat) -> nat {
    if a >= b { (a - b) as nat } else { 0 }
}

/// The stop reasons in the order summaries list them.
pub open spec fn stop_reason_order() -> Seq<AutonomousPlannerStopReason> {
    seq![
        AutonomousPlannerStopReason::GoalSatisfied,
        AutonomousPlannerStopReason::StepLimitReached,
        AutonomousPlannerStopReason::NoFurtherQueries,
        AutonomousPlannerStopReason::NoAdditionalEvidence,
    ]
}

/// For each reason of `order` that occurs in `reasons`, the reason and how
/// many tasks stopped for it.
pub open spec fn stop_summary(
    reasons: Seq<Option<AutonomousPlannerStopReason>>,
    order: Seq<AutonomousPlannerStopReason>,
) -> Seq<(AutonomousPlannerStopReason, nat)>
    decreases order.len(),
{
    if order.len() == 0 {
        Seq::empty()
    } else {
        let r = stop_summary(reasons, order.drop_last());
        let n = occ(reasons, Some(order.last()));
        if n > 0 {
            r.push((order.last(), n))
        } else {
            r
        }
    }
}

/// The pairs a stop-reason summary lists.
pub open spec fn summary_pairs(v: Seq<AutonomousStopReasonCount>) -> Seq<(AutonomousPlannerStopReason, nat)> {
    v.map_values(|c: AutonomousStopReasonCount| (c.stop_reason, c.tasks as nat))
}

/// A document identifier made safe as a file name.
pub fn sanitize_doc_id(id: &str) -> (r: String)
    ensures
        r@ == sanitize_spec(id@),
        r@.len() == id@.len(),
        forall|i: int| 0 <= i < r@.len() ==> #[trigger] r@[i] != '/' && r@[i] != '\\' && r@[i] != ':' && r@[i] != '\0',
{
    let chars = chars_of(id);
    let mut out: Vec<char> = Vec::new();
    let mut i: usize = 0;
    while i < chars.len()
        invariant
            i <= chars@.len(),
            chars@ == id@,
            out@ == sanitize_spec(chars@.take(i as int)),
        decreases chars.len() - i,
    {
        let c = chars[i];
        let m = if c == '/' || c == '\\' || c == ':' || c == '\0' { '_' } else { c };
        out.push(m);
        assert(out@ =~= sanitize_spec(chars@.take(i + 1)));
        i += 1;
    }
    assert(chars@.take(chars@.len() as int) =~= chars@);
    string_of(out.as_slice())
}

/// The address of `file` under `base`, with one `/` between them.
pub fn join_url(base: &str, file: &str) -> (r: String)
    ensures
        r@ == join_url_spec(base@, file@),
{
    let b = chars_of(base);
    let mut end: usize = b.len();
    assert(b@.take(end as int) =~= b@);
    while end > 0 && b[end - 1] == '/'
        invariant
            end <= b@.len(),
            b@ == base@,
            trim_end_slashes(b@.take(end as int)) == trim_end_slashes(base@),
        decreases end,
    {
        assert(b@.take(end as int).drop_last() =~= b@.take(end - 1));
        end -= 1;
    }
    assert(trim_end_slashes(b@.take(end as int)) == b@.take(end as int));
    let mut out: Vec<char> = Vec::new();
    let mut i: usize = 0;
    while i < end
        invariant
            i <= end <= b@.len(),
            out@ == b@.take(i as int),
        decreases end - i,
    {
        out.push(b[i]);
        assert(out@ =~= b@.take(i + 1));
        i += 1;
    }
    out.push('/');
    let f = chars_of(file);
    extend_chars(&mut out, f.as_slice());
    assert(out@ =~= trim_end_slashes(base@) + "/"@ + file@) by {
        reveal_strlit("/");
    }
    string_of(out.as_slice())
}

/// Whether an error, given as the messages of its cause chain, is a refusal
/// by a gated model host.
pub fn is_gated_model_error(chain: &[String]) -> (r: bool)
    ensures
        r == exists|i: int| 0 <= i < chain@.len() && gated_message(seq_ascii_lower(#[trigger] chain@[i]@)),
{
    let p401 = chars_of("http status: 401");
    let p403 = chars_of("http status: 403");
    let hf = chars_of("huggingface");
    let unauthorized = chars_of("unauthorized");
    let forbidden = chars_of("forbidden");
    let mut i: usize = 0;
    while i < chain.len()
        invariant
            i <= chain@.len(),
            p401@ == "http status: 401"@,
            p403@ == "http status: 403"@,
            hf@ == "huggingface"@,
            unauthorized@ == "unauthorized"@,
            forbidden@ == "forbidden"@,
            forall|q: int| 0 <= q < i ==> !gated_message(seq_ascii_lower(#[trigger] chain@[q]@)),
        decreases chain.len() - i,
    {
        let m = to_ascii_lower(chars_of(chain[i].as_str()).as_slice());
        let gated = contains(m.as_slice(), p401.as_slice()) || contains(m.as_slice(), p403.as_slice()) || (contains(
            m.as_slice(),
            hf.as_slice(),
        ) && contains(m.as_slice(), unauthorized.as_slice())) || (contains(m.as_slice(), hf.as_slice())
            && contains(m.as_slice(), forbidden.as_slice()));
        if gated {
            return true;
        }
        i += 1;
    }
    false
}

/// One query standing for a whole agentic task: its trimmed, non-empty turn
/// queries joined by spaces.
pub fn collapse_agentic_task_query(task: &AgenticTaskFixture) -> (r: String)
    ensures
        r@ == join_words(kept_queries(task.turns@)),
{
    let mut parts: Vec<Vec<char>> = Vec::new();
    let mut i: usize = 0;
    assert(task.turns@.take(0) =~= Seq::<AgenticTurnFixture>::empty());
    while i < task.turns.len()
        invariant
            i <= task.turns@.len(),
            char_views(parts@) == kept_queries(task.turns@.take(i as int)),
        decreases task.turns.len() - i,
    {
        let q = trim_chars(chars_of(task.turns[i].query.as_str()).as_slice());
        proof {
            let t = task.turns@.take(i + 1);
            assert(t.drop_last() =~= task.turns@.take(i as int));
            assert(t.last() == task.turns@[i as int]);
        }
        if q.len() > 0 {
            let ghost before = parts@;
            parts.push(q);
            assert(char_views(parts@) =~= char_views(before).push(q@));
        }
        i += 1;
    }
    assert(task.turns@.take(task.turns@.len() as int) =~= task.turns@);
    let mut out: Vec<char> = Vec::new();
    let mut j: usize = 0;
    let ghost w = char_views(parts@);
    assert(w.take(0) =~= Seq::<Seq<char>>::empty());
    while j < parts.len()
        invariant
            j <= parts@.len(),
            w == char_views(parts@),
            out@ == join_words(w.take(j as int)),
        decreases parts.len() - j,
    {
        if j > 0 {
            out.push(' ');
        }
        extend_chars(&mut out, parts[j].as_slice());
        proof {
            let t = w.take(j + 1);
            assert(t.drop_last() =~= w.take(j as int));
            assert(t.last() == parts@[j as int]@);
            if j == 0 {
                assert(out@ =~= t[0]);
            } else {
                assert(out@ =~= join_words(w.take(j as int)) + seq![' '] + t.last());
            }
        }
        j += 1;
    }
    assert(w.take(w.len() as int) =~= w);
    string_of(out.as_slice())
}

/// The document identifier of a search result path: its file stem, or the
/// whole path when it has none.
pub fn search_path_to_document_id(path: &str) -> (r: String)
    ensures
        r@ == document_id_spec(path@),
{
    match file_stem_chars(chars_of(path).as_slice()) {
        Some(stem) => string_of(stem.as_slice()),
        None => path.to_owned(),
    }
}

/// Whether every expected document identifier is among the actual ones.
pub fn expected_documents_satisfied(expected: &[String], actual: &[String]) -> (r: bool)
    ensures
        r == forall|i: int| 0 <= i < expected@.len() ==> strings(actual@).contains(#[trigger] expected@[i]@),
{
    let mut i: usize = 0;
    while i < expected.len()
        invariant
            i <= expected@.len(),
            forall|q: int| 0 <= q < i ==> strings(actual@).contains(#[trigger] expected@[q]@),
        decreases expected.len() - i,
    {
        let mut found = false;
        let mut j: usize = 0;
        while j < actual.len()
            invariant
                i < expected@.len(),
                j <= actual@.len(),
                found ==> strings(actual@).contains(expected@[i as int]@),
                !found ==> forall|q: int| 0 <= q < j ==> #[trigger] actual@[q]@ != expected@[i as int]@,
            decreases actual.len() - j,
        {
            if !found && actual[j] == expected[i] {
                found = true;
                assert(strings(actual@)[j as int] == expected@[i as int]@);
            }
            j += 1;
        }
        if !found {
            proof {
                assert forall|q: int| 0 <= q < strings(actual@).len() implies strings(actual@)[q]
                    != expected@[i as int]@ by {
                    assert(strings(actual@)[q] == actual@[q]@);
                }
                assert(!strings(actual@).contains(expected@[i as int]@));
            }
            return false;
        }
        i += 1;
    }
    true
}

/// How many tasks stopped for each reason, in the summary order, listing only
/// the reasons that occur.
pub fn summarize_autonomous_stop_reasons(reasons: &[Option<AutonomousPlannerStopReason>]) -> (r: Vec<
    AutonomousStopReasonCount,
>)
    ensures
        summary_pairs(r@) == stop_summary(reasons@, stop_reason_order()),
{
    let order = [
        AutonomousPlannerStopReason::GoalSatisfied,
        AutonomousPlannerStopReason::StepLimitReached,
        AutonomousPlannerStopReason::NoFurtherQueries,
        AutonomousPlannerStopReason::NoAdditionalEvidence,
    ];
    assert(order@ =~= stop_reason_order());
    let mut out: Vec<AutonomousStopReasonCount> = Vec::new();
    let mut k: usize = 0;
    assert(order@.take(0) =~= Seq::<AutonomousPlannerStopReason>::empty());
    while k < 4
        invariant
            k <= 4,
            order@ == stop_reason_order(),
            summary_pairs(out@) == stop_summary(reasons@, order@.take(k as int)),
        decreases 4 - k,
    {
        let reason = order[k];
        let mut n: usize = 0;
        let mut i: usize = 0;
        assert(reasons@.take(0) =~= Seq::<Option<AutonomousPlannerStopReason>>::empty());
        while i < reasons.len()
            invariant
                i <= reasons@.len(),
                n == occ(reasons@.take(i as int), Some(reason)),
                n <= i,
            decreases reasons.len() - i,
        {
            let hit = match reasons[i] {
                Some(x) => x == reason,
                None => false,
            };
            assert(reasons@.take(i + 1).drop_last() =~= reasons@.take(i as int));
            if hit {
                n += 1;
            }
            i += 1;
        }
        assert(reasons@.take(reasons@.len() as int) =~= reasons@);
        proof {
            let t = order@.take(k + 1);
            assert(t.drop_last() =~= order@.take(k as int));
            assert(t.last() == reason);
        }
        if n > 0 {
            let ghost before = out@;
            out.push(AutonomousStopReasonCount { stop_reason: reason, tasks: n });
            assert(summary_pairs(out@) =~= summary_pairs(before).push((reason, n as nat)));
        }
        k += 1;
    }
    assert(order@.take(4) =~= order@);
    out
}

/// Whether `ex` holds, position by position, the components of each of the
/// first `h` helper paths that is non-empty, and nothing for an empty one.
pub open spec fn lists_helpers(ex: Seq<Option<Vec<Vec<char>>>>, helpers: Seq<Seq<char>>, h: int) -> bool {
    &&& ex.len() == h
    &&& forall|j: int| 0 <= j < h ==> (#[trigger] ex[j] is Some <==> helpers[j].len() > 0)
    &&& forall|j: int| 0 <= j < h && #[trigger] ex[j] is Some ==> char_views(ex[j]->0@) == components(helpers[j])
}

/// The components of every non-empty helper path, position by position.
fn helper_component_lists(helper_paths: &[String]) -> (excluded: Vec<Option<Vec<Vec<char>>>>)
    ensures
        lists_helpers(excluded@, strings(helper_paths@), helper_paths@.len() as int),
{
    let ghost helpers = strings(helper_paths@);
    let mut excluded: Vec<Option<Vec<Vec<char>>>> = Vec::new();
    let mut h: usize = 0;
    while h < helper_paths.len()
        invariant
            h <= helper_paths@.len(),
            helpers == strings(helper_paths@),
            lists_helpers(excluded@, helpers, h as int),
        decreases helper_paths.len() - h,
    {
        let p = chars_of(helper_paths[h].as_str());
        proof {
            assert(helpers[h as int] == helper_paths@[h as int]@);
        }
        let ghost before = excluded@;
        if p.len() > 0 {
            let c = components_of(p.as_slice());
            proof {
                assert(char_views(c@) =~= views(c@));
            }
            excluded.push(Some(c));
        } else {
            excluded.push(None);
        }
        proof {
            assert forall|j: int| 0 <= j < h + 1 implies (#[trigger] excluded@[j] is Some <==> helpers[j].len() > 0) by {
                if j < h {
                    assert(excluded@[j] == before[j]);
                }
            }
            assert forall|j: int| 0 <= j < h + 1 && #[trigger] excluded@[j] is Some implies char_views(excluded@[j]->0@)
                == components(helpers[j]) by {
                if j < h {
                    assert(excluded@[j] == before[j]);
                }
            }
        }
        h += 1;
    }
    excluded
}

/// Whether the component list `c` stands among `list`.
fn components_listed(list: &Vec<Option<Vec<Vec<char>>>>, c: &Vec<Vec<char>>) -> (r: bool)
    ensures
        r == exists|i: int| 0 <= i < list@.len() && #[trigger] list@[i] is Some && char_views(list@[i]->0@) == char_views(c@),
{
    let mut i: usize = 0;
    while i < list.len()
        invariant
            i <= list@.len(),
            forall|q: int| 0 <= q < i && #[trigger] list@[q] is Some ==> char_views(list@[q]->0@) != char_views(c@),
        decreases list.len() - i,
    {
        match &list[i] {
            Some(x) => {
                let o = compare_lists(x.as_slice(), c.as_slice());
                proof {
                    lemma_list_order_basics(char_views(x@), char_views(c@));
                }
                if o == 0 {
                    return true;
                }
            },
            None => {},
        }
        i += 1;
    }
    false
}

/// A kept prefix sums to no more than the whole.
proof fn lemma_sum_kept_prefix(docs: Seq<Document>, helpers: Seq<Seq<char>>, k: int)
    requires
        0 <= k <= docs.len(),
    ensures
        sum_lengths(kept_documents(docs.take(k), helpers)) <= sum_lengths(kept_documents(docs, helpers)),
        kept_documents(docs.take(k), helpers).len() <= kept_documents(docs, helpers).len(),
    decreases docs.len(),
{
    if k < docs.len() {
        assert(docs.drop_last().take(k) =~= docs.take(k));
        lemma_sum_kept_prefix(docs.drop_last(), helpers, k);
        let r = kept_documents(docs.drop_last(), helpers);
        assert(r.push(docs.last()).drop_last() =~= r);
    } else {
        assert(docs.take(k) =~= docs);
    }
}

/// A kept list is no longer than the documents it was kept from.
proof fn lemma_kept_len(docs: Seq<Document>, helpers: Seq<Seq<char>>)
    ensures
        kept_documents(docs, helpers).len() <= docs.len(),
    decreases docs.len(),
{
    if docs.len() > 0 {
        lemma_kept_len(docs.drop_last(), helpers);
    }
}

/// A corpus without the evaluation helper files (the query and relevance
/// files) that were indexed with it. Without a non-empty helper path the
/// corpus is returned as it is; otherwise the excluded documents are counted
/// as skipped and the byte total becomes the summed lengths of the rest.
pub fn filter_evaluation_helper_documents(corpus: LoadedCorpus, helper_paths: &[String]) -> (r: LoadedCorpus)
    requires
        any_helper(strings(helper_paths@)) ==> {
            let kept = kept_documents(corpus.documents@, strings(helper_paths@));
            &&& sum_lengths(kept) <= u64::MAX
            &&& corpus.skipped_files + saturating_sub(corpus.indexed_files as nat, kept.len()) <= usize::MAX
        },
    ensures
        !any_helper(strings(helper_paths@)) ==> r == corpus,
        any_helper(strings(helper_paths@)) ==> {
            let kept = kept_documents(corpus.documents@, strings(helper_paths@));
            &&& r.documents@ == kept
            &&& r.indexed_files == kept.len()
            &&& r.total_bytes == sum_lengths(kept)
            &&& r.skipped_files == corpus.skipped_files + saturating_sub(corpus.indexed_files as nat, kept.len())
            &&& corpus.indexed_files >= kept.len() ==> r.indexed_files + r.skipped_files == corpus.indexed_files
                + corpus.skipped_files
        },
{
    let ghost helpers = strings(helper_paths@);
    let excluded = helper_component_lists(helper_paths);
    let mut any = false;
    let mut q: usize = 0;
    while q < excluded.len()
        invariant
            q <= excluded@.len(),
            lists_helpers(excluded@, helpers, helpers.len() as int),
            helpers == strings(helper_paths@),
            any == exists|j: int| 0 <= j < q && #[trigger] helpers[j].len() > 0,
        decreases excluded.len() - q,
    {
        if excluded[q].is_some() {
            any = true;
        }
        q += 1;
    }
    if !any {
        return corpus;
    }
    let indexed_before = corpus.indexed_files;
    let skipped_before = corpus.skipped_files;
    let ghost docs = corpus.documents@;
    let ghost all_kept = kept_documents(docs, helpers);
    let mut rest = corpus.documents;
    let doc_count: usize = rest.len();
    assert(docs.len() == doc_count);
    let mut kept: Vec<Document> = Vec::new();
    let mut total: u64 = 0;
    let mut k: usize = 0;
    proof {
        assert(docs.take(0) =~= Seq::<Document>::empty());
        assert(docs.skip(0) =~= docs);
    }
    while rest.len() > 0
        invariant
            k <= docs.len() <= usize::MAX,
            rest@ == docs.skip(k as int),
            kept@ == kept_documents(docs.take(k as int), helpers),
            total == sum_lengths(kept@),
            sum_lengths(all_kept) <= u64::MAX,
            all_kept == kept_documents(docs, helpers),
            lists_helpers(excluded@, helpers, helpers.len() as int),
        decreases rest@.len(),
    {
        assert(docs.skip(k as int).len() == docs.len() - k);
        assert(k < docs.len());
        let d = rest.remove(0);
        let pc = components_of(chars_of(d.path.as_str()).as_slice());
        let hit = components_listed(&excluded, &pc);
        proof {
            assert(d == docs[k as int]);
            assert(docs.take(k + 1).drop_last() =~= docs.take(k as int));
            assert(docs.take(k + 1).last() == d);
            assert(rest@ =~= docs.skip(k + 1));
            assert(char_views(pc@) == views(pc@));
            if hit {
                let i = choose|i: int|
                    0 <= i < excluded@.len() && #[trigger] excluded@[i] is Some && char_views(excluded@[i]->0@) == char_views(pc@);
                assert(components(helpers[i]) == components(d.path@));
                assert(helper_excluded(d.path@, helpers));
            } else {
                if helper_excluded(d.path@, helpers) {
                    let j = choose|j: int|
                        0 <= j < helpers.len() && helpers[j].len() > 0 && #[trigger] components(helpers[j]) == components(d.path@);
                    assert(excluded@[j] is Some);
                    assert(char_views(excluded@[j]->0@) == char_views(pc@));
                }
            }
            lemma_sum_kept_prefix(docs, helpers, k + 1);
        }
        if !hit {
            let len = d.length;
            kept.push(d);
            proof {
                assert(kept@.drop_last() =~= kept_documents(docs.take(k as int), helpers));
            }
            total = total + len as u64;
        }
        k += 1;
    }
    proof {
        assert(docs.take(k as int) =~= docs);
        lemma_kept_len(docs, helpers);
    }
    let n = kept.len();
    let removed: usize = if indexed_before >= n { indexed_before - n } else { 0 };
    LoadedCorpus { documents: kept, total_bytes: total, indexed_files: n, skipped_files: skipped_before + removed }
}

/// The SciFact files fetched from the dataset addresses into `out_dir`, as
/// pairs of address and destination: the corpus and queries archives from
/// `base_url`, and the test relevance file from `qrels_base_url` into
/// `qrels/`.
pub fn scifact_downloads(base_url: &str, qrels_base_url: &str, out_dir: &str) -> (r: Vec<(String, String)>)
    ensures
        r@.len() == 3,
        r@[0].0@ == join_url_spec(base_url@, "corpus.jsonl.gz"@),
        r@[0].1@ == path_join(out_dir@, "corpus.jsonl.gz"@),
        r@[1].0@ == join_url_spec(base_url@, "queries.jsonl.gz"@),
        r@[1].1@ == path_join(out_dir@, "queries.jsonl.gz"@),
        r@[2].0@ == join_url_spec(qrels_base_url@, "test.tsv"@),
        r@[2].1@ == path_join(path_join(out_dir@, "qrels"@), "test.tsv"@),
{
    let mut r: Vec<(String, String)> = Vec::new();
    r.push((join_url(base_url, "corpus.jsonl.gz"), join(out_dir, "corpus.jsonl.gz")));
    r.push((join_url(base_url, "queries.jsonl.gz"), join(out_dir, "queries.jsonl.gz")));
    let q = join(out_dir, "qrels");
    r.push((join_url(qrels_base_url, "test.tsv"), join(q.as_str(), "test.tsv")));
    r
}

/// The summary of a completed SciFact download.
pub fn scifact_download_summary() -> (r: DownloadSummary)
    ensures
        r.dataset@ == "scifact"@,
        r.corpus_archive@ == "corpus.jsonl.gz"@,
        r.queries_archive@ == "queries.jsonl.gz"@,
        r.qrels_test@ == "qrels/test.tsv"@,
{
    DownloadSummary {
        dataset: "scifact".to_owned(),
        corpus_archive: "corpus.jsonl.gz".to_owned(),
        queries_archive: "queries.jsonl.gz".to_owned(),
        qrels_test: "qrels/test.tsv".to_owned(),
    }
}

/// Why a queries or relevance file was refused.
#[derive(Debug, Clone, Copy, PartialEq, Eq, Structural)]
pub enum EvalFileError {
    MissingQueryId,
    MissingQueryText,
    MissingQrelsQueryId,
    MissingQrelsCorpusId,
    MissingQrelsScore,
    InvalidQrelsScore,
}

/// What one line of a queries file holds.
pub enum QueryLine {
    Skip,
    Row(Seq<char>, Seq<char>),
    Fail(EvalFileError),
}

/// What one line of a relevance file holds.
pub enum QrelsLine {
    Skip,
    Row(Seq<char>, Seq<char>, u32),
    Fail(EvalFileError),
}

/// The first position of key `k` among `pairs`.
pub open spec fn key_index<V>(pairs: Seq<(Seq<char>, V)>, k: Seq<char>) -> Option<int>
    decreases pairs.len(),
{
    if pairs.len() == 0 {
        None
    } else {
        match key_index(pairs.drop_last(), k) {
            Some(i) => Some(i),
            None => if pairs.last().0 == k { Some(pairs.len() - 1) } else { None },
        }
    }
}

/// `pairs` with key `k` mapped to `v`: its entry replaced where it is
/// listed, else appended.
pub open spec fn upsert<V>(pairs: Seq<(Seq<char>, V)>, k: Seq<char>, v: V) -> Seq<(Seq<char>, V)> {
    match key_index(pairs, k) {
        Some(i) => pairs.update(i, (k, v)),
        None => pairs.push((k, v)),
    }
}

/// The value of key `k` among `pairs`, empty where it is not listed.
pub open spec fn inner_of(pairs: Seq<(Seq<char>, Seq<(Seq<char>, u32)>)>, k: Seq<char>) -> Seq<(Seq<char>, u32)> {
    match key_index(pairs, k) {
        Some(i) => pairs[i].1,
        None => Seq::empty(),
    }
}

/// Whether `s` is a run of ASCII digits.
pub open spec fn all_digits(s: Seq<char>) -> bool {
    forall|i: int| 0 <= i < s.len() ==> '0' <= #[trigger] s[i] && s[i] <= '9'
}

/// The number that decimal digits `s` spell.
pub open spec fn digits_value(s: Seq<char>) -> nat
    decreases s.len(),
{
    if s.len() == 0 {
        0
    } else {
        digits_value(s.drop_last()) * 10 + ((s.last() as int) - ('0' as int)) as nat
    }
}

/// A `u32` read as `str::parse` reads one: an optional `+`, then at least
/// one ASCII digit, with a value that fits.
pub open spec fn parse_u32_spec(s: Seq<char>) -> Option<u32> {
    let d = if s.len() > 0 && s[0] == '+' { s.drop_first() } else { s };
    if d.len() > 0 && all_digits(d) && digits_value(d) <= u32::MAX {
        Some(digits_value(d) as u32)
    } else {
        None
    }
}

/// One line of a queries file: blank lines and a leading header are skipped;
/// otherwise a non-empty identifier, a tab, and non-empty text.
pub open spec fn query_line(line: Seq<char>, index: int) -> QueryLine {
    if trim_spec(line).len() == 0 {
        QueryLine::Skip
    } else if index == 0 && seq_starts_with(line, "query-id\t"@) {
        QueryLine::Skip
    } else {
        match first_index(line, '\t') {
            Some(k) => if k == 0 {
                QueryLine::Fail(EvalFileError::MissingQueryId)
            } else if k + 1 == line.len() {
                QueryLine::Fail(EvalFileError::MissingQueryText)
            } else {
                QueryLine::Row(line.take(k), line.skip(k + 1))
            },
            None => QueryLine::Fail(EvalFileError::MissingQueryText),
        }
    }
}

/// The queries of a file's lines by identifier (a later line for the same
/// identifier replaces an earlier one), or the first line's failure.
pub open spec fn queries_from(lines: Seq<Seq<char>>) -> Result<Seq<(Seq<char>, Seq<char>)>, EvalFileError>
    decreases lines.len(),
{
    if lines.len() == 0 {
        Ok(Seq::empty())
    } else {
        match queries_from(lines.drop_last()) {
            Err(e) => Err(e),
            Ok(m) => match query_line(lines.last(), lines.len() - 1) {
                QueryLine::Skip => Ok(m),
                QueryLine::Row(id, text) => Ok(upsert(m, id, text)),
                QueryLine::Fail(e) => Err(e),
            },
        }
    }
}

/// One line of a relevance file: blank lines and a leading header are
/// skipped; otherwise tab-separated query identifier, corpus identifier and
/// score.
pub open spec fn qrels_line(line: Seq<char>, index: int) -> QrelsLine {
    if trim_spec(line).len() == 0 {
        QrelsLine::Skip
    } else if index == 0 && seq_starts_with(line, "query-id\t"@) {
        QrelsLine::Skip
    } else {
        let cols = split_on(line, '\t');
        if cols[0].len() == 0 {
            QrelsLine::Fail(EvalFileError::MissingQrelsQueryId)
        } else if cols.len() < 2 || cols[1].len() == 0 {
            QrelsLine::Fail(EvalFileError::MissingQrelsCorpusId)
        } else if cols.len() < 3 {
            QrelsLine::Fail(EvalFileError::MissingQrelsScore)
        } else {
            match parse_u32_spec(cols[2]) {
                Some(score) => QrelsLine::Row(cols[0], cols[1], score),
                None => QrelsLine::Fail(EvalFileError::InvalidQrelsScore),
            }
        }
    }
}

/// The relevance judgements of a file's lines, by query then corpus
/// identifier (later lines replace earlier ones), or the first line's
/// failure.
pub open spec fn qrels_from(lines: Seq<Seq<char>>) -> Result<Seq<(Seq<char>, Seq<(Seq<char>, u32)>)>, EvalFileError>
    decreases lines.len(),
{
    if lines.len() == 0 {
        Ok(Seq::empty())
    } else {
        match qrels_from(lines.drop_last()) {
            Err(e) => Err(e),
            Ok(m) => match qrels_line(lines.last(), lines.len() - 1) {
                QrelsLine::Skip => Ok(m),
                QrelsLine::Row(q, c, score) => Ok(upsert(m, q, upsert(inner_of(m, q), c, score))),
                QrelsLine::Fail(e) => Err(e),
            },
        }
    }
}

/// The views of query pairs.
pub open spec fn query_views(v: Seq<(String, String)>) -> Seq<(Seq<char>, Seq<char>)> {
    v.map_values(|p: (String, String)| (p.0@, p.1@))
}

/// The views of scored pairs.
pub open spec fn score_views(v: Seq<(String, u32)>) -> Seq<(Seq<char>, u32)> {
    v.map_values(|p: (String, u32)| (p.0@, p.1))
}

/// The views of relevance judgements.
pub open spec fn qrels_views(v: Seq<(String, Vec<(String, u32)>)>) -> Seq<(Seq<char>, Seq<(Seq<char>, u32)>)> {
    v.map_values(|p: (String, Vec<(String, u32)>)| (p.0@, score_views(p.1@)))
}

/// The first position of a key characterises it.
pub proof fn lemma_key_index<V>(pairs: Seq<(Seq<char>, V)>, k: Seq<char>)
    ensures
        match key_index(pairs, k) {
            Some(i) => 0 <= i < pairs.len() && pairs[i].0 == k && forall|q: int| 0 <= q < i ==> pairs[q].0 != k,
            None => forall|q: int| 0 <= q < pairs.len() ==> pairs[q].0 != k,
        },
    decreases pairs.len(),
{
    if pairs.len() > 0 {
        lemma_key_index(pairs.drop_last(), k);
        assert forall|q: int| 0 <= q < pairs.len() - 1 implies pairs[q] == pairs.drop_last()[q] by {}
    }
}

/// A `u32` read from text as `str::parse` reads it.
pub fn parse_u32(s: &[char]) -> (r: Option<u32>)
    ensures
        r == parse_u32_spec(s@),
{
    let start: usize = if s.len() > 0 && s[0] == '+' { 1 } else { 0 };
    let ghost d = if s@.len() > 0 && s@[0] == '+' { s@.drop_first() } else { s@ };
    assert(d =~= s@.skip(start as int));
    if start >= s.len() {
        return None;
    }
    let mut v: u64 = 0;
    let mut i: usize = start;
    assert(d.take(0) =~= Seq::<char>::empty());
    while i < s.len()
        invariant
            start <= i <= s@.len(),
            start < s@.len(),
            d == s@.skip(start as int),
            d == (if s@.len() > 0 && s@[0] == '+' { s@.drop_first() } else { s@ }),
            all_digits(d.take(i - start)),
            v == digits_value(d.take(i - start)),
            v <= u32::MAX,
        decreases s.len() - i,
    {
        let c = s[i];
        proof {
            let t = d.take(i + 1 - start);
            assert(t.drop_last() =~= d.take(i - start));
            assert(t.last() == c);
        }
        if !('0' <= c && c <= '9') {
            proof {
                assert(d[i - start] == c);
            }
            return None;
        }
        let digit = (c as u32 - '0' as u32) as u64;
        let next = v * 10 + digit;
        if next > 4294967295 {
            proof {
                lemma_digits_prefix(d, i + 1 - start);
            }
            return None;
        }
        v = next;
        i += 1;
        proof {
            assert forall|q: int| 0 <= q < d.take(i - start).len() implies '0' <= #[trigger] d.take(i - start)[q]
                && d.take(i - start)[q] <= '9' by {
                if q < i - 1 - start {
                    assert(d.take(i - start)[q] == d.take(i - 1 - start)[q]);
                }
            }
        }
    }
    assert(d.take(d.len() as int) =~= d);
    Some(v as u32)
}

/// A longer run of digits spells at least as much as its prefix.
proof fn lemma_digits_prefix(d: Seq<char>, k: int)
    requires
        0 <= k <= d.len(),
        all_digits(d.take(k)) ==> true,
    ensures
        all_digits(d) ==> digits_value(d) >= digits_value(d.take(k)),
    decreases d.len(),
{
    if k < d.len() {
        assert(d.drop_last().take(k) =~= d.take(k));
        lemma_digits_prefix(d.drop_last(), k);
        if all_digits(d) {
            assert forall|i: int| 0 <= i < d.drop_last().len() implies '0' <= #[trigger] d.drop_last()[i]
                && d.drop_last()[i] <= '9' by {
                assert(d.drop_last()[i] == d[i]);
            }
            assert(d.last() == d[d.len() - 1]);
        }
    } else {
        assert(d.take(k) =~= d);
    }
}

/// The first position of key `k` among `pairs`.
fn find_pair<V>(pairs: &Vec<(String, V)>, k: &String) -> (r: Option<usize>)
    ensures
        match r {
            Some(j) => j < pairs@.len() && pairs@[j as int].0@ == k@ && forall|q: int|
                0 <= q < j ==> #[trigger] pairs@[q].0@ != k@,
            None => forall|q: int| 0 <= q < pairs@.len() ==> #[trigger] pairs@[q].0@ != k@,
        },
{
    let mut j: usize = 0;
    while j < pairs.len()
        invariant
            j <= pairs@.len(),
            forall|q: int| 0 <= q < j ==> #[trigger] pairs@[q].0@ != k@,
        decreases pairs.len() - j,
    {
        if pairs[j].0 == *k {
            return Some(j);
        }
        j += 1;
    }
    None
}

/// Maps query `k` to `text`.
fn upsert_query(pairs: &mut Vec<(String, String)>, k: String, text: String)
    ensures
        query_views(final(pairs)@) == upsert(query_views(old(pairs)@), k@, text@),
{
    let ghost before = query_views(pairs@);
    proof {
        lemma_key_index(before, k@);
    }
    match find_pair(pairs, &k) {
        Some(j) => {
            proof {
                assert(before[j as int].0 == k@);
                assert forall|q: int| 0 <= q < j implies before[q].0 != k@ by {
                    assert(before[q].0 == pairs@[q].0@);
                }
                match key_index(before, k@) {
                    Some(i) => {
                        if i < j {
                            assert(before[i].0 == pairs@[i].0@);
                        }
                        if j < i {
                            assert(before[j as int].0 == k@);
                        }
                    },
                    None => {
                        assert(before[j as int].0 == k@);
                    },
                }
            }
            let ghost kv = k@;
            let ghost tv = text@;
            pairs.set(j, (k, text));
            assert(query_views(pairs@) =~= before.update(j as int, (kv, tv)));
        },
        None => {
            proof {
                match key_index(before, k@) {
                    Some(i) => {
                        assert(before[i].0 == pairs@[i].0@);
                    },
                    None => {},
                }
            }
            let ghost kv = k@;
            let ghost tv = text@;
            pairs.push((k, text));
            assert(query_views(pairs@) =~= before.push((kv, tv)));
        },
    }
}

/// Maps corpus document `k` to `score`.
fn upsert_score(pairs: &mut Vec<(String, u32)>, k: String, score: u32)
    ensures
        score_views(final(pairs)@) == upsert(score_views(old(pairs)@), k@, score),
{
    let ghost before = score_views(pairs@);
    proof {
        lemma_key_index(before, k@);
    }
    match find_pair(pairs, &k) {
        Some(j) => {
            proof {
                assert(before[j as int].0 == k@);
                match key_index(before, k@) {
                    Some(i) => {
                        if i < j {
                            assert(before[i].0 == pairs@[i].0@);
                        }
                    },
                    None => {},
                }
            }
            let ghost kv = k@;
            pairs.set(j, (k, score));
            assert(score_views(pairs@) =~= before.update(j as int, (kv, score)));
        },
        None => {
            proof {
                match key_index(before, k@) {
                    Some(i) => {
                        assert(before[i].0 == pairs@[i].0@);
                    },
                    None => {},
                }
            }
            let ghost kv = k@;
            pairs.push((k, score));
            assert(score_views(pairs@) =~= before.push((kv, score)));
        },
    }
}

/// Records that corpus document `c` has relevance `score` for query `q`.
fn upsert_judgement(qrels: &mut Vec<(String, Vec<(String, u32)>)>, q: String, c: String, score: u32)
    ensures
        qrels_views(final(qrels)@) == ({
            let m = qrels_views(old(qrels)@);
            upsert(m, q@, upsert(inner_of(m, q@), c@, score))
        }),
{
    let ghost before = qrels_views(qrels@);
    proof {
        lemma_key_index(before, q@);
    }
    match find_pair(qrels, &q) {
        Some(j) => {
            proof {
                assert(before[j as int].0 == q@);
                match key_index(before, q@) {
                    Some(i) => {
                        if i < j {
                            assert(before[i].0 == qrels@[i].0@);
                        }
                    },
                    None => {},
                }
                assert(key_index(before, q@) == Some(j as int));
            }
            let (key, mut inner) = qrels.remove(j);
            proof {
                assert(score_views(inner@) == before[j as int].1);
            }
            upsert_score(&mut inner, c, score);
            let ghost kv = q@;
            let ghost iv = score_views(inner@);
            qrels.insert(j, (q, inner));
            assert(qrels_views(qrels@) =~= before.update(j as int, (kv, iv)));
        },
        None => {
            proof {
                match key_index(before, q@) {
                    Some(i) => {
                        assert(before[i].0 == qrels@[i].0@);
                    },
                    None => {},
                }
            }
            let mut inner: Vec<(String, u32)> = Vec::new();
            proof {
                assert(score_views(inner@) =~= Seq::<(Seq<char>, u32)>::empty());
            }
            upsert_score(&mut inner, c, score);
            let ghost kv = q@;
            let ghost iv = score_views(inner@);
            qrels.push((q, inner));
            assert(qrels_views(qrels@) =~= before.push((kv, iv)));
        },
    }
}

/// The characters of `s` from `a` to `b`.
fn slice_chars(s: &[char], a: usize, b: usize) -> (r: Vec<char>)
    requires
        a <= b <= s@.len(),
    ensures
        r@ == s@.subrange(a as int, b as int),
{
    let mut r: Vec<char> = Vec::new();
    let mut i: usize = a;
    while i < b
        invariant
            a <= i <= b <= s@.len(),
            r@ == s@.subrange(a as int, i as int),
        decreases b - i,
    {
        r.push(s[i]);
        assert(r@ =~= s@.subrange(a as int, i + 1));
        i += 1;
    }
    r
}


/// A failure at a prefix of the lines is the failure of all of them.
proof fn lemma_queries_fail_prefix(ls: Seq<Seq<char>>, k: int)
    requires
        0 <= k <= ls.len(),
        queries_from(ls.take(k)) is Err,
    ensures
        queries_from(ls) == queries_from(ls.take(k)),
    decreases ls.len(),
{
    if k < ls.len() {
        assert(ls.drop_last().take(k) =~= ls.take(k));
        lemma_queries_fail_prefix(ls.drop_last(), k);
    } else {
        assert(ls.take(k) =~= ls);
    }
}

/// A failure at a prefix of the lines is the failure of all of them.
proof fn lemma_qrels_fail_prefix(ls: Seq<Seq<char>>, k: int)
    requires
        0 <= k <= ls.len(),
        qrels_from(ls.take(k)) is Err,
    ensures
        qrels_from(ls) == qrels_from(ls.take(k)),
    decreases ls.len(),
{
    if k < ls.len() {
        assert(ls.drop_last().take(k) =~= ls.take(k));
        lemma_qrels_fail_prefix(ls.drop_last(), k);
    } else {
        assert(ls.take(k) =~= ls);
    }
}

/// Reads a queries file: one `id<TAB>text` line per query, blank lines and a
/// leading `query-id<TAB>` header skipped; a later line for the same
/// identifier replaces an earlier one. Refused at the first line without an
/// identifier or without text.
pub fn parse_queries(contents: &str) -> (r: Result<Vec<(String, String)>, EvalFileError>)
    ensures
        match (r, queries_from(lines_spec(contents@))) {
            (Ok(v), Ok(m)) => query_views(v@) == m,
            (Err(e), Err(e2)) => e == e2,
            _ => false,
        },
{
    let cs = chars_of(contents);
    let lines = lines_of(cs.as_slice());
    let ghost ls = char_seqs(lines@);
    let header = chars_of("query-id\t");
    let mut out: Vec<(String, String)> = Vec::new();
    let mut i: usize = 0;
    assert(ls.take(0) =~= Seq::<Seq<char>>::empty());
    assert(query_views(out@) =~= Seq::<(Seq<char>, Seq<char>)>::empty());
    while i < lines.len()
        invariant
            i <= lines@.len(),
            ls == char_seqs(lines@),
            ls == lines_spec(contents@),
            header@ == "query-id\t"@,
            queries_from(ls.take(i as int)) == Ok::<Seq<(Seq<char>, Seq<char>)>, EvalFileError>(query_views(out@)),
        decreases lines.len() - i,
    {
        let line = lines[i].as_slice();
        proof {
            let t = ls.take(i + 1);
            assert(t.drop_last() =~= ls.take(i as int));
            assert(t.last() == line@);
        }
        let trimmed = crate::text::trim_chars(line);
        if trimmed.len() == 0 || (i == 0 && starts_with(line, header.as_slice())) {
            i += 1;
            continue;
        }
        match find_char(line, '\t') {
            Some(k) => {
                if k == 0 {
                    proof {
                        lemma_queries_fail_prefix(ls, i + 1);
                    }
                    return Err(EvalFileError::MissingQueryId);
                }
                if k + 1 == line.len() {
                    proof {
                        lemma_queries_fail_prefix(ls, i + 1);
                    }
                    return Err(EvalFileError::MissingQueryText);
                }
                let id = slice_chars(line, 0, k);
                let text = slice_chars(line, k + 1, line.len());
                assert(id@ =~= line@.take(k as int));
                assert(text@ =~= line@.skip(k + 1));
                upsert_query(&mut out, string_of(id.as_slice()), string_of(text.as_slice()));
            },
            None => {
                proof {
                    lemma_queries_fail_prefix(ls, i + 1);
                }
                return Err(EvalFileError::MissingQueryText);
            },
        }
        i += 1;
    }
    assert(ls.take(ls.len() as int) =~= ls);
    Ok(out)
}

/// Reads a relevance file: `query<TAB>corpus<TAB>score` per line, blank
/// lines and a leading `query-id<TAB>` header skipped; judgements are kept by
/// query and then by corpus document, a later line replacing an earlier one.
/// Refused at the first line missing a field or with a score that is not a
/// `u32`.
pub fn parse_qrels(contents: &str) -> (r: Result<Vec<(String, Vec<(String, u32)>)>, EvalFileError>)
    ensures
        match (r, qrels_from(lines_spec(contents@))) {
            (Ok(v), Ok(m)) => qrels_views(v@) == m,
            (Err(e), Err(e2)) => e == e2,
            _ => false,
        },
{
    let cs = chars_of(contents);
    let lines = lines_of(cs.as_slice());
    let ghost ls = char_seqs(lines@);
    let header = chars_of("query-id\t");
    let mut out: Vec<(String, Vec<(String, u32)>)> = Vec::new();
    let mut i: usize = 0;
    assert(ls.take(0) =~= Seq::<Seq<char>>::empty());
    assert(qrels_views(out@) =~= Seq::<(Seq<char>, Seq<(Seq<char>, u32)>)>::empty());
    while i < lines.len()
        invariant
            i <= lines@.len(),
            ls == char_seqs(lines@),
            ls == lines_spec(contents@),
            header@ == "query-id\t"@,
            qrels_from(ls.take(i as int)) == Ok::<Seq<(Seq<char>, Seq<(Seq<char>, u32)>)>, EvalFileError>(
                qrels_views(out@),
            ),
        decreases lines.len() - i,
    {
        let line = lines[i].as_slice();
        proof {
            let t = ls.take(i + 1);
            assert(t.drop_last() =~= ls.take(i as int));
            assert(t.last() == line@);
        }
        let trimmed = crate::text::trim_chars(line);
        if trimmed.len() == 0 || (i == 0 && starts_with(line, header.as_slice())) {
            i += 1;
            continue;
        }
        let cols = split_chars(line, '\t');
        proof {
            crate::text::lemma_split_on_nonempty(line@, '\t');
            assert(char_seqs(cols@)[0] == cols@[0]@);
        }
        if cols[0].len() == 0 {
            proof {
                lemma_qrels_fail_prefix(ls, i + 1);
            }
            return Err(EvalFileError::MissingQrelsQueryId);
        }
        if cols.len() < 2 || cols[1].len() == 0 {
            proof {
                if cols@.len() >= 2 {
                    assert(char_seqs(cols@)[1] == cols@[1]@);
                }
                lemma_qrels_fail_prefix(ls, i + 1);
            }
            return Err(EvalFileError::MissingQrelsCorpusId);
        }
        if cols.len() < 3 {
            proof {
                lemma_qrels_fail_prefix(ls, i + 1);
            }
            return Err(EvalFileError::MissingQrelsScore);
        }
        proof {
            assert(char_seqs(cols@)[1] == cols@[1]@);
            assert(char_seqs(cols@)[2] == cols@[2]@);
        }
        let score = match parse_u32(cols[2].as_slice()) {
            Some(v) => v,
            None => {
                proof {
                    lemma_qrels_fail_prefix(ls, i + 1);
                }
                return Err(EvalFileError::InvalidQrelsScore);
            },
        };
        upsert_judgement(&mut out, string_of(cols[0].as_slice()), string_of(cols[1].as_slice()), score);
        i += 1;
    }
    assert(ls.take(ls.len() as int) =~= ls);
    Ok(out)
}

/// What one line of a relevance file contributes to materialization.
pub enum QrelIdLine {
    Skip,
    Row(Seq<char>),
    Fail(EvalFileError),
}

/// One line of a relevance file as materialization reads it: the first line
/// and blank lines are skipped; otherwise the query identifier, with corpus
/// identifier and score required to be present and non-empty.
pub open spec fn qrel_id_line(line: Seq<char>, index: int) -> QrelIdLine {
    if index == 0 || trim_spec(line).len() == 0 {
        QrelIdLine::Skip
    } else {
        let cols = split_on(line, '\t');
        if cols[0].len() == 0 {
            QrelIdLine::Fail(EvalFileError::MissingQrelsQueryId)
        } else if cols.len() < 2 || cols[1].len() == 0 {
            QrelIdLine::Fail(EvalFileError::MissingQrelsCorpusId)
        } else if cols.len() < 3 || cols[2].len() == 0 {
            QrelIdLine::Fail(EvalFileError::MissingQrelsScore)
        } else {
            QrelIdLine::Row(cols[0])
        }
    }
}

/// The query identifiers of a relevance file's lines, in order, or the
/// first line's failure.
pub open spec fn qrel_ids_from(lines: Seq<Seq<char>>) -> Result<Seq<Seq<char>>, EvalFileError>
    decreases lines.len(),
{
    if lines.len() == 0 {
        Ok(Seq::empty())
    } else {
        match qrel_ids_from(lines.drop_last()) {
            Err(e) => Err(e),
            Ok(ids) => match qrel_id_line(lines.last(), lines.len() - 1) {
                QrelIdLine::Skip => Ok(ids),
                QrelIdLine::Row(q) => Ok(ids.push(q)),
                QrelIdLine::Fail(e) => Err(e),
            },
        }
    }
}

/// A failure at a prefix of the lines is the failure of all of them.
proof fn lemma_qrel_ids_fail_prefix(ls: Seq<Seq<char>>, k: int)
    requires
        0 <= k <= ls.len(),
        qrel_ids_from(ls.take(k)) is Err,
    ensures
        qrel_ids_from(ls) == qrel_ids_from(ls.take(k)),
    decreases ls.len(),
{
    if k < ls.len() {
        assert(ls.drop_last().take(k) =~= ls.take(k));
        lemma_qrel_ids_fail_prefix(ls.drop_last(), k);
    } else {
        assert(ls.take(k) =~= ls);
    }
}

/// The query identifiers of a relevance file, one per judgement line.
pub fn qrel_query_ids(contents: &str) -> (r: Result<Vec<String>, EvalFileError>)
    ensures
        match (r, qrel_ids_from(lines_spec(contents@))) {
            (Ok(v), Ok(ids)) => strings(v@) == ids,
            (Err(e), Err(e2)) => e == e2,
            _ => false,
        },
{
    let cs = chars_of(contents);
    let lines = lines_of(cs.as_slice());
    let ghost ls = char_seqs(lines@);
    let mut out: Vec<String> = Vec::new();
    let mut i: usize = 0;
    assert(ls.take(0) =~= Seq::<Seq<char>>::empty());
    assert(strings(out@) =~= Seq::<Seq<char>>::empty());
    while i < lines.len()
        invariant
            i <= lines@.len(),
            ls == char_seqs(lines@),
            ls == lines_spec(contents@),
            qrel_ids_from(ls.take(i as int)) == Ok::<Seq<Seq<char>>, EvalFileError>(strings(out@)),
        decreases lines.len() - i,
    {
        let line = lines[i].as_slice();
        proof {
            let t = ls.take(i + 1);
            assert(t.drop_last() =~= ls.take(i as int));
            assert(t.last() == line@);
        }
        let trimmed = crate::text::trim_chars(line);
        if i == 0 || trimmed.len() == 0 {
            i += 1;
            continue;
        }
        let cols = split_chars(line, '\t');
        proof {
            crate::text::lemma_split_on_nonempty(line@, '\t');
            assert(char_seqs(cols@)[0] == cols@[0]@);
            if cols@.len() >= 2 {
                assert(char_seqs(cols@)[1] == cols@[1]@);
            }
            if cols@.len() >= 3 {
                assert(char_seqs(cols@)[2] == cols@[2]@);
            }
        }
        let missing = if cols[0].len() == 0 {
            Some(EvalFileError::MissingQrelsQueryId)
        } else if cols.len() < 2 || cols[1].len() == 0 {
            Some(EvalFileError::MissingQrelsCorpusId)
        } else if cols.len() < 3 || cols[2].len() == 0 {
            Some(EvalFileError::MissingQrelsScore)
        } else {
            None
        };
        match missing {
            Some(e) => {
                proof {
                    lemma_qrel_ids_fail_prefix(ls, i + 1);
                }
                return Err(e);
            },
            None => {},
        }
        let ghost before = out@;
        out.push(string_of(cols[0].as_slice()));
        assert(strings(out@) =~= strings(before).push(cols@[0]@));
        i += 1;
    }
    assert(ls.take(ls.len() as int) =~= ls);
    Ok(out)
}

/// The text of a materialized document: the trimmed title and a blank line
/// when the title is not blank, then the trimmed body.
pub open spec fn materialized_body_spec(title: Option<Seq<char>>, text: Seq<char>) -> Seq<char> {
    let head = match title {
        Some(t) => if trim_spec(t).len() > 0 { trim_spec(t) + "\n\n"@ } else { Seq::empty() },
        None => Seq::empty(),
    };
    head + trim_spec(text)
}

/// A query row of a materialized queries file: identifier, a tab, and the
/// text with its line breaks turned into spaces.
pub open spec fn query_row_spec(id: Seq<char>, text: Seq<char>) -> Seq<char> {
    id + "\t"@ + text.map_values(|c: char| if c == '\n' { ' ' } else { c })
}

/// The text of a materialized document.
pub fn materialized_body(title: Option<&str>, text: &str) -> (r: String)
    ensures
        r@ == materialized_body_spec(
            match title {
                Some(t) => Some(t@),
                None => None,
            },
            text@,
        ),
{
    let mut out: Vec<char> = Vec::new();
    match title {
        Some(t) => {
            let tt = trim_chars(chars_of(t).as_slice());
            if tt.len() > 0 {
                extend_chars(&mut out, tt.as_slice());
                out.push('\n');
                out.push('\n');
                proof {
                    reveal_strlit("\n\n");
                    assert(out@ =~= trim_spec(t@) + "\n\n"@);
                }
            }
        },
        None => {},
    }
    let body = trim_chars(chars_of(text).as_slice());
    extend_chars(&mut out, body.as_slice());
    string_of(out.as_slice())
}

/// A query row of a materialized queries file.
pub fn materialized_query_row(id: &str, text: &str) -> (r: String)
    ensures
        r@ == query_row_spec(id@, text@),
{
    let mut out = chars_of(id);
    out.push('\t');
    let t = chars_of(text);
    let ghost start = out@;
    let mut i: usize = 0;
    while i < t.len()
        invariant
            i <= t@.len(),
            out@ == start + t@.take(i as int).map_values(|c: char| if c == '\n' { ' ' } else { c }),
        decreases t.len() - i,
    {
        let c = t[i];
        out.push(if c == '\n' { ' ' } else { c });
        assert(t@.take(i + 1).map_values(|c: char| if c == '\n' { ' ' } else { c }) =~= t@.take(i as int).map_values(
            |c: char| if c == '\n' { ' ' } else { c },
        ).push(if c == '\n' { ' ' } else { c }));
        i += 1;
    }
    assert(t@.take(t@.len() as int) =~= t@);
    proof {
        reveal_strlit("\t");
        assert(out@ =~= id@ + "\t"@ + text@.map_values(|c: char| if c == '\n' { ' ' } else { c }));
    }
    string_of(out.as_slice())
}

} // verus!
