//! The result sources that the library computes itself: the indexed lookup,
//! the conversion of scan and grep hits into results, the short-circuit
//! policy between sources, and the final merge.
use vstd::prelude::*;
use vstd::utf8::encode_utf8;
use crate::db::{text_hits, Database};
use crate::fuse::{deduplicate_and_rank, fused, paths_distinct, sorted_by_score};
use crate::model::at_most;
use crate::pathname::{extension, file_name, file_name_spec, path_extension_spec};
use crate::record::{FileRecord, RecordView};
use crate::search::{
    calculate_content_relevance, calculate_relevance, content_score, matches_filters, name_relevance,
    passes_filters, skim_score, token_hit, within_bounds, ContentMatch, SearchQuery, SearchResult,
};
use crate::text::{contains_spec, count_matches, lower_of};

verus! {

/// `res` is the result that the indexed lookup makes of record `rec` for the
/// query text `q` at time `now`.
pub open spec fn result_of_record(res: SearchResult, rec: RecordView, q: Seq<char>, now: i64) -> bool {
    &&& res.path@ == rec.path
    &&& res.name@ == file_name_spec(rec.path)
    &&& res.size == rec.size
    &&& res.modified == rec.modified
    &&& res.file_type@ == rec.file_type
    &&& res.mime_type@ == rec.mime_type
    &&& res.relevance_score == name_relevance(
        skim_score(file_name_spec(rec.path), q),
        contains_spec(lower_of(file_name_spec(rec.path)), lower_of(q)),
        rec.modified,
        now,
    )
    &&& res.content_matches@.len() == 0
    &&& res.is_directory == rec.is_directory
    &&& res.permissions@ == rec.permissions
    &&& res.icon.is_none()
}

/// The records that the indexed lookup turns into results: the shadow-index
/// hits for the query text, at most `max_results` of them, that satisfy
/// every bound of the query.
pub open spec fn indexed_hits(store: Seq<RecordView>, q: SearchQuery) -> Seq<RecordView> {
    at_most(text_hits(store, q.text@), q.max_results as nat).filter(|x: RecordView| passes_filters(x, q))
}

/// The result for an indexed record.
pub fn result_from_record(entry: &FileRecord, query: &str, now: i64) -> (r: SearchResult)
    ensures
        result_of_record(r, entry@, query@, now),
{
    SearchResult {
        path: entry.path.clone(),
        name: file_name(entry.path.as_str()),
        size: entry.size,
        modified: entry.modified,
        file_type: entry.file_type.clone(),
        mime_type: entry.mime_type.clone(),
        relevance_score: calculate_relevance(entry.path.as_str(), query, entry.modified, now),
        content_matches: Vec::new(),
        is_directory: entry.is_directory,
        permissions: entry.permissions.clone(),
        icon: None,
    }
}

/// The indexed lookup: shadow-index hits for the query text, kept only when
/// they satisfy every bound of the query, scored against the clock `now`.
pub fn search_database(db: &Database, query: &SearchQuery, now: i64) -> (r: Vec<SearchResult>)
    requires
        db.wf(),
    ensures
        r@.len() == indexed_hits(db.store(), *query).len(),
        forall|i: int|
            0 <= i < r@.len() ==> result_of_record(
                #[trigger] r@[i],
                indexed_hits(db.store(), *query)[i],
                query.text@,
                now,
            ),
        forall|i: int|
            0 <= i < r@.len() ==> within_bounds(
                (#[trigger] r@[i]).path@,
                r@[i].size,
                r@[i].modified,
                *query,
            ),
{
    let hits = db.fts_search(query.text.as_str(), query.max_results);
    let ghost hv = crate::db::recs_view(hits@);
    let ghost pred = |x: RecordView| passes_filters(x, *query);
    let mut out: Vec<SearchResult> = Vec::new();
    let mut i: usize = 0;
    assert(hv.take(0) =~= Seq::<RecordView>::empty());
    proof {
        reveal(Seq::filter);
    }
    while i < hits.len()
        invariant
            i <= hits@.len() == hv.len(),
            hv == crate::db::recs_view(hits@),
            pred == (|x: RecordView| passes_filters(x, *query)),
            out@.len() == hv.take(i as int).filter(pred).len(),
            forall|k: int|
                0 <= k < out@.len() ==> result_of_record(
                    #[trigger] out@[k],
                    hv.take(i as int).filter(pred)[k],
                    query.text@,
                    now,
                ),
        decreases hits@.len() - i,
    {
        assert(hv.take(i + 1).drop_last() =~= hv.take(i as int));
        assert(hv.take(i + 1).last() == hits@[i as int]@);
        let keep = matches_filters(&hits[i], query);
        proof {
            reveal(Seq::filter);
        }
        if keep {
            let res = result_from_record(&hits[i], query.text.as_str(), now);
            out.push(res);
            proof {
                let f0 = hv.take(i as int).filter(pred);
                let f1 = hv.take(i + 1).filter(pred);
                assert(f1 == f0.push(hits@[i as int]@));
                assert forall|k: int| 0 <= k < out@.len() implies result_of_record(
                    #[trigger] out@[k],
                    f1[k],
                    query.text@,
                    now,
                ) by {
                    if k < f0.len() {
                        assert(f1[k] == f0[k]);
                    }
                }
            }
        }
        i = i + 1;
    }
    assert(hv.take(hv.len() as int) =~= hv);
    proof {
        let f = hv.filter(pred);
        assert forall|k: int| 0 <= k < out@.len() implies within_bounds(
            (#[trigger] out@[k]).path@,
            out@[k].size,
            out@[k].modified,
            *query,
        ) by {
            hv.lemma_filter_pred(pred, k);
            assert(result_of_record(out@[k], f[k], query.text@, now));
        }
    }
    out
}

/// Relies on `mime_guess::from_path(..).first_or_octet_stream()`: the MIME
/// type guessed from the path's extension, `application/octet-stream` when
/// there is no guess.
#[verifier::external_body]
pub(crate) fn guess_mime(path: &str) -> (r: String)
    ensures
        r@ == mime_of(path@),
{
    mime_guess::from_path(path).first_or_octet_stream().to_string()
}

/// The MIME type that `mime_guess` reports first for a path.
pub uninterp spec fn mime_of(path: Seq<char>) -> Seq<char>;

/// The type label of a path: its extension, or `unknown`.
pub open spec fn type_label(path: Seq<char>) -> Seq<char> {
    match path_extension_spec(path) {
        Some(e) => e,
        None => seq!['u', 'n', 'k', 'n', 'o', 'w', 'n'],
    }
}

/// The type label of `path`: its extension, or `unknown`.
pub fn get_file_type(path: &str) -> (r: String)
    ensures
        r@ == type_label(path@),
{
    match extension(path) {
        Some(e) => e,
        None => {
            let u = "unknown".to_owned();
            proof {
                reveal_strlit("unknown");
            }
            assert(u@ =~= seq!['u', 'n', 'k', 'n', 'o', 'w', 'n']);
            u
        },
    }
}

/// File facts that the scanning tools report for a hit, read from disk by
/// the caller.
pub struct HitFacts {
    pub path: String,
    pub size: u64,
    pub modified: i64,
    pub is_directory: bool,
    pub permissions: String,
}

/// The result for a file-name hit of the live filesystem scan.
pub fn filesystem_result(facts: HitFacts, query: &str, now: i64) -> (r: SearchResult)
    ensures
        r.path@ == facts.path@,
        r.name@ == file_name_spec(facts.path@),
        r.size == facts.size,
        r.modified == facts.modified,
        r.file_type@ == type_label(facts.path@),
        r.mime_type@ == mime_of(facts.path@),
        r.relevance_score == name_relevance(
            skim_score(file_name_spec(facts.path@), query@),
            contains_spec(lower_of(file_name_spec(facts.path@)), lower_of(query@)),
            facts.modified,
            now,
        ),
        r.content_matches@.len() == 0,
        r.is_directory == facts.is_directory,
        r.permissions@ == facts.permissions@,
        r.icon.is_none(),
{
    let name = file_name(facts.path.as_str());
    let file_type = get_file_type(facts.path.as_str());
    let mime_type = guess_mime(facts.path.as_str());
    let score = calculate_relevance(facts.path.as_str(), query, facts.modified, now);
    SearchResult {
        path: facts.path,
        name: name,
        size: facts.size,
        modified: facts.modified,
        file_type: file_type,
        mime_type: mime_type,
        relevance_score: score,
        content_matches: Vec::new(),
        is_directory: facts.is_directory,
        permissions: facts.permissions,
        icon: None,
    }
}

/// A match span lies within a line of `len` characters.
pub open spec fn span_fits(sp: (usize, usize), len: nat) -> bool {
    sp.0 <= sp.1 && sp.1 <= len
}

/// The spans that lie within a line of `len` characters, in order.
pub open spec fn fitting_spans(spans: Seq<(usize, usize)>, len: nat) -> Seq<(usize, usize)> {
    spans.filter(|sp: (usize, usize)| span_fits(sp, len))
}

/// The result for a line-level hit of the content grep: each span that lies
/// within the line becomes one of `content_matches`, in order (others are
/// dropped), and the score is the content relevance of the line.
pub fn content_result(facts: HitFacts, line_number: usize, line: String, spans: &Vec<(usize, usize)>, query: &str) -> (r: SearchResult)
    ensures
        r.path@ == facts.path@,
        r.name@ == file_name_spec(facts.path@),
        r.size == facts.size,
        r.modified == facts.modified,
        r.file_type@ == type_label(facts.path@),
        r.mime_type@ == mime_of(facts.path@),
        r.relevance_score == content_score(
            count_matches(lower_of(line@), lower_of(query@)),
            encode_utf8(query@).len(),
            encode_utf8(line@).len(),
            token_hit(lower_of(line@), lower_of(query@)),
        ),
        r.content_matches@.len() == fitting_spans(spans@, line@.len()).len(),
        forall|i: int|
            0 <= i < r.content_matches@.len() ==> {
                let m = #[trigger] r.content_matches@[i];
                &&& m.line_number == line_number
                &&& m.line_content@ == line@
                &&& m.match_start == fitting_spans(spans@, line@.len())[i].0
                &&& m.match_end == fitting_spans(spans@, line@.len())[i].1
                &&& m.match_start <= m.match_end <= m.line_content@.len()
            },
        !r.is_directory,
        r.permissions@ == facts.permissions@,
        r.icon.is_none(),
{
    let ghost pred = |sp: (usize, usize)| span_fits(sp, line@.len());
    let n = line.as_str().unicode_len();
    let mut matches: Vec<ContentMatch> = Vec::new();
    let mut i: usize = 0;
    assert(spans@.take(0) =~= Seq::<(usize, usize)>::empty());
    proof {
        reveal(Seq::filter);
    }
    while i < spans.len()
        invariant
            i <= spans@.len(),
            n == line@.len(),
            pred == (|sp: (usize, usize)| span_fits(sp, line@.len())),
            matches@.len() == spans@.take(i as int).filter(pred).len(),
            forall|k: int|
                0 <= k < matches@.len() ==> {
                    let m = #[trigger] matches@[k];
                    &&& m.line_number == line_number
                    &&& m.line_content@ == line@
                    &&& m.match_start == spans@.take(i as int).filter(pred)[k].0
                    &&& m.match_end == spans@.take(i as int).filter(pred)[k].1
                    &&& m.match_start <= m.match_end <= m.line_content@.len()
                },
        decreases spans@.len() - i,
    {
        assert(spans@.take(i + 1).drop_last() =~= spans@.take(i as int));
        assert(spans@.take(i + 1).last() == spans@[i as int]);
        proof {
            reveal(Seq::filter);
        }
        let (a, b) = spans[i];
        if a <= b && b <= n {
            matches.push(
                ContentMatch {
                    line_number: line_number,
                    line_content: line.clone(),
                    match_start: a,
                    match_end: b,
                },
            );
            proof {
                let f0 = spans@.take(i as int).filter(pred);
                let f1 = spans@.take(i + 1).filter(pred);
                assert(f1 == f0.push(spans@[i as int]));
                assert forall|k: int| 0 <= k < matches@.len() implies {
                    let m = #[trigger] matches@[k];
                    &&& m.line_number == line_number
                    &&& m.line_content@ == line@
                    &&& m.match_start == f1[k].0
                    &&& m.match_end == f1[k].1
                    &&& m.match_start <= m.match_end <= m.line_content@.len()
                } by {
                    if k < f0.len() {
                        assert(f1[k] == f0[k]);
                    }
                }
            }
        }
        i = i + 1;
    }
    assert(spans@.take(spans@.len() as int) =~= spans@);
    let name = file_name(facts.path.as_str());
    let file_type = get_file_type(facts.path.as_str());
    let mime_type = guess_mime(facts.path.as_str());
    let score = calculate_content_relevance(line.as_str(), query);
    SearchResult {
        path: facts.path,
        name: name,
        size: facts.size,
        modified: facts.modified,
        file_type: file_type,
        mime_type: mime_type,
        relevance_score: score,
        content_matches: matches,
        is_directory: false,
        permissions: facts.permissions,
        icon: None,
    }
}

/// The query for free text: what the interpreter made of it, or, when it
/// failed, the plain natural-language query.
pub fn structured_query(interpreted: Option<SearchQuery>, text: &str) -> (r: SearchQuery)
    ensures
        interpreted is Some ==> r == interpreted->0,
        interpreted is None ==> r.text@ == text@ && r.search_content && r.include_hidden
            && r.max_results == 1000 && r.fuzzy_threshold == 400 && r.file_types@.len() == 0
            && r.size_min is None && r.size_max is None && r.modified_after is None
            && r.modified_before is None,
{
    match interpreted {
        Some(q) => q,
        None => SearchQuery::natural_language(text),
    }
}

/// Whether the live filesystem scan runs: only while fewer than
/// `max_results` results have been gathered.
pub fn should_scan_filesystem(gathered: usize, query: &SearchQuery) -> (r: bool)
    ensures
        r == (gathered < query.max_results),
{
    gathered < query.max_results
}

/// Whether the content grep runs: only for a content query, and only while
/// fewer than `max_results` results have been gathered.
pub fn should_grep_content(gathered: usize, query: &SearchQuery) -> (r: bool)
    ensures
        r == (query.search_content && gathered < query.max_results),
{
    query.search_content && gathered < query.max_results
}

/// Merges the outputs of the four sources, in source order, and fuses them.
pub fn fuse_sources(
    indexed: Vec<SearchResult>,
    filesystem: Vec<SearchResult>,
    content: Vec<SearchResult>,
    cloud: Vec<SearchResult>,
    query: &SearchQuery,
) -> (r: Vec<SearchResult>)
    ensures
        fused(indexed@ + filesystem@ + content@ + cloud@, query.max_results as nat, r@),
        paths_distinct(r@),
        r@.len() <= query.max_results,
        sorted_by_score(r@),
{
    let mut all = indexed;
    let mut fs = filesystem;
    let mut ct = content;
    let mut cl = cloud;
    all.append(&mut fs);
    all.append(&mut ct);
    all.append(&mut cl);
    deduplicate_and_rank(all, query.max_results)
}

} // verus!
