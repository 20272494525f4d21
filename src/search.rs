//! Structured queries, results, the bound filters and relevance scoring.
use vstd::prelude::*;
use vstd::utf8::encode_utf8;
use crate::pathname::{extension, file_name, file_name_spec, path_extension_spec};
use crate::record::{FileRecord, RecordView};
use crate::text::{
    contains, contains_spec, count_matches, count_matches_chars, is_white, lower_of,
    lowercase, to_chars, white_space,
};

verus! {

/// A structured search request. Times are seconds since the Unix epoch;
/// `fuzzy_threshold` is in thousandths.
#[derive(Clone, Debug)]
pub struct SearchQuery {
    pub text: String,
    pub file_types: Vec<String>,
    pub size_min: Option<u64>,
    pub size_max: Option<u64>,
    pub modified_after: Option<i64>,
    pub modified_before: Option<i64>,
    pub search_content: bool,
    pub include_hidden: bool,
    pub max_results: usize,
    pub fuzzy_threshold: u32,
}

/// One line-level content hit.
#[derive(Clone, Debug)]
pub struct ContentMatch {
    pub line_number: usize,
    pub line_content: String,
    pub match_start: usize,
    pub match_end: usize,
}

/// One ranked hit. `relevance_score` is in thousandths.
#[derive(Clone, Debug)]
pub struct SearchResult {
    pub path: String,
    pub name: String,
    pub size: u64,
    pub modified: i64,
    pub file_type: String,
    pub mime_type: String,
    pub relevance_score: u64,
    pub content_matches: Vec<ContentMatch>,
    pub is_directory: bool,
    pub permissions: String,
    pub icon: Option<String>,
}

impl SearchQuery {
    /// A plain text query: no bounds, file names only, up to 1000 results.
    pub fn from_text(text: &str) -> (r: SearchQuery)
        ensures
            r.text@ == text@,
            r.file_types@.len() == 0,
            r.size_min.is_none() && r.size_max.is_none(),
            r.modified_after.is_none() && r.modified_before.is_none(),
            !r.search_content && !r.include_hidden,
            r.max_results == 1000,
            r.fuzzy_threshold == 600,
    {
        SearchQuery {
            text: text.to_owned(),
            file_types: Vec::new(),
            size_min: None,
            size_max: None,
            modified_after: None,
            modified_before: None,
            search_content: false,
            include_hidden: false,
            max_results: 1000,
            fuzzy_threshold: 600,
        }
    }

    /// The fallback for free text: like `from_text`, but searching content
    /// and hidden files, with a more lenient fuzzy threshold.
    pub fn natural_language(text: &str) -> (r: SearchQuery)
        ensures
            r.text@ == text@,
            r.file_types@.len() == 0,
            r.size_min.is_none() && r.size_max.is_none(),
            r.modified_after.is_none() && r.modified_before.is_none(),
            r.search_content && r.include_hidden,
            r.max_results == 1000,
            r.fuzzy_threshold == 400,
    {
        let mut query = Self::from_text(text);
        query.search_content = true;
        query.include_hidden = true;
        query.fuzzy_threshold = 400;
        query
    }
}

/// The extension that a type filter compares against: the path's own, or
/// the empty string when it has none.
pub open spec fn filter_extension(path: Seq<char>) -> Seq<char> {
    match path_extension_spec(path) {
        Some(e) => e,
        None => Seq::empty(),
    }
}

/// Every bound of `q` holds of a file with this path, size and time: the
/// size and date bounds, and the type set when it is not empty.
pub open spec fn within_bounds(path: Seq<char>, size: u64, modified: i64, q: SearchQuery) -> bool {
    &&& (q.size_min matches Some(m) ==> size >= m)
    &&& (q.size_max matches Some(m) ==> size <= m)
    &&& (q.modified_after matches Some(t) ==> modified >= t)
    &&& (q.modified_before matches Some(t) ==> modified <= t)
    &&& (q.file_types@.len() > 0 ==> exists|i: int|
        0 <= i < q.file_types@.len() && (#[trigger] q.file_types@[i])@ == filter_extension(path))
}

pub open spec fn passes_filters(r: RecordView, q: SearchQuery) -> bool {
    within_bounds(r.path, r.size, r.modified, q)
}

/// Whether `ext` is one of `types`.
fn type_listed(types: &Vec<String>, ext: &String) -> (r: bool)
    ensures
        r == exists|i: int| 0 <= i < types@.len() && (#[trigger] types@[i])@ == ext@,
{
    let mut i: usize = 0;
    while i < types.len()
        invariant
            i <= types@.len(),
            forall|k: int| 0 <= k < i ==> (#[trigger] types@[k])@ != ext@,
        decreases types@.len() - i,
    {
        if types[i] == *ext {
            assert((types@[i as int])@ == ext@);
            return true;
        }
        i = i + 1;
    }
    false
}

/// Whether `entry` satisfies every bound of `query`.
pub fn matches_filters(entry: &FileRecord, query: &SearchQuery) -> (r: bool)
    ensures
        r == passes_filters(entry@, *query),
{
    if let Some(min_size) = query.size_min {
        if entry.size < min_size {
            return false;
        }
    }
    if let Some(max_size) = query.size_max {
        if entry.size > max_size {
            return false;
        }
    }
    if let Some(after) = query.modified_after {
        if entry.modified < after {
            return false;
        }
    }
    if let Some(before) = query.modified_before {
        if entry.modified > before {
            return false;
        }
    }
    if query.file_types.len() > 0 {
        let ext: String = match extension(entry.path.as_str()) {
            Some(e) => e,
            None => String::new(),
        };
        assert(ext@ == filter_extension(entry.path@));
        return type_listed(&query.file_types, &ext);
    }
    true
}

/// Seconds in a day.
pub const DAY_SECS: i64 = 86400;

/// Whole days from `modified` to `now`, capped at 30; 0 for a future time.
pub open spec fn age_days(modified: i64, now: i64) -> int {
    if now <= modified {
        0
    } else if (now - modified) / (DAY_SECS as int) >= 30 {
        30
    } else {
        (now - modified) / (DAY_SECS as int)
    }
}

/// The fuzzy similarity in thousandths: the matcher's score clamped to
/// [0, 100] and scaled, 0 when it finds no match.
pub open spec fn fuzzy_part(score: Option<i64>) -> int {
    match score {
        Some(s) => if s <= 0 { 0 } else if s >= 100 { 1000 } else { s * 10 },
        None => 0,
    }
}

/// Relevance of a file-name hit in thousandths: fuzzy similarity, plus 500
/// when the name contains the query ignoring case, plus a recency bonus of
/// up to 200 that falls linearly to 0 over 30 days.
pub open spec fn name_relevance(score: Option<i64>, contains_query: bool, modified: i64, now: i64) -> int {
    fuzzy_part(score) + (if contains_query { 500int } else { 0int }) + (30 - age_days(modified, now))
        * 200 / 30
}

/// What `fuzzy_matcher::skim::fuzzy_match(choice, pattern)` returns.
pub uninterp spec fn skim_score(choice: Seq<char>, pattern: Seq<char>) -> Option<i64>;

/// Relies on `fuzzy_matcher::skim::fuzzy_match`: a score that depends on the
/// two strings alone, `Some(0)` for an empty pattern.
#[verifier::external_body]
fn fuzzy_match(choice: &str, pattern: &str) -> (r: Option<i64>)
    ensures
        r == skim_score(choice@, pattern@),
        pattern@.len() == 0 ==> r == Some(0i64),
{
    #[allow(deprecated)]
    fuzzy_matcher::skim::fuzzy_match(choice, pattern)
}

/// The relevance of a file-name hit, from the matcher's score and whether
/// the lower-cased name contains the lower-cased query.
pub fn relevance_from(score: Option<i64>, contains_query: bool, modified: i64, now: i64) -> (r: u64)
    ensures
        r as int == name_relevance(score, contains_query, modified, now),
        r <= 1700,
{
    let fuzzy: u64 = match score {
        Some(s) => if s <= 0 {
            0
        } else if s >= 100 {
            1000
        } else {
            (s as u64) * 10
        },
        None => 0,
    };
    let exact: u64 = if contains_query {
        500
    } else {
        0
    };
    let days: i64 = if now <= modified {
        0
    } else {
        let d = (now as i128 - modified as i128) / (DAY_SECS as i128);
        if d >= 30 {
            30
        } else {
            d as i64
        }
    };
    let recency: u64 = ((30 - days) as u64) * 200 / 30;
    assert(recency <= 200) by (nonlinear_arith)
        requires
            0 <= days <= 30,
            recency == ((30 - days) as u64) * 200 / 30,
    ;
    fuzzy + exact + recency
}

/// The relevance of a file-name hit for `path` against `query`, for a file
/// last modified at `modified` and the clock at `now`.
pub fn calculate_relevance(path: &str, query: &str, modified: i64, now: i64) -> (r: u64)
    ensures
        r as int == name_relevance(
            skim_score(file_name_spec(path@), query@),
            contains_spec(lower_of(file_name_spec(path@)), lower_of(query@)),
            modified,
            now,
        ),
{
    let name = file_name(path);
    let score = fuzzy_match(name.as_str(), query);
    let nl = lowercase(name.as_str());
    let ql = lowercase(query);
    let hit = contains(nl.as_str(), ql.as_str());
    relevance_from(score, hit, modified, now)
}

/// Some whitespace-delimited token of `c` contains `q`. A non-empty `q`
/// lies inside one token exactly when it holds no whitespace and occurs; the
/// empty `q` is in every token, so it needs one to exist.
pub open spec fn token_hit(c: Seq<char>, q: Seq<char>) -> bool {
    if q.len() == 0 {
        exists|i: int| 0 <= i < c.len() && !white_space(#[trigger] c[i])
    } else {
        (forall|j: int| 0 <= j < q.len() ==> !white_space(#[trigger] q[j])) && contains_spec(c, q)
    }
}

/// Relevance of a content hit in thousandths: occurrences times query
/// length over content length (at least 1), normalized to at most 1000,
/// plus 300 when a token contains the query.
pub open spec fn content_score(occurrences: nat, query_len: nat, content_len: nat, token: bool) -> int {
    let freq = (occurrences * query_len * 1000) as int / (if content_len == 0 { 1 } else { content_len }) as int;
    (if freq > 1000 { 1000 } else { freq }) + if token { 300int } else { 0int }
}

/// Whether some whitespace-delimited token of `content` contains `query`.
pub fn has_token_hit(content: &Vec<char>, query: &Vec<char>) -> (r: bool)
    ensures
        r == token_hit(content@, query@),
{
    if query.len() == 0 {
        let mut i: usize = 0;
        while i < content.len()
            invariant
                i <= content@.len(),
                query@.len() == 0,
                forall|k: int| 0 <= k < i ==> white_space(#[trigger] content@[k]),
            decreases content@.len() - i,
        {
            if !is_white(content[i]) {
                assert(!white_space(content@[i as int]));
                return true;
            }
            i = i + 1;
        }
        return false;
    }
    let mut j: usize = 0;
    while j < query.len()
        invariant
            j <= query@.len(),
            query@.len() > 0,
            forall|k: int| 0 <= k < j ==> !white_space(#[trigger] query@[k]),
        decreases query@.len() - j,
    {
        if is_white(query[j]) {
            return false;
        }
        j = j + 1;
    }
    crate::text::contains_chars(content, query)
}

/// The content relevance from the lower-cased line and query, and the
/// lengths of the line and query as given.
pub fn content_score_from(content_lower: &str, query_lower: &str, query_len: usize, content_len: usize) -> (r: u64)
    ensures
        r as int == content_score(
            count_matches(content_lower@, query_lower@),
            query_len as nat,
            content_len as nat,
            token_hit(content_lower@, query_lower@),
        ),
        r <= 1300,
{
    let c = to_chars(content_lower);
    let q = to_chars(query_lower);
    let n = c.len();
    let occ = count_matches_chars(&c, &q);
    let token = has_token_hit(&c, &q);
    let denom: u128 = if content_len == 0 {
        1
    } else {
        content_len as u128
    };
    assert(occ * query_len < 0x1_0000_0000_0000_0000_0000_0000_0000_0000) by (nonlinear_arith)
        requires
            occ <= n + 1,
            n <= usize::MAX,
            query_len <= usize::MAX,
            usize::MAX < 0x1_0000_0000_0000_0000,
    ;
    let prod: u128 = occ * (query_len as u128);
    let freq: u128 = if prod > denom {
        1000
    } else {
        assert(prod * 1000 <= denom * 1000) by (nonlinear_arith)
            requires
                prod <= denom,
        ;
        let f = prod * 1000 / denom;
        assert(f <= 1000) by (nonlinear_arith)
            requires
                f as int == (prod * 1000) as int / denom as int,
                prod <= denom,
                denom >= 1,
        ;
        f
    };
    proof {
        let full = (occ * query_len * 1000) as int / denom as int;
        if prod > denom {
            assert(full >= 1000) by (nonlinear_arith)
                requires
                    full == (prod * 1000) as int / denom as int,
                    prod > denom,
                    denom >= 1,
            ;
        }
    }
    let bonus: u64 = if token {
        300
    } else {
        0
    };
    freq as u64 + bonus
}

/// The relevance of the content line `content` for `query`; lengths are
/// counted in bytes.
pub fn calculate_content_relevance(content: &str, query: &str) -> (r: u64)
    ensures
        r as int == content_score(
            count_matches(lower_of(content@), lower_of(query@)),
            encode_utf8(query@).len(),
            encode_utf8(content@).len(),
            token_hit(lower_of(content@), lower_of(query@)),
        ),
{
    let ql = lowercase(query);
    let cl = lowercase(content);
    let qn = query.as_bytes().len();
    let cn = content.as_bytes().len();
    content_score_from(cl.as_str(), ql.as_str(), qn, cn)
}

} // verus!
