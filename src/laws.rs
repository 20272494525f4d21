//! Laws of the store, the full-text index, the fuser and the indexing run,
//! stated over the models that the operations' contracts use.
use vstd::prelude::*;
use crate::db::{doc_hits, kept_content};
use crate::model::{
    at_most, docs_unique, find_doc, find_id, find_path, lemma_find_unique_id,
    lemma_find_unique_path, lemma_last_match, lemma_upserted, lemma_without_doc,
    lemma_without_path, replaced, store_wf, upserted, with_doc, without_doc, without_path,
};
use crate::record::{projection, DocView, RecordView};

verus! {

proof fn lemma_replaced_identity(s: Seq<RecordView>, r: RecordView)
    requires
        forall|i: int|
            0 <= i < s.len() && (s[i].path == r.path || s[i].id == r.id) ==> #[trigger] s[i] == r,
    ensures
        replaced(s, r) == s,
    decreases s.len(),
{
    if s.len() > 0 {
        let d = s.drop_last();
        assert forall|i: int|
            0 <= i < d.len() && (d[i].path == r.path || d[i].id == r.id) implies #[trigger] d[i] == r by {
            assert(d[i] == s[i]);
        }
        lemma_replaced_identity(d, r);
        assert(s.last() == s[s.len() - 1]);
        assert(d.push(s.last()) =~= s);
    }
}

/// Upserting a record that the store already holds, while the index holds
/// its projection (with text only once the record says its content was
/// extracted), leaves both the store and the index as they were.
pub proof fn lemma_upsert_idempotent(
    s: Seq<RecordView>,
    docs: Seq<DocView>,
    r: RecordView,
    content: Option<Seq<char>>,
)
    requires
        store_wf(s),
        docs_unique(docs),
        s.contains(r),
        docs.contains(projection(r, content)),
        r.content_extracted || content.is_none(),
    ensures
        upserted(s, r) == s,
        with_doc(docs, projection(r, kept_content(docs, r))) == docs,
{
    let k = choose|k: int| 0 <= k < s.len() && s[k] == r;
    assert forall|i: int|
        0 <= i < s.len() && (s[i].path == r.path || s[i].id == r.id) implies #[trigger] s[i] == r by {
        assert(s[k] == r);
        if i != k {
            assert(s[i].path != s[k].path && s[i].id != s[k].id);
        }
    }
    lemma_replaced_identity(s, r);
    lemma_find_unique_path(s, r.path, k);
    let d = projection(r, content);
    let j = choose|j: int| 0 <= j < docs.len() && docs[j] == d;
    lemma_last_match(docs, |x: DocView| x.id == r.id);
    assert(find_doc(docs, r.id) == j) by {
        let f = find_doc(docs, r.id);
        assert(f >= j);
        if f != j {
            assert(docs[f].id != docs[j].id);
        }
    }
    assert(projection(r, kept_content(docs, r)) == d);
    assert(docs.update(j, d) =~= docs);
}

/// After an upsert of `r`, a lookup by its path finds `r`, and a lookup by
/// the identifier of what was found finds the same record.
pub proof fn lemma_upsert_round_trip(s: Seq<RecordView>, r: RecordView)
    requires
        store_wf(s),
    ensures
        ({
            let u = upserted(s, r);
            let p = find_path(u, r.path);
            &&& p >= 0
            &&& u[p] == r
            &&& find_id(u, u[p].id) >= 0
            &&& u[find_id(u, u[p].id)] == r
        }),
{
    lemma_upserted(s, r);
    let u = upserted(s, r);
    let k = choose|k: int| 0 <= k < u.len() && u[k] == r;
    lemma_find_unique_path(u, r.path, k);
    lemma_find_unique_id(u, r.id, k);
}

/// After the record for `path` is deleted and its document dropped from the
/// index, a lookup by `path` finds nothing and no full-text query returns
/// the deleted identifier.
pub proof fn lemma_delete_forgets(
    s: Seq<RecordView>,
    docs: Seq<DocView>,
    path: Seq<char>,
    id: Seq<char>,
    query: Seq<char>,
    limit: nat,
)
    requires
        store_wf(s),
        docs_unique(docs),
    ensures
        find_path(without_path(s, path), path) == -1,
        !at_most(doc_hits(without_doc(docs, id), query), limit).map_values(|d: DocView| d.id).contains(
            id,
        ),
{
    lemma_without_path(s, path);
    let w = without_path(s, path);
    lemma_last_match(w, |x: RecordView| x.path == path);
    if find_path(w, path) >= 0 {
        assert(w[find_path(w, path)].path != path);
    }
    lemma_without_doc(docs, id);
    let wd = without_doc(docs, id);
    crate::db::lemma_doc_hits_unique(wd, query);
    let h = doc_hits(wd, query);
    let a = at_most(h, limit);
    let ids = a.map_values(|d: DocView| d.id);
    if ids.contains(id) {
        let i = choose|i: int| 0 <= i < ids.len() && ids[i] == id;
        assert(a[i] == h[i]);
        assert(wd.contains(h[i]));
        let m = choose|m: int| 0 <= m < wd.len() && wd[m] == h[i];
        assert(wd[m].id != id);
    }
}

} // verus!
