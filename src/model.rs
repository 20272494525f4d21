//! The mathematical model of the metadata store: a sequence of record values
//! with unique paths and unique identifiers, and what each write does to it.
use vstd::prelude::*;
use crate::record::{DocView, RecordView};

verus! {

/// The first `n` elements of `s`, or all of them when there are fewer.
pub open spec fn at_most<T>(s: Seq<T>, n: nat) -> Seq<T> {
    if s.len() <= n {
        s
    } else {
        s.take(n as int)
    }
}

/// Every element that a filter keeps comes from the filtered sequence.
pub proof fn lemma_filter_subset<T>(s: Seq<T>, pred: spec_fn(T) -> bool)
    ensures
        forall|i: int| 0 <= i < s.filter(pred).len() ==> s.contains(#[trigger] s.filter(pred)[i]),
        s.filter(pred).len() <= s.len(),
    decreases s.len(),
{
    reveal(Seq::filter);
    if s.len() > 0 {
        let d = s.drop_last();
        lemma_filter_subset(d, pred);
        let f = s.filter(pred);
        assert forall|i: int| 0 <= i < f.len() implies s.contains(#[trigger] f[i]) by {
            if i < d.filter(pred).len() {
                assert(f[i] == d.filter(pred)[i]);
                let m = choose|m: int| 0 <= m < d.len() && d[m] == f[i];
                assert(s[m] == d[m]);
            } else {
                assert(f[i] == s.last());
                assert(s[s.len() - 1] == s.last());
            }
        }
    }
}

/// Index of the last element satisfying `pred`, or -1.
pub open spec fn last_match<T>(s: Seq<T>, pred: spec_fn(T) -> bool) -> int
    decreases s.len(),
{
    if s.len() == 0 {
        -1
    } else if pred(s.last()) {
        s.len() - 1
    } else {
        last_match(s.drop_last(), pred)
    }
}

pub proof fn lemma_last_match<T>(s: Seq<T>, pred: spec_fn(T) -> bool)
    ensures
        -1 <= last_match(s, pred) < s.len(),
        last_match(s, pred) >= 0 ==> pred(s[last_match(s, pred)]),
        forall|k: int| last_match(s, pred) < k < s.len() ==> !pred(#[trigger] s[k]),
    decreases s.len(),
{
    if s.len() > 0 && !pred(s.last()) {
        lemma_last_match(s.drop_last(), pred);
        assert forall|k: int| last_match(s, pred) < k < s.len() implies !pred(#[trigger] s[k]) by {
            if k < s.len() - 1 {
                assert(s[k] == s.drop_last()[k]);
            }
        }
    }
}

/// Position of the record for `path`, or -1.
pub open spec fn find_path(s: Seq<RecordView>, path: Seq<char>) -> int {
    last_match(s, |x: RecordView| x.path == path)
}

/// Position of the record with identifier `id`, or -1.
pub open spec fn find_id(s: Seq<RecordView>, id: Seq<char>) -> int {
    last_match(s, |x: RecordView| x.id == id)
}

pub open spec fn paths_unique(s: Seq<RecordView>) -> bool {
    forall|i: int, j: int|
        0 <= i < s.len() && 0 <= j < s.len() && i != j ==> #[trigger] s[i].path != #[trigger] s[j].path
}

pub open spec fn ids_unique(s: Seq<RecordView>) -> bool {
    forall|i: int, j: int|
        0 <= i < s.len() && 0 <= j < s.len() && i != j ==> #[trigger] s[i].id != #[trigger] s[j].id
}

/// Paths and identifiers each name at most one record.
pub open spec fn store_wf(s: Seq<RecordView>) -> bool {
    paths_unique(s) && ids_unique(s)
}

/// A record that a write of `r` leaves alone: it shares neither path nor id.
pub open spec fn unrelated(x: RecordView, r: RecordView) -> bool {
    x.path != r.path && x.id != r.id
}

/// `s` with the record for `r.path` replaced by `r` in place and any other
/// record that carries `r.id` removed.
pub open spec fn replaced(s: Seq<RecordView>, r: RecordView) -> Seq<RecordView>
    decreases s.len(),
{
    if s.len() == 0 {
        s
    } else {
        let rest = replaced(s.drop_last(), r);
        let x = s.last();
        if x.path == r.path {
            rest.push(r)
        } else if x.id == r.id {
            rest
        } else {
            rest.push(x)
        }
    }
}

/// The store after inserting or replacing `r`: the record for `r.path` is
/// replaced in place, or `r` is appended when the path is new; a different
/// record that held `r.id` is dropped, as identifiers are unique.
pub open spec fn upserted(s: Seq<RecordView>, r: RecordView) -> Seq<RecordView> {
    if find_path(s, r.path) >= 0 {
        replaced(s, r)
    } else {
        replaced(s, r).push(r)
    }
}

/// `s` without the record for `path`.
pub open spec fn without_path(s: Seq<RecordView>, path: Seq<char>) -> Seq<RecordView>
    decreases s.len(),
{
    if s.len() == 0 {
        s
    } else {
        let rest = without_path(s.drop_last(), path);
        if s.last().path == path {
            rest
        } else {
            rest.push(s.last())
        }
    }
}

pub proof fn lemma_find_unique_path(s: Seq<RecordView>, path: Seq<char>, k: int)
    requires
        paths_unique(s),
        0 <= k < s.len(),
        s[k].path == path,
    ensures
        find_path(s, path) == k,
{
    lemma_last_match(s, |x: RecordView| x.path == path);
}

pub proof fn lemma_find_unique_id(s: Seq<RecordView>, id: Seq<char>, k: int)
    requires
        ids_unique(s),
        0 <= k < s.len(),
        s[k].id == id,
    ensures
        find_id(s, id) == k,
{
    lemma_last_match(s, |x: RecordView| x.id == id);
}

pub proof fn lemma_find_path_none(s: Seq<RecordView>, path: Seq<char>)
    ensures
        find_path(s, path) >= -1,
        find_path(s, path) == -1 <==> forall|k: int| 0 <= k < s.len() ==> s[k].path != path,
        find_path(s, path) >= 0 ==> s[find_path(s, path)].path == path,
        find_path(s, path) < s.len(),
{
    lemma_last_match(s, |x: RecordView| x.path == path);
}

pub proof fn lemma_find_id_none(s: Seq<RecordView>, id: Seq<char>)
    ensures
        find_id(s, id) >= -1,
        find_id(s, id) == -1 <==> forall|k: int| 0 <= k < s.len() ==> s[k].id != id,
        find_id(s, id) >= 0 ==> s[find_id(s, id)].id == id,
        find_id(s, id) < s.len(),
{
    lemma_last_match(s, |x: RecordView| x.id == id);
}

/// What a replacement keeps, adds and drops.
pub proof fn lemma_replaced(s: Seq<RecordView>, r: RecordView)
    requires
        store_wf(s),
    ensures
        forall|j: int|
            0 <= j < replaced(s, r).len() ==> #[trigger] replaced(s, r)[j] == r || (unrelated(
                replaced(s, r)[j],
                r,
            ) && s.contains(replaced(s, r)[j])),
        forall|x: RecordView| s.contains(x) && unrelated(x, r) ==> replaced(s, r).contains(x),
        replaced(s, r).contains(r) <==> exists|i: int| 0 <= i < s.len() && s[i].path == r.path,
        store_wf(replaced(s, r)),
    decreases s.len(),
{
    if s.len() > 0 {
        let d = s.drop_last();
        let x = s.last();
        let rest = replaced(d, r);
        let res = replaced(s, r);
        assert(store_wf(d)) by {
            assert forall|i: int, j: int|
                0 <= i < d.len() && 0 <= j < d.len() && i != j implies #[trigger] d[i].path
                != #[trigger] d[j].path && d[i].id != d[j].id by {
                assert(d[i] == s[i] && d[j] == s[j]);
            }
        }
        lemma_replaced(d, r);
        assert forall|y: RecordView| d.contains(y) implies s.contains(y) && y != x by {
            let i = choose|i: int| 0 <= i < d.len() && d[i] == y;
            assert(s[i] == y);
            assert(s[s.len() - 1] == x);
        }
        assert forall|y: RecordView| s.contains(y) && y != x implies d.contains(y) by {
            let i = choose|i: int| 0 <= i < s.len() && s[i] == y;
            assert(i != s.len() - 1);
            assert(d[i] == y);
        }
        if x.path == r.path {
            assert(!rest.contains(r)) by {
                if rest.contains(r) {
                    let i = choose|i: int| 0 <= i < d.len() && d[i].path == r.path;
                    assert(s[i].path == s[s.len() - 1].path);
                }
            }
            assert(res == rest.push(r));
            assert forall|j: int| 0 <= j < res.len() implies #[trigger] res[j] == r || (unrelated(
                res[j],
                r,
            ) && s.contains(res[j])) by {
                if j < rest.len() {
                    assert(res[j] == rest[j]);
                }
            }
            assert forall|y: RecordView| s.contains(y) && unrelated(y, r) implies res.contains(y) by {
                assert(d.contains(y));
                let i = choose|i: int| 0 <= i < rest.len() && rest[i] == y;
                assert(res[i] == y);
            }
            assert(res[res.len() - 1] == r);
            assert(store_wf(res)) by {
                assert forall|i: int, j: int|
                    0 <= i < res.len() && 0 <= j < res.len() && i != j implies #[trigger] res[i].path
                    != #[trigger] res[j].path && res[i].id != res[j].id by {
                    if i < rest.len() && j < rest.len() {
                        assert(res[i] == rest[i] && res[j] == rest[j]);
                    } else if i < rest.len() {
                        assert(res[i] == rest[i]);
                        assert(rest[i] != r) by {
                            assert(rest.contains(rest[i]));
                        }
                    } else {
                        assert(res[j] == rest[j]);
                        assert(rest[j] != r) by {
                            assert(rest.contains(rest[j]));
                        }
                    }
                }
            }
        } else if x.id == r.id {
            assert(res == rest);
            assert forall|y: RecordView| s.contains(y) && unrelated(y, r) implies res.contains(y) by {
                assert(d.contains(y));
            }
            assert((exists|i: int| 0 <= i < s.len() && s[i].path == r.path) ==> (exists|i: int|
                0 <= i < d.len() && d[i].path == r.path)) by {
                if exists|i: int| 0 <= i < s.len() && s[i].path == r.path {
                    let i = choose|i: int| 0 <= i < s.len() && s[i].path == r.path;
                    assert(i != s.len() - 1);
                    assert(d[i].path == r.path);
                }
            }
            assert((exists|i: int| 0 <= i < d.len() && d[i].path == r.path) ==> (exists|i: int|
                0 <= i < s.len() && s[i].path == r.path)) by {
                if exists|i: int| 0 <= i < d.len() && d[i].path == r.path {
                    let i = choose|i: int| 0 <= i < d.len() && d[i].path == r.path;
                    assert(s[i].path == r.path);
                }
            }
        } else {
            assert(res == rest.push(x));
            assert forall|j: int| 0 <= j < res.len() implies #[trigger] res[j] == r || (unrelated(
                res[j],
                r,
            ) && s.contains(res[j])) by {
                if j < rest.len() {
                    assert(res[j] == rest[j]);
                } else {
                    assert(s[s.len() - 1] == x);
                }
            }
            assert forall|y: RecordView| s.contains(y) && unrelated(y, r) implies res.contains(y) by {
                if y == x {
                    assert(res[res.len() - 1] == x);
                } else {
                    assert(d.contains(y));
                    let i = choose|i: int| 0 <= i < rest.len() && rest[i] == y;
                    assert(res[i] == y);
                }
            }
            assert(res.contains(r) <==> rest.contains(r)) by {
                if res.contains(r) {
                    let i = choose|i: int| 0 <= i < res.len() && res[i] == r;
                    if i == res.len() - 1 {
                        assert(res[i] == x);
                    } else {
                        assert(rest[i] == r);
                    }
                }
                if rest.contains(r) {
                    let i = choose|i: int| 0 <= i < rest.len() && rest[i] == r;
                    assert(res[i] == r);
                }
            }
            assert((exists|i: int| 0 <= i < s.len() && s[i].path == r.path) ==> (exists|i: int|
                0 <= i < d.len() && d[i].path == r.path)) by {
                if exists|i: int| 0 <= i < s.len() && s[i].path == r.path {
                    let i = choose|i: int| 0 <= i < s.len() && s[i].path == r.path;
                    assert(i != s.len() - 1);
                    assert(d[i].path == r.path);
                }
            }
            assert((exists|i: int| 0 <= i < d.len() && d[i].path == r.path) ==> (exists|i: int|
                0 <= i < s.len() && s[i].path == r.path)) by {
                if exists|i: int| 0 <= i < d.len() && d[i].path == r.path {
                    let i = choose|i: int| 0 <= i < d.len() && d[i].path == r.path;
                    assert(s[i].path == r.path);
                }
            }
            assert(store_wf(res)) by {
                assert forall|i: int, j: int|
                    0 <= i < res.len() && 0 <= j < res.len() && i != j implies #[trigger] res[i].path
                    != #[trigger] res[j].path && res[i].id != res[j].id by {
                    if i < rest.len() && j < rest.len() {
                        assert(res[i] == rest[i] && res[j] == rest[j]);
                    } else {
                        let k = if i < rest.len() { i } else { j };
                        assert(res[k] == rest[k]);
                        assert(rest.contains(rest[k]));
                        if rest[k] != r {
                            let m = choose|m: int| 0 <= m < s.len() && s[m] == rest[k];
                            assert(m != s.len() - 1);
                        }
                    }
                }
            }
        }
    }
}

pub proof fn lemma_upserted(s: Seq<RecordView>, r: RecordView)
    requires
        store_wf(s),
    ensures
        store_wf(upserted(s, r)),
        upserted(s, r).contains(r),
        forall|j: int|
            0 <= j < upserted(s, r).len() ==> #[trigger] upserted(s, r)[j] == r || (unrelated(
                upserted(s, r)[j],
                r,
            ) && s.contains(upserted(s, r)[j])),
        forall|x: RecordView| s.contains(x) && unrelated(x, r) ==> upserted(s, r).contains(x),
{
    lemma_replaced(s, r);
    lemma_find_path_none(s, r.path);
    let rp = replaced(s, r);
    let u = upserted(s, r);
    if find_path(s, r.path) >= 0 {
        let i = find_path(s, r.path);
        assert(s[i].path == r.path);
    } else {
        assert(!rp.contains(r)) by {
            if rp.contains(r) {
                let i = choose|i: int| 0 <= i < s.len() && s[i].path == r.path;
                assert(s[i].path != r.path);
            }
        }
        assert(u[u.len() - 1] == r);
        assert forall|j: int| 0 <= j < u.len() implies #[trigger] u[j] == r || (unrelated(u[j], r)
            && s.contains(u[j])) by {
            if j < rp.len() {
                assert(u[j] == rp[j]);
            }
        }
        assert forall|x: RecordView| s.contains(x) && unrelated(x, r) implies u.contains(x) by {
            let i = choose|i: int| 0 <= i < rp.len() && rp[i] == x;
            assert(u[i] == x);
        }
        assert forall|i: int, j: int|
            0 <= i < u.len() && 0 <= j < u.len() && i != j implies #[trigger] u[i].path
            != #[trigger] u[j].path && u[i].id != u[j].id by {
            if i < rp.len() && j < rp.len() {
                assert(u[i] == rp[i] && u[j] == rp[j]);
            } else {
                let k = if i < rp.len() { i } else { j };
                assert(u[k] == rp[k]);
                assert(rp.contains(rp[k]));
            }
        }
    }
}

/// What removing a path keeps and drops.
pub proof fn lemma_without_path(s: Seq<RecordView>, path: Seq<char>)
    requires
        store_wf(s),
    ensures
        store_wf(without_path(s, path)),
        forall|j: int|
            0 <= j < without_path(s, path).len() ==> #[trigger] without_path(s, path)[j].path != path
                && s.contains(without_path(s, path)[j]),
        forall|x: RecordView| s.contains(x) && x.path != path ==> without_path(s, path).contains(x),
    decreases s.len(),
{
    if s.len() > 0 {
        let d = s.drop_last();
        let x = s.last();
        let rest = without_path(d, path);
        let res = without_path(s, path);
        assert(store_wf(d)) by {
            assert forall|i: int, j: int|
                0 <= i < d.len() && 0 <= j < d.len() && i != j implies #[trigger] d[i].path
                != #[trigger] d[j].path && d[i].id != d[j].id by {
                assert(d[i] == s[i] && d[j] == s[j]);
            }
        }
        lemma_without_path(d, path);
        assert forall|y: RecordView| d.contains(y) implies s.contains(y) by {
            let i = choose|i: int| 0 <= i < d.len() && d[i] == y;
            assert(s[i] == y);
        }
        assert forall|y: RecordView| s.contains(y) && y != x implies d.contains(y) by {
            let i = choose|i: int| 0 <= i < s.len() && s[i] == y;
            assert(i != s.len() - 1);
            assert(d[i] == y);
        }
        if x.path != path {
            assert(res == rest.push(x));
            assert forall|j: int| 0 <= j < res.len() implies #[trigger] res[j].path != path
                && s.contains(res[j]) by {
                if j < rest.len() {
                    assert(res[j] == rest[j]);
                } else {
                    assert(s[s.len() - 1] == x);
                }
            }
            assert forall|y: RecordView| s.contains(y) && y.path != path implies res.contains(y) by {
                if y == x {
                    assert(res[res.len() - 1] == x);
                } else {
                    let i = choose|i: int| 0 <= i < rest.len() && rest[i] == y;
                    assert(res[i] == y);
                }
            }
            assert(store_wf(res)) by {
            assert forall|i: int, j: int|
                0 <= i < res.len() && 0 <= j < res.len() && i != j implies #[trigger] res[i].path
                != #[trigger] res[j].path && res[i].id != res[j].id by {
                if i < rest.len() && j < rest.len() {
                    assert(res[i] == rest[i] && res[j] == rest[j]);
                } else {
                    let k = if i < rest.len() { i } else { j };
                    assert(res[k] == rest[k]);
                    assert(rest[k].path != path);
                    assert(d.contains(rest[k]));
                    let m = choose|m: int| 0 <= m < d.len() && d[m] == rest[k];
                    assert(s[m] == d[m]);
                    assert(s[s.len() - 1] == x);
                    assert(res[res.len() - 1] == x);
                    assert(s[m].path != s[s.len() - 1].path);
                    assert(s[m].id != s[s.len() - 1].id);
                }
            }
            assert forall|i: int, j: int|
                0 <= i < res.len() && 0 <= j < res.len() && i != j implies #[trigger] res[i].id
                != #[trigger] res[j].id && res[i].path != res[j].path by {
                if i < rest.len() && j < rest.len() {
                    assert(res[i] == rest[i] && res[j] == rest[j]);
                } else {
                    let k = if i < rest.len() { i } else { j };
                    assert(res[k] == rest[k]);
                    assert(rest[k].path != path);
                    assert(d.contains(rest[k]));
                    let m = choose|m: int| 0 <= m < d.len() && d[m] == rest[k];
                    assert(s[m] == d[m]);
                    assert(s[s.len() - 1] == x);
                    assert(res[res.len() - 1] == x);
                    assert(s[m].path != s[s.len() - 1].path);
                    assert(s[m].id != s[s.len() - 1].id);
                }
            }
            }
        } else {
            assert(res == rest);
            assert forall|j: int| 0 <= j < res.len() implies #[trigger] res[j].path != path
                && s.contains(res[j]) by {
                assert(rest[j].path != path);
            }
        }
    }
}

/// Position of the document with identifier `id`, or -1.
pub open spec fn find_doc(s: Seq<DocView>, id: Seq<char>) -> int {
    last_match(s, |d: DocView| d.id == id)
}

pub open spec fn docs_unique(s: Seq<DocView>) -> bool {
    forall|i: int, j: int|
        0 <= i < s.len() && 0 <= j < s.len() && i != j ==> #[trigger] s[i].id != #[trigger] s[j].id
}

/// The index after adding `d`: the document with the same identifier gives
/// way to it, and a new identifier is appended.
pub open spec fn with_doc(s: Seq<DocView>, d: DocView) -> Seq<DocView> {
    if find_doc(s, d.id) >= 0 {
        s.update(find_doc(s, d.id), d)
    } else {
        s.push(d)
    }
}

/// The index without the document for `id`.
pub open spec fn without_doc(s: Seq<DocView>, id: Seq<char>) -> Seq<DocView>
    decreases s.len(),
{
    if s.len() == 0 {
        s
    } else {
        let rest = without_doc(s.drop_last(), id);
        if s.last().id == id {
            rest
        } else {
            rest.push(s.last())
        }
    }
}

/// Filtering keeps document identifiers unique.
pub proof fn lemma_filter_docs_unique(s: Seq<DocView>, pred: spec_fn(DocView) -> bool)
    requires
        docs_unique(s),
    ensures
        docs_unique(s.filter(pred)),
    decreases s.len(),
{
    reveal(Seq::filter);
    if s.len() > 0 {
        let d = s.drop_last();
        assert(docs_unique(d)) by {
            assert forall|i: int, j: int|
                0 <= i < d.len() && 0 <= j < d.len() && i != j implies #[trigger] d[i].id
                != #[trigger] d[j].id by {
                assert(d[i] == s[i] && d[j] == s[j]);
            }
        }
        lemma_filter_docs_unique(d, pred);
        lemma_filter_subset(d, pred);
        let fd = d.filter(pred);
        let f = s.filter(pred);
        if pred(s.last()) {
            assert forall|i: int, j: int|
                0 <= i < f.len() && 0 <= j < f.len() && i != j implies #[trigger] f[i].id
                != #[trigger] f[j].id by {
                if i < fd.len() && j < fd.len() {
                    assert(f[i] == fd[i] && f[j] == fd[j]);
                } else {
                    let k = if i < fd.len() { i } else { j };
                    assert(f[k] == fd[k]);
                    assert(d.contains(fd[k]));
                    let m = choose|m: int| 0 <= m < d.len() && d[m] == fd[k];
                    assert(s[m] == d[m]);
                    assert(s[s.len() - 1] == s.last());
                    assert(f[f.len() - 1] == s.last());
                }
            }
        }
    }
}

pub proof fn lemma_with_doc(s: Seq<DocView>, d: DocView)
    requires
        docs_unique(s),
    ensures
        docs_unique(with_doc(s, d)),
        with_doc(s, d).contains(d),
        forall|j: int|
            0 <= j < with_doc(s, d).len() ==> #[trigger] with_doc(s, d)[j] == d || (with_doc(s, d)[j].id
                != d.id && s.contains(with_doc(s, d)[j])),
{
    lemma_last_match(s, |x: DocView| x.id == d.id);
    let w = with_doc(s, d);
    if find_doc(s, d.id) >= 0 {
        let i = find_doc(s, d.id);
        assert(w[i] == d);
        assert forall|j: int| 0 <= j < w.len() implies #[trigger] w[j] == d || (w[j].id != d.id
            && s.contains(w[j])) by {
            if j != i {
                assert(w[j] == s[j]);
            }
        }
    } else {
        assert(w[w.len() - 1] == d);
        assert forall|j: int| 0 <= j < w.len() implies #[trigger] w[j] == d || (w[j].id != d.id
            && s.contains(w[j])) by {
            if j < s.len() {
                assert(w[j] == s[j]);
            }
        }
    }
}

pub proof fn lemma_without_doc(s: Seq<DocView>, id: Seq<char>)
    requires
        docs_unique(s),
    ensures
        docs_unique(without_doc(s, id)),
        forall|j: int|
            0 <= j < without_doc(s, id).len() ==> #[trigger] without_doc(s, id)[j].id != id
                && s.contains(without_doc(s, id)[j]),
        forall|x: DocView| s.contains(x) && x.id != id ==> without_doc(s, id).contains(x),
    decreases s.len(),
{
    if s.len() > 0 {
        let d = s.drop_last();
        let x = s.last();
        let rest = without_doc(d, id);
        let res = without_doc(s, id);
        assert(docs_unique(d)) by {
            assert forall|i: int, j: int|
                0 <= i < d.len() && 0 <= j < d.len() && i != j implies #[trigger] d[i].id
                != #[trigger] d[j].id by {
                assert(d[i] == s[i] && d[j] == s[j]);
            }
        }
        lemma_without_doc(d, id);
        assert forall|y: DocView| d.contains(y) implies s.contains(y) by {
            let i = choose|i: int| 0 <= i < d.len() && d[i] == y;
            assert(s[i] == y);
        }
        assert forall|y: DocView| s.contains(y) && y != x implies d.contains(y) by {
            let i = choose|i: int| 0 <= i < s.len() && s[i] == y;
            assert(i != s.len() - 1);
            assert(d[i] == y);
        }
        if x.id != id {
            assert(res == rest.push(x));
            assert forall|j: int| 0 <= j < res.len() implies #[trigger] res[j].id != id
                && s.contains(res[j]) by {
                if j < rest.len() {
                    assert(res[j] == rest[j]);
                    assert(rest[j].id != id);
                    assert(d.contains(rest[j]));
                } else {
                    assert(s[s.len() - 1] == x);
                }
            }
            assert forall|y: DocView| s.contains(y) && y.id != id implies res.contains(y) by {
                if y == x {
                    assert(res[res.len() - 1] == x);
                } else {
                    let i = choose|i: int| 0 <= i < rest.len() && rest[i] == y;
                    assert(res[i] == y);
                }
            }
            assert forall|i: int, j: int|
                0 <= i < res.len() && 0 <= j < res.len() && i != j implies #[trigger] res[i].id
                != #[trigger] res[j].id by {
                if i < rest.len() && j < rest.len() {
                    assert(res[i] == rest[i] && res[j] == rest[j]);
                } else {
                    let k = if i < rest.len() { i } else { j };
                    assert(res[k] == rest[k]);
                    assert(rest[k].id != id);
                    assert(d.contains(rest[k]));
                    let m = choose|m: int| 0 <= m < d.len() && d[m] == rest[k];
                    assert(s[m] == d[m]);
                    assert(s[s.len() - 1] == x);
                }
            }
        } else {
            assert(res == rest);
            assert forall|j: int| 0 <= j < res.len() implies #[trigger] res[j].id != id
                && s.contains(res[j]) by {
                assert(rest[j].id != id);
            }
        }
    }
}

} // verus!
