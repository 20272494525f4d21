//! The write path: records built from file facts, batched upserts, watcher
//! events, and the phased indexing run with its progress reports.
use vstd::prelude::*;
use crate::db::{recs_view, Database};
use crate::model::{
    find_id, find_path, lemma_find_path_none, lemma_upserted, lemma_without_doc, lemma_without_path,
    store_wf, upserted, without_path,
};
use crate::pathname::{file_name, file_name_spec};
use crate::policy::{admits, IndexingPolicy};
use crate::record::{opt_view, DocView, FileRecord, RecordView};
use crate::sources::{get_file_type, guess_mime, mime_of, type_label};

verus! {

/// What the caller read from disk about one file. Times are seconds since
/// the Unix epoch; `mode` holds the permission bits; `checksum` is the cheap
/// fingerprint, absent when it could not be computed.
pub struct FileFacts {
    pub path: String,
    pub size: u64,
    pub modified: i64,
    pub created: i64,
    pub is_directory: bool,
    pub mode: u32,
    pub checksum: Option<String>,
}

impl FileFacts {
    /// A field-by-field copy.
    pub fn duplicate(&self) -> (r: FileFacts)
        ensures
            r.path@ == self.path@,
            r.size == self.size,
            r.modified == self.modified,
            r.created == self.created,
            r.is_directory == self.is_directory,
            r.mode == self.mode,
            opt_view(r.checksum) == opt_view(self.checksum),
    {
        FileFacts {
            path: self.path.clone(),
            size: self.size,
            modified: self.modified,
            created: self.created,
            is_directory: self.is_directory,
            mode: self.mode,
            checksum: crate::record::copy_opt(&self.checksum),
        }
    }
}

pub open spec fn octal_digit(d: int) -> char {
    crate::format::digit_char(d)
}

/// The octal digits of `n`, without leading zeros.
pub open spec fn octal_digits(n: nat) -> Seq<char>
    decreases n,
{
    if n < 8 {
        seq![octal_digit(n as int)]
    } else {
        octal_digits(n / 8).push(octal_digit((n % 8) as int))
    }
}

/// `mode` written in octal, without prefix or leading zeros.
pub fn octal(mode: u32) -> (r: String)
    ensures
        r@ == octal_digits(mode as nat),
    decreases mode,
{
    if mode < 8 {
        String::from_str(crate::format::digit_str(mode as u64))
    } else {
        let mut s = octal(mode / 8);
        s.append(crate::format::digit_str((mode % 8) as u64));
        s
    }
}

/// Relies on `uuid::Uuid::new_v4` and the hyphenated form that its
/// `Display` writes: 36 characters, drawn at random.
#[verifier::external_body]
fn fresh_id() -> (r: String)
    ensures
        r@.len() == 36,
{
    uuid::Uuid::new_v4().to_string()
}

/// Relies on `std::time::SystemTime::now`: milliseconds since the epoch.
#[verifier::external_body]
pub(crate) fn clock_millis() -> (r: u64) {
    match std::time::SystemTime::now().duration_since(std::time::UNIX_EPOCH) {
        Ok(d) => d.as_millis() as u64,
        Err(_) => 0,
    }
}

/// The name stored for a path: its final component, or `unknown`.
pub open spec fn name_label(path: Seq<char>) -> Seq<char> {
    if file_name_spec(path).len() > 0 {
        file_name_spec(path)
    } else {
        seq!['u', 'n', 'k', 'n', 'o', 'w', 'n']
    }
}

/// `r` is the record made from `f` at time `now`, whatever its identifier.
pub open spec fn record_from_facts(r: RecordView, f: FileFacts, now: i64) -> bool {
    &&& r.path == f.path@
    &&& r.name == name_label(f.path@)
    &&& r.size == f.size
    &&& r.modified == f.modified
    &&& r.created == f.created
    &&& r.file_type == type_label(f.path@)
    &&& r.mime_type == mime_of(f.path@)
    &&& r.is_directory == f.is_directory
    &&& r.permissions == octal_digits(f.mode as nat)
    &&& r.checksum == opt_view(f.checksum)
    &&& r.indexed_at == now
    &&& !r.content_extracted
}

/// The record for `facts` under identifier `id`, indexed at `now`; its
/// content is not extracted yet.
pub fn create_file_entry(facts: &FileFacts, id: String, now: i64) -> (r: FileRecord)
    ensures
        record_from_facts(r@, *facts, now),
        r.id@ == id@,
{
    let mut name = file_name(facts.path.as_str());
    if name.as_str().unicode_len() == 0 {
        name = "unknown".to_owned();
        proof {
            reveal_strlit("unknown");
        }
        assert(name@ =~= seq!['u', 'n', 'k', 'n', 'o', 'w', 'n']);
    }
    FileRecord {
        id: id,
        path: facts.path.clone(),
        name: name,
        size: facts.size,
        modified: facts.modified,
        created: facts.created,
        file_type: get_file_type(facts.path.as_str()),
        mime_type: guess_mime(facts.path.as_str()),
        is_directory: facts.is_directory,
        permissions: octal(facts.mode),
        checksum: crate::record::copy_opt(&facts.checksum),
        indexed_at: now,
        content_extracted: false,
    }
}

/// The identifier for a record of `path`: the one already stored for that
/// path, which never changes, or a fresh one that no record holds.
pub fn record_id_for(db: &Database, path: &str) -> (r: String)
    requires
        db.wf(),
    ensures
        find_path(db.store(), path@) >= 0 ==> r@ == db.store()[find_path(db.store(), path@)].id,
        find_path(db.store(), path@) < 0 ==> find_id(db.store(), r@) == -1,
{
    match db.get_file_by_path(path) {
        Some(existing) => existing.id,
        None => db.unused_id(fresh_id()),
    }
}

/// Writes made one after another from the store `s0` have led to `s`:
/// each record written is still stored unless a later one took its path,
/// every record of `s0` whose path was not written is still stored, a path
/// of `s0` keeps its identifier, and every path of `s0` is still stored.
pub open spec fn writes_kept(s0: Seq<RecordView>, s: Seq<RecordView>, w: Seq<RecordView>) -> bool {
    &&& store_wf(s)
    &&& forall|k: int|
        0 <= k < w.len() && (forall|j: int| k < j < w.len() ==> (#[trigger] w[j]).path != w[k].path)
            ==> s.contains(#[trigger] w[k])
    &&& forall|x: RecordView|
        #[trigger] s0.contains(x) && (forall|k: int| 0 <= k < w.len() ==> (#[trigger] w[k]).path != x.path)
            ==> s.contains(x)
    &&& forall|k: int|
        0 <= k < w.len() && find_path(s0, (#[trigger] w[k]).path) >= 0 ==> w[k].id == s0[find_path(
            s0,
            w[k].path,
        )].id
    &&& forall|y: RecordView, x: RecordView|
        #[trigger] s.contains(y) && #[trigger] s0.contains(x) && y.path == x.path ==> y.id == x.id
    &&& forall|x: RecordView|
        #[trigger] s0.contains(x) ==> exists|y: RecordView| #[trigger] s.contains(y) && y.path == x.path
}

pub(crate) proof fn lemma_writes_start(s0: Seq<RecordView>)
    requires
        store_wf(s0),
    ensures
        writes_kept(s0, s0, Seq::empty()),
{
    assert forall|y: RecordView, x: RecordView|
        #[trigger] s0.contains(y) && #[trigger] s0.contains(x) && y.path == x.path implies y.id == x.id by {
        let a = choose|a: int| 0 <= a < s0.len() && s0[a] == y;
        let b = choose|b: int| 0 <= b < s0.len() && s0[b] == x;
        if a != b {
            assert(s0[a].path != s0[b].path);
        }
    }
}

/// One more write of `r`, whose identifier is that of the record stored for
/// its path, or else held by no record, keeps `writes_kept`.
proof fn lemma_writes_step(s0: Seq<RecordView>, s: Seq<RecordView>, w: Seq<RecordView>, r: RecordView)
    requires
        writes_kept(s0, s, w),
        find_path(s, r.path) >= 0 ==> r.id == s[find_path(s, r.path)].id,
        find_path(s, r.path) < 0 ==> find_id(s, r.id) == -1,
    ensures
        writes_kept(s0, upserted(s, r), w.push(r)),
{
    lemma_upserted(s, r);
    lemma_find_path_none(s, r.path);
    crate::model::lemma_find_id_none(s, r.id);
    let u = upserted(s, r);
    let w2 = w.push(r);
    assert forall|x: RecordView| s.contains(x) && x.path != r.path implies u.contains(x) by {
        let a = choose|a: int| 0 <= a < s.len() && s[a] == x;
        if x.id == r.id {
            if find_path(s, r.path) >= 0 {
                let b = find_path(s, r.path);
                assert(s[a].id == s[b].id);
                assert(a != b);
            } else {
                assert(s[a].id != r.id);
            }
        }
        assert(crate::model::unrelated(x, r));
    }
    assert forall|k: int|
        0 <= k < w2.len() && (forall|j: int| k < j < w2.len() ==> (#[trigger] w2[j]).path != w2[k].path)
            implies u.contains(#[trigger] w2[k]) by {
        if k < w.len() {
            assert(w2[k] == w[k]);
            assert(w2[w.len() as int] == r);
            assert forall|j: int| k < j < w.len() implies (#[trigger] w[j]).path != w[k].path by {
                assert(w2[j] == w[j]);
            }
            assert(s.contains(w[k]));
        }
    }
    assert forall|x: RecordView|
        #[trigger] s0.contains(x) && (forall|k: int| 0 <= k < w2.len() ==> (#[trigger] w2[k]).path != x.path)
            implies u.contains(x) by {
        assert forall|k: int| 0 <= k < w.len() implies (#[trigger] w[k]).path != x.path by {
            assert(w2[k] == w[k]);
        }
        assert(w2[w.len() as int] == r);
    }
    assert forall|y: RecordView, x: RecordView|
        #[trigger] u.contains(y) && #[trigger] s0.contains(x) && y.path == x.path implies y.id == x.id by {
        if y == r {
            let z = choose|z: RecordView| #[trigger] s.contains(z) && z.path == x.path;
            let b = choose|b: int| 0 <= b < s.len() && s[b] == z;
            crate::model::lemma_find_unique_path(s, r.path, b);
        }
    }
    assert forall|k: int|
        0 <= k < w2.len() && find_path(s0, (#[trigger] w2[k]).path) >= 0 implies w2[k].id == s0[find_path(
            s0,
            w2[k].path,
        )].id by {
        if k < w.len() {
            assert(w2[k] == w[k]);
        } else {
            assert(w2[k] == r);
            lemma_find_path_none(s0, r.path);
            let x = s0[find_path(s0, r.path)];
            assert(s0.contains(x));
            assert(u.contains(r));
        }
    }
    assert forall|x: RecordView| #[trigger] s0.contains(x) implies exists|y: RecordView|
        #[trigger] u.contains(y) && y.path == x.path by {
        let z = choose|z: RecordView| #[trigger] s.contains(z) && z.path == x.path;
        if z.path == r.path {
            assert(u.contains(r));
        } else {
            assert(u.contains(z));
        }
    }
}

/// Writes the record for `facts`, keeping the identifier of a stored path
/// and otherwise taking one that no record holds.
pub(crate) fn write_one(db: &mut Database, facts: &FileFacts, now: i64, Ghost(s0): Ghost<Seq<RecordView>>, Ghost(w): Ghost<Seq<RecordView>>) -> (r: FileRecord)
    requires
        old(db).wf(),
        writes_kept(s0, old(db).store(), w),
    ensures
        final(db).wf(),
        record_from_facts(r@, *facts, now),
        final(db).store() == upserted(old(db).store(), r@),
        writes_kept(s0, final(db).store(), w.push(r@)),
{
    let id = record_id_for(db, facts.path.as_str());
    let rec = create_file_entry(facts, id, now);
    proof {
        lemma_writes_step(s0, db.store(), w, rec@);
    }
    db.insert_file(&rec);
    rec
}

/// The store after upserting each of `rs` in turn.
pub open spec fn upsert_all(s: Seq<RecordView>, rs: Seq<RecordView>) -> Seq<RecordView>
    decreases rs.len(),
{
    if rs.len() == 0 {
        s
    } else {
        upserted(upsert_all(s, rs.drop_last()), rs.last())
    }
}

/// Writes a record for each of `batch`, in order, keeping the identifier of
/// a path already stored and giving a new path an identifier no record
/// holds. Returns the records written; each stays stored unless a later one
/// of the batch has its path, and records of other paths are left alone.
pub fn process_file_batch(db: &mut Database, batch: &Vec<FileFacts>, now: i64) -> (r: Vec<FileRecord>)
    requires
        old(db).wf(),
    ensures
        final(db).wf(),
        r@.len() == batch@.len(),
        forall|i: int| 0 <= i < r@.len() ==> record_from_facts((#[trigger] r@[i])@, batch@[i], now),
        final(db).store() == upsert_all(old(db).store(), recs_view(r@)),
        writes_kept(old(db).store(), final(db).store(), recs_view(r@)),
{
    let mut written: Vec<FileRecord> = Vec::new();
    let mut i: usize = 0;
    let ghost s0 = db.store();
    assert(recs_view(written@) =~= Seq::<RecordView>::empty());
    proof {
        db.lemma_store_wf();
        lemma_writes_start(s0);
    }
    while i < batch.len()
        invariant
            db.wf(),
            i <= batch@.len(),
            written@.len() == i,
            forall|k: int| 0 <= k < i ==> record_from_facts((#[trigger] written@[k])@, batch@[k], now),
            db.store() == upsert_all(s0, recs_view(written@)),
            writes_kept(s0, db.store(), recs_view(written@)),
        decreases batch@.len() - i,
    {
        let rec = write_one(db, &batch[i], now, Ghost(s0), Ghost(recs_view(written@)));
        let ghost before = written@;
        written.push(rec);
        assert(recs_view(written@) =~= recs_view(before).push(rec@));
        assert(recs_view(written@).drop_last() =~= recs_view(before));
        i = i + 1;
    }
    written
}

/// A filesystem change delivered by the watcher. `Changed` carries the facts
/// of created or modified regular files; `Removed` the paths that are gone.
pub enum FileEvent {
    Changed(Vec<FileFacts>),
    Removed(Vec<String>),
    Other,
}

/// The changed files that the policy admits, their size not consulted.
pub open spec fn admitted_changes(policy: IndexingPolicy, files: Seq<FileFacts>) -> Seq<FileFacts> {
    files.filter(|f: FileFacts| admits(policy, f.path@, 0))
}

/// Upserts a record for each changed file that the policy admits, in order,
/// and returns the records written.
pub fn apply_changes(db: &mut Database, policy: &IndexingPolicy, files: &Vec<FileFacts>, now: i64) -> (r: Vec<FileRecord>)
    requires
        old(db).wf(),
    ensures
        final(db).wf(),
        r@.len() == admitted_changes(*policy, files@).len(),
        forall|i: int|
            0 <= i < r@.len() ==> record_from_facts(
                (#[trigger] r@[i])@,
                admitted_changes(*policy, files@)[i],
                now,
            ),
        final(db).store() == upsert_all(old(db).store(), recs_view(r@)),
        writes_kept(old(db).store(), final(db).store(), recs_view(r@)),
{
    let ghost pred = |f: FileFacts| admits(*policy, f.path@, 0);
    let ghost s0 = db.store();
    let mut written: Vec<FileRecord> = Vec::new();
    let mut i: usize = 0;
    assert(files@.take(0) =~= Seq::<FileFacts>::empty());
    proof {
        reveal(Seq::filter);
    }
    assert(recs_view(written@) =~= Seq::<RecordView>::empty());
    proof {
        db.lemma_store_wf();
        lemma_writes_start(s0);
    }
    while i < files.len()
        invariant
            db.wf(),
            i <= files@.len(),
            pred == (|f: FileFacts| admits(*policy, f.path@, 0)),
            written@.len() == files@.take(i as int).filter(pred).len(),
            forall|k: int|
                0 <= k < written@.len() ==> record_from_facts(
                    (#[trigger] written@[k])@,
                    files@.take(i as int).filter(pred)[k],
                    now,
                ),
            db.store() == upsert_all(s0, recs_view(written@)),
            writes_kept(s0, db.store(), recs_view(written@)),
        decreases files@.len() - i,
    {
        assert(files@.take(i + 1).drop_last() =~= files@.take(i as int));
        assert(files@.take(i + 1).last() == files@[i as int]);
        let keep = policy.should_index_file(files[i].path.as_str(), 0);
        proof {
            reveal(Seq::filter);
        }
        if keep {
            let rec = write_one(db, &files[i], now, Ghost(s0), Ghost(recs_view(written@)));
            let ghost before = written@;
            written.push(rec);
            assert(recs_view(written@) =~= recs_view(before).push(rec@));
            assert(recs_view(written@).drop_last() =~= recs_view(before));
            proof {
                let f0 = files@.take(i as int).filter(pred);
                let f1 = files@.take(i + 1).filter(pred);
                assert(f1 == f0.push(files@[i as int]));
                assert forall|k: int| 0 <= k < written@.len() implies record_from_facts(
                    (#[trigger] written@[k])@,
                    f1[k],
                    now,
                ) by {
                    if k < f0.len() {
                        assert(f1[k] == f0[k]);
                    }
                }
            }
        }
        i = i + 1;
    }
    assert(files@.take(files@.len() as int) =~= files@);
    written
}

/// The store after deleting the record of each of `ps` in turn.
pub open spec fn without_paths(s: Seq<RecordView>, ps: Seq<Seq<char>>) -> Seq<RecordView>
    decreases ps.len(),
{
    if ps.len() == 0 {
        s
    } else {
        without_path(without_paths(s, ps.drop_last()), ps.last())
    }
}

/// No document of `docs` carries the identifier of a record of `s` whose
/// path is one of `ps`.
pub open spec fn documents_dropped(s: Seq<RecordView>, ps: Seq<Seq<char>>, docs: Seq<DocView>) -> bool {
    forall|x: RecordView, j: int|
        #[trigger] s.contains(x) && ps.contains(x.path) && 0 <= j < docs.len() ==> (#[trigger] docs[j]).id
            != x.id
}

/// Deletes the record of each path, in order, with its full-text document;
/// records of other paths stay as they were.
pub fn remove_paths(db: &mut Database, paths: &Vec<String>)
    requires
        old(db).wf(),
    ensures
        final(db).wf(),
        final(db).store() == without_paths(old(db).store(), paths@.map_values(|p: String| p@)),
        forall|i: int| 0 <= i < paths@.len() ==> find_path(final(db).store(), (#[trigger] paths@[i])@) == -1,
        documents_dropped(old(db).store(), paths@.map_values(|p: String| p@), final(db).pending_docs()),
        final(db).searchable_docs() == old(db).searchable_docs(),
{
    let ghost s0 = db.store();
    let ghost c0 = db.searchable_docs();
    let ghost pv = paths@.map_values(|p: String| p@);
    let mut i: usize = 0;
    proof {
        db.lemma_store_wf();
        assert(pv.take(0) =~= Seq::<Seq<char>>::empty());
    }
    while i < paths.len()
        invariant
            db.wf(),
            store_wf(s0),
            i <= paths@.len() == pv.len(),
            pv == paths@.map_values(|p: String| p@),
            db.searchable_docs() == c0,
            db.store() == without_paths(s0, pv.take(i as int)),
            forall|k: int| 0 <= k < i ==> find_path(db.store(), (#[trigger] paths@[k])@) == -1,
            forall|y: RecordView| #[trigger] db.store().contains(y) ==> s0.contains(y),
            forall|x: RecordView|
                #[trigger] s0.contains(x) ==> db.store().contains(x) || pv.take(i as int).contains(x.path),
            documents_dropped(s0, pv.take(i as int), db.pending_docs()),
        decreases paths@.len() - i,
    {
        let ghost s = db.store();
        let ghost d = db.pending_docs();
        let ghost p = paths@[i as int]@;
        proof {
            db.lemma_store_wf();
            lemma_find_path_none(s, p);
            assert(pv[i as int] == p);
            assert(pv.take(i + 1).drop_last() =~= pv.take(i as int));
            assert(pv.take(i + 1).last() == p);
        }
        db.delete_file(paths[i].as_str());
        proof {
            db.lemma_store_wf();
            lemma_without_path(s, p);
            let u = db.store();
            let e = db.pending_docs();
            let t = pv.take(i + 1);
            assert forall|k: int| 0 <= k <= i implies find_path(u, (#[trigger] paths@[k])@) == -1 by {
                lemma_find_path_none(u, paths@[k]@);
                lemma_find_path_none(s, paths@[k]@);
                if find_path(u, paths@[k]@) >= 0 {
                    let x = u[find_path(u, paths@[k]@)];
                    assert(s.contains(x));
                    let m = choose|m: int| 0 <= m < s.len() && s[m] == x;
                    assert(s[m].path == paths@[k]@);
                }
            }
            assert forall|y: RecordView| #[trigger] u.contains(y) implies s0.contains(y) by {
                let m = choose|m: int| 0 <= m < u.len() && u[m] == y;
                assert(u == without_path(s, p));
                assert(without_path(s, p)[m].path != p);
                assert(s.contains(u[m]));
            }
            assert forall|x: RecordView| #[trigger] s0.contains(x) implies u.contains(x) || t.contains(x.path) by {
                if x.path == p {
                    assert(t[i as int] == p);
                } else if s.contains(x) {
                } else {
                    let k = choose|k: int| 0 <= k < pv.take(i as int).len() && pv.take(i as int)[k] == x.path;
                    assert(t[k] == x.path);
                }
            }
            // documents of any record of these paths are gone
            assert forall|j: int| 0 <= j < e.len() implies d.contains(#[trigger] e[j]) by {
                if find_path(s, p) >= 0 {
                    lemma_without_doc(d, s[find_path(s, p)].id);
                    assert(e[j].id != s[find_path(s, p)].id);
                }
            }
            assert forall|x: RecordView, j: int|
                #[trigger] s0.contains(x) && t.contains(x.path) && 0 <= j < e.len() implies (
                #[trigger] e[j]).id != x.id by {
                assert(d.contains(e[j]));
                let m = choose|m: int| 0 <= m < d.len() && d[m] == e[j];
                let k = choose|k: int| 0 <= k < t.len() && t[k] == x.path;
                if k < i {
                    assert(pv.take(i as int)[k] == x.path);
                    assert(pv.take(i as int).contains(x.path));
                    assert(d[m].id != x.id);
                } else if s.contains(x) {
                    let a = choose|a: int| 0 <= a < s.len() && s[a] == x;
                    let f = find_path(s, p);
                    assert(f >= 0);
                    let y = s[f];
                    assert(s.contains(y));
                    assert(s0.contains(y));
                    let b1 = choose|b1: int| 0 <= b1 < s0.len() && s0[b1] == x;
                    let b2 = choose|b2: int| 0 <= b2 < s0.len() && s0[b2] == y;
                    if b1 != b2 {
                        assert(s0[b1].path != s0[b2].path);
                    }
                    lemma_without_doc(d, y.id);
                } else {
                    assert(pv.take(i as int).contains(x.path));
                    assert(d[m].id != x.id);
                }
            }
        }
        i = i + 1;
    }
    assert(pv.take(pv.len() as int) =~= pv);
}

/// Applies one watcher event at once, without batching: changed files that
/// the policy admits are upserted, removed paths are deleted, other events
/// are ignored. Returns the records written.
pub fn handle_file_event(db: &mut Database, policy: &IndexingPolicy, event: FileEvent, now: i64) -> (r: Vec<FileRecord>)
    requires
        old(db).wf(),
    ensures
        final(db).wf(),
        match event {
            FileEvent::Changed(files) => {
                &&& r@.len() == admitted_changes(*policy, files@).len()
                &&& forall|i: int|
                    0 <= i < r@.len() ==> record_from_facts(
                        (#[trigger] r@[i])@,
                        admitted_changes(*policy, files@)[i],
                        now,
                    )
                &&& final(db).store() == upsert_all(old(db).store(), recs_view(r@))
                &&& writes_kept(old(db).store(), final(db).store(), recs_view(r@))
            },
            FileEvent::Removed(paths) => {
                &&& r@.len() == 0
                &&& final(db).store() == without_paths(old(db).store(), paths@.map_values(|p: String| p@))
                &&& forall|i: int|
                    0 <= i < paths@.len() ==> find_path(final(db).store(), (#[trigger] paths@[i])@) == -1
                &&& documents_dropped(old(db).store(), paths@.map_values(|p: String| p@), final(db).pending_docs())
            },
            FileEvent::Other => r@.len() == 0 && final(db).store() == old(db).store(),
        },
{
    match event {
        FileEvent::Changed(files) => apply_changes(db, policy, &files, now),
        FileEvent::Removed(paths) => {
            remove_paths(db, &paths);
            Vec::new()
        },
        FileEvent::Other => Vec::new(),
    }
}

} // verus!
