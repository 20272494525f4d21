//! The metadata store with its shadow name index, and the full-text index,
//! kept side by side: `Database`.
use vstd::prelude::*;
use crate::model::{
    at_most, docs_unique, find_doc, find_id, find_path, lemma_find_id_none,
    lemma_find_path_none, lemma_last_match, lemma_upserted, lemma_with_doc, lemma_without_doc,
    lemma_without_path, store_wf, upserted, with_doc, without_doc, without_path,
};
use crate::record::{projection, DocView, FileRecord, IndexDocument, RecordView};
use crate::text::{contains, contains_spec, lower_of, lowercase};

verus! {

pub open spec fn recs_view(v: Seq<FileRecord>) -> Seq<RecordView> {
    v.map_values(|r: FileRecord| r@)
}

pub open spec fn docs_view(v: Seq<IndexDocument>) -> Seq<DocView> {
    v.map_values(|d: IndexDocument| d@)
}

/// The query occurs, ignoring case, in the file name.
pub open spec fn name_match(name: Seq<char>, q: Seq<char>) -> bool {
    contains_spec(lower_of(name), lower_of(q))
}

/// The query occurs, ignoring case, in the path but not in the file name.
pub open spec fn path_only_match(path: Seq<char>, name: Seq<char>, q: Seq<char>) -> bool {
    !name_match(name, q) && contains_spec(lower_of(path), lower_of(q))
}

/// The records that a shadow-index lookup for `q` finds, best first: those
/// whose name holds the query rank above those where only the path does;
/// within each rank, in store order.
pub open spec fn text_hits(s: Seq<RecordView>, q: Seq<char>) -> Seq<RecordView> {
    s.filter(|r: RecordView| name_match(r.name, q)) + s.filter(
        |r: RecordView| path_only_match(r.path, r.name, q),
    )
}

/// The documents that a full-text query for `q` finds, best first.
pub open spec fn doc_hits(s: Seq<DocView>, q: Seq<char>) -> Seq<DocView> {
    s.filter(|d: DocView| doc_tier(d, q) == 0) + s.filter(|d: DocView| doc_tier(d, q) == 1) + s.filter(
        |d: DocView| doc_tier(d, q) == 2,
    )
}

/// How well a document matches `q`: 0 when its name holds the query, 1 when
/// only its path does, 2 when only its text does, 3 when nothing does.
pub open spec fn doc_tier(d: DocView, q: Seq<char>) -> int {
    if name_match(d.name, q) {
        0
    } else if contains_spec(lower_of(d.path), lower_of(q)) {
        1
    } else if match d.content {
        Some(c) => contains_spec(lower_of(c), lower_of(q)),
        None => false,
    } {
        2
    } else {
        3
    }
}

/// The documents of the full-text hits carry distinct identifiers.
pub proof fn lemma_doc_hits_unique(s: Seq<DocView>, q: Seq<char>)
    requires
        docs_unique(s),
    ensures
        docs_unique(doc_hits(s, q)),
        forall|i: int| 0 <= i < doc_hits(s, q).len() ==> s.contains(#[trigger] doc_hits(s, q)[i]),
{
    let p0 = |d: DocView| doc_tier(d, q) == 0;
    let p1 = |d: DocView| doc_tier(d, q) == 1;
    let p2 = |d: DocView| doc_tier(d, q) == 2;
    let (f0, f1, f2) = (s.filter(p0), s.filter(p1), s.filter(p2));
    crate::model::lemma_filter_docs_unique(s, p0);
    crate::model::lemma_filter_docs_unique(s, p1);
    crate::model::lemma_filter_docs_unique(s, p2);
    crate::model::lemma_filter_subset(s, p0);
    crate::model::lemma_filter_subset(s, p1);
    crate::model::lemma_filter_subset(s, p2);
    s.lemma_filter_len(p0);
    let h = doc_hits(s, q);
    assert(h =~= f0 + f1 + f2);
    let tier = |i: int| if i < f0.len() { 0int } else if i < f0.len() + f1.len() { 1int } else { 2int };
    assert forall|i: int| 0 <= i < h.len() implies s.contains(#[trigger] h[i]) && doc_tier(h[i], q) == tier(i)
        && (h[i] == if i < f0.len() { f0[i] } else if i < f0.len() + f1.len() { f1[i - f0.len()] } else {
        f2[i - f0.len() - f1.len()] }) by {
        if i < f0.len() {
            s.lemma_filter_pred(p0, i);
        } else if i < f0.len() + f1.len() {
            s.lemma_filter_pred(p1, i - f0.len());
        } else {
            s.lemma_filter_pred(p2, i - f0.len() - f1.len());
        }
    }
    assert forall|i: int, j: int| 0 <= i < h.len() && 0 <= j < h.len() && i != j implies #[trigger] h[i].id
        != #[trigger] h[j].id by {
        if tier(i) == tier(j) {
            if tier(i) == 0 {
                assert(f0[i] == h[i] && f0[j] == h[j]);
            } else if tier(i) == 1 {
                assert(f1[i - f0.len()] == h[i] && f1[j - f0.len()] == h[j]);
            } else {
                assert(f2[i - f0.len() - f1.len()] == h[i] && f2[j - f0.len() - f1.len()] == h[j]);
            }
        } else {
            assert(h[i] != h[j]);
            let a = choose|a: int| 0 <= a < s.len() && s[a] == h[i];
            let b = choose|b: int| 0 <= b < s.len() && s[b] == h[j];
        }
    }
}

/// The records that the identifiers `ids` resolve to, skipping unknown ones.
pub open spec fn resolved(ids: Seq<Seq<char>>, s: Seq<RecordView>) -> Seq<RecordView>
    decreases ids.len(),
{
    if ids.len() == 0 {
        Seq::empty()
    } else {
        let rest = resolved(ids.drop_last(), s);
        let k = find_id(s, ids.last());
        if k >= 0 {
            rest.push(s[k])
        } else {
            rest
        }
    }
}

/// The text a new projection of `r` keeps: what the index holds for `r.id`,
/// as long as `r` says its content was extracted.
pub open spec fn kept_content(docs: Seq<DocView>, r: RecordView) -> Option<Seq<char>> {
    if r.content_extracted && find_doc(docs, r.id) >= 0 {
        docs[find_doc(docs, r.id)].content
    } else {
        None
    }
}

/// `r` with its content flag raised.
pub open spec fn marked_extracted(r: RecordView) -> RecordView {
    RecordView { content_extracted: true, ..r }
}

/// Failure of a store lookup.
#[derive(Debug, PartialEq, Eq, Clone, Copy, Structural)]
pub enum StoreError {
    NotFound,
}

/// Aggregate counts over the metadata store. A record counts as indexed once
/// its content was extracted, as failed when its checksum is missing, and as
/// pending otherwise; throughput is in files per second.
#[derive(Debug, Clone, Copy, PartialEq, Eq, Structural)]
pub struct IndexStatus {
    pub total_files: u64,
    pub indexed_files: u64,
    pub pending_files: u64,
    pub failed_files: u64,
    pub last_update: i64,
    pub indexing_speed: u64,
    pub index_size_bytes: u64,
}

pub open spec fn count_indexed(s: Seq<RecordView>) -> nat
    decreases s.len(),
{
    if s.len() == 0 {
        0
    } else {
        count_indexed(s.drop_last()) + if s.last().content_extracted { 1nat } else { 0nat }
    }
}

pub open spec fn count_failed(s: Seq<RecordView>) -> nat
    decreases s.len(),
{
    if s.len() == 0 {
        0
    } else {
        count_failed(s.drop_last()) + if s.last().checksum.is_none() { 1nat } else { 0nat }
    }
}

pub open spec fn count_pending(s: Seq<RecordView>) -> nat
    decreases s.len(),
{
    if s.len() == 0 {
        0
    } else {
        count_pending(s.drop_last()) + if !s.last().content_extracted
            && s.last().checksum.is_some() {
            1nat
        } else {
            0nat
        }
    }
}

/// Latest `indexed_at` of the store, 0 when it is empty.
pub open spec fn last_indexed(s: Seq<RecordView>) -> i64
    decreases s.len(),
{
    if s.len() == 0 {
        0
    } else {
        let m = last_indexed(s.drop_last());
        if s.len() == 1 || s.last().indexed_at > m {
            s.last().indexed_at
        } else {
            m
        }
    }
}

/// The metadata store and the full-text index. Every record write keeps the
/// shadow (path, name) index in step with the records; documents written to
/// the full-text index become searchable at the next `commit`.
pub struct Database {
    records: Vec<FileRecord>,
    shadow: Vec<(String, String)>,
    documents: Vec<IndexDocument>,
    committed: Vec<IndexDocument>,
}

impl Database {
    /// The records of the metadata store, in storage order.
    pub closed spec fn store(&self) -> Seq<RecordView> {
        recs_view(self.records@)
    }

    /// The full-text index as written so far.
    pub closed spec fn pending_docs(&self) -> Seq<DocView> {
        docs_view(self.documents@)
    }

    /// The full-text index as of the last commit: what searches see.
    pub closed spec fn searchable_docs(&self) -> Seq<DocView> {
        docs_view(self.committed@)
    }

    pub closed spec fn shadow_consistent(&self) -> bool {
        self.shadow@.len() == self.records@.len() && forall|i: int|
            0 <= i < self.shadow@.len() ==> (#[trigger] self.shadow@[i]).0@ == self.records@[i].path@
                && self.shadow@[i].1@ == self.records@[i].name@
    }

    /// Paths and identifiers are unique in the store, the shadow index
    /// mirrors it, and each document identifier occurs once in the index.
    pub closed spec fn wf(&self) -> bool {
        &&& store_wf(self.store())
        &&& self.shadow_consistent()
        &&& docs_unique(self.pending_docs())
        &&& docs_unique(self.searchable_docs())
    }

    /// A well-formed database has unique paths and identifiers.
    pub proof fn lemma_store_wf(&self)
        requires
            self.wf(),
        ensures
            store_wf(self.store()),
            docs_unique(self.pending_docs()),
            docs_unique(self.searchable_docs()),
    {
    }

    /// An empty store and index.
    pub fn new() -> (r: Database)
        ensures
            r.wf(),
            r.store().len() == 0,
            r.pending_docs().len() == 0,
            r.searchable_docs().len() == 0,
    {
        let r = Database {
            records: Vec::new(),
            shadow: Vec::new(),
            documents: Vec::new(),
            committed: Vec::new(),
        };
        assert(r.store() =~= Seq::<RecordView>::empty());
        assert(r.pending_docs() =~= Seq::<DocView>::empty());
        assert(r.searchable_docs() =~= Seq::<DocView>::empty());
        r
    }

    fn position_of_path(&self, path: &String) -> (r: Option<usize>)
        ensures
            match r {
                Some(i) => i as int == find_path(self.store(), path@),
                None => find_path(self.store(), path@) == -1,
            },
    {
        let ghost s = self.store();
        let mut i: usize = self.records.len();
        assert(s.take(i as int) =~= s);
        while i > 0
            invariant
                i <= self.records@.len() == s.len(),
                s == self.store(),
                find_path(s, path@) == find_path(s.take(i as int), path@),
            decreases i,
        {
            assert(s.take(i as int).drop_last() =~= s.take(i - 1));
            assert(s.take(i as int).last() == self.records@[i - 1]@);
            if self.records[i - 1].path == *path {
                return Some(i - 1);
            }
            i = i - 1;
        }
        None
    }

    fn position_of_id(&self, id: &String) -> (r: Option<usize>)
        ensures
            match r {
                Some(i) => i as int == find_id(self.store(), id@),
                None => find_id(self.store(), id@) == -1,
            },
    {
        let ghost s = self.store();
        let mut i: usize = self.records.len();
        assert(s.take(i as int) =~= s);
        while i > 0
            invariant
                i <= self.records@.len() == s.len(),
                s == self.store(),
                find_id(s, id@) == find_id(s.take(i as int), id@),
            decreases i,
        {
            assert(s.take(i as int).drop_last() =~= s.take(i - 1));
            assert(s.take(i as int).last() == self.records@[i - 1]@);
            if self.records[i - 1].id == *id {
                return Some(i - 1);
            }
            i = i - 1;
        }
        None
    }

    fn position_of_doc(docs: &Vec<IndexDocument>, id: &String) -> (r: Option<usize>)
        ensures
            match r {
                Some(i) => i as int == find_doc(docs_view(docs@), id@),
                None => find_doc(docs_view(docs@), id@) == -1,
            },
    {
        let ghost s = docs_view(docs@);
        let mut i: usize = docs.len();
        assert(s.take(i as int) =~= s);
        while i > 0
            invariant
                i <= docs@.len() == s.len(),
                s == docs_view(docs@),
                find_doc(s, id@) == find_doc(s.take(i as int), id@),
            decreases i,
        {
            assert(s.take(i as int).drop_last() =~= s.take(i - 1));
            assert(s.take(i as int).last() == docs@[i - 1]@);
            if docs[i - 1].id == *id {
                return Some(i - 1);
            }
            i = i - 1;
        }
        None
    }

    fn shadow_of(records: &Vec<FileRecord>) -> (r: Vec<(String, String)>)
        ensures
            r@.len() == records@.len(),
            forall|i: int|
                0 <= i < r@.len() ==> (#[trigger] r@[i]).0@ == records@[i].path@ && r@[i].1@
                    == records@[i].name@,
    {
        let mut out: Vec<(String, String)> = Vec::new();
        let mut i: usize = 0;
        while i < records.len()
            invariant
                i <= records@.len(),
                out@.len() == i,
                forall|k: int|
                    0 <= k < i ==> (#[trigger] out@[k]).0@ == records@[k].path@ && out@[k].1@
                        == records@[k].name@,
            decreases records@.len() - i,
        {
            out.push((records[i].path.clone(), records[i].name.clone()));
            i = i + 1;
        }
        out
    }

    /// Inserts `entry`, or replaces the record stored under its path (see
    /// `upserted`), and writes its projection to the full-text index. The
    /// projection keeps the text already indexed for the same identifier
    /// when `entry` says its content was extracted.
    pub fn insert_file(&mut self, entry: &FileRecord)
        requires
            old(self).wf(),
        ensures
            final(self).wf(),
            final(self).store() == upserted(old(self).store(), entry@),
            final(self).pending_docs() == with_doc(
                old(self).pending_docs(),
                projection(entry@, kept_content(old(self).pending_docs(), entry@)),
            ),
            final(self).searchable_docs() == old(self).searchable_docs(),
    {
        let ghost s = self.store();
        let ghost docs0 = self.pending_docs();
        let found = self.position_of_path(&entry.path).is_some();
        let mut out: Vec<FileRecord> = Vec::new();
        let mut i: usize = 0;
        assert(s.take(0) =~= Seq::<RecordView>::empty());
        while i < self.records.len()
            invariant
                i <= self.records@.len() == s.len(),
                s == self.store(),
                recs_view(out@) == crate::model::replaced(s.take(i as int), entry@),
            decreases self.records@.len() - i,
        {
            assert(s.take(i + 1).drop_last() =~= s.take(i as int));
            assert(s.take(i + 1).last() == self.records@[i as int]@);
            let ghost before = out@;
            if self.records[i].path == entry.path {
                let d = entry.duplicate();
                out.push(d);
                assert(recs_view(out@) =~= recs_view(before).push(d@));
            } else if self.records[i].id == entry.id {
            } else {
                let d = self.records[i].duplicate();
                out.push(d);
                assert(recs_view(out@) =~= recs_view(before).push(d@));
            }
            i = i + 1;
        }
        assert(s.take(s.len() as int) =~= s);
        if !found {
            let ghost before = out@;
            let d = entry.duplicate();
            out.push(d);
            assert(recs_view(out@) =~= recs_view(before).push(d@));
        }
        proof {
            lemma_upserted(s, entry@);
        }
        proof {
            lemma_last_match(docs0, |x: DocView| x.id == entry@.id);
        }
        let kept: Option<String> = if entry.content_extracted {
            match Self::position_of_doc(&self.documents, &entry.id) {
                Some(k) => crate::record::copy_opt(&self.documents[k].content),
                None => None,
            }
        } else {
            None
        };
        let doc = IndexDocument::from_record(entry, kept);
        Self::put_document(&mut self.documents, doc);
        self.shadow = Self::shadow_of(&out);
        self.records = out;
    }

    /// The record stored under `path`, if any.
    pub fn get_file_by_path(&self, path: &str) -> (r: Option<FileRecord>)
        requires
            self.wf(),
        ensures
            match r {
                Some(x) => find_path(self.store(), path@) >= 0 && x@ == self.store()[find_path(
                    self.store(),
                    path@,
                )],
                None => find_path(self.store(), path@) == -1,
            },
            r.is_some() <==> exists|i: int|
                0 <= i < self.store().len() && self.store()[i].path == path@,
    {
        proof {
            lemma_find_path_none(self.store(), path@);
        }
        let p = path.to_owned();
        match self.position_of_path(&p) {
            Some(i) => Some(self.records[i].duplicate()),
            None => None,
        }
    }

    /// The record with identifier `id`; `NotFound` when there is none.
    pub fn get_file_by_id(&self, id: &str) -> (r: Result<FileRecord, StoreError>)
        requires
            self.wf(),
        ensures
            match r {
                Ok(x) => find_id(self.store(), id@) >= 0 && x@ == self.store()[find_id(
                    self.store(),
                    id@,
                )],
                Err(e) => e == StoreError::NotFound && find_id(self.store(), id@) == -1,
            },
            r.is_ok() <==> exists|i: int| 0 <= i < self.store().len() && self.store()[i].id == id@,
    {
        proof {
            lemma_find_id_none(self.store(), id@);
        }
        let k = id.to_owned();
        match self.position_of_id(&k) {
            Some(i) => Ok(self.records[i].duplicate()),
            None => Err(StoreError::NotFound),
        }
    }

    /// An identifier that no record holds: `seed` when it is free, else
    /// `seed` followed by every stored identifier, which is longer than each.
    pub fn unused_id(&self, seed: String) -> (r: String)
        requires
            self.wf(),
        ensures
            find_id(self.store(), r@) == -1,
            find_id(self.store(), seed@) == -1 ==> r@ == seed@,
    {
        let ghost s = self.store();
        proof {
            lemma_find_id_none(s, seed@);
        }
        if self.position_of_id(&seed).is_none() {
            return seed;
        }
        let mut r = seed;
        r.append("-");
        proof {
            reveal_strlit("-");
        }
        let mut i: usize = 0;
        while i < self.records.len()
            invariant
                i <= self.records@.len() == s.len(),
                s == self.store(),
                r@.len() >= 1,
                forall|k: int| 0 <= k < i ==> r@.len() > (#[trigger] s[k]).id.len(),
            decreases self.records@.len() - i,
        {
            r.append(self.records[i].id.as_str());
            assert(s[i as int].id == self.records@[i as int].id@);
            i = i + 1;
        }
        proof {
            lemma_find_id_none(s, r@);
            assert forall|k: int| 0 <= k < s.len() implies s[k].id != r@ by {
                assert(r@.len() > s[k].id.len());
            }
        }
        r
    }

    /// Removes the record stored under `path` and its document from the
    /// full-text index; nothing happens when the path is unknown.
    pub fn delete_file(&mut self, path: &str)
        requires
            old(self).wf(),
        ensures
            final(self).wf(),
            final(self).store() == without_path(old(self).store(), path@),
            find_path(old(self).store(), path@) >= 0 ==> final(self).pending_docs() == without_doc(
                old(self).pending_docs(),
                old(self).store()[find_path(old(self).store(), path@)].id,
            ),
            find_path(old(self).store(), path@) == -1 ==> final(self).pending_docs() == old(
                self,
            ).pending_docs(),
            final(self).searchable_docs() == old(self).searchable_docs(),
    {
        let ghost s = self.store();
        proof {
            lemma_find_path_none(s, path@);
        }
        let p = path.to_owned();
        if let Some(i) = self.position_of_path(&p) {
            let id = self.records[i].id.clone();
            Self::drop_document(&mut self.documents, &id);
        }
        let mut out: Vec<FileRecord> = Vec::new();
        let mut i: usize = 0;
        assert(s.take(0) =~= Seq::<RecordView>::empty());
        while i < self.records.len()
            invariant
                i <= self.records@.len() == s.len(),
                s == self.store(),
                p@ == path@,
                recs_view(out@) == without_path(s.take(i as int), path@),
            decreases self.records@.len() - i,
        {
            assert(s.take(i + 1).drop_last() =~= s.take(i as int));
            assert(s.take(i + 1).last() == self.records@[i as int]@);
            if self.records[i].path != p {
                let ghost before = out@;
                let d = self.records[i].duplicate();
                out.push(d);
                assert(recs_view(out@) =~= recs_view(before).push(d@));
            }
            i = i + 1;
        }
        assert(s.take(s.len() as int) =~= s);
        proof {
            lemma_without_path(s, path@);
        }
        self.shadow = Self::shadow_of(&out);
        self.records = out;
    }

    /// Records extracted text for the file with identifier `file_id`: its
    /// document is replaced by one that carries `content`, and its record is
    /// flagged as extracted. Nothing happens when the identifier is unknown.
    pub fn add_file_content(&mut self, file_id: &str, content: &str)
        requires
            old(self).wf(),
        ensures
            final(self).wf(),
            final(self).searchable_docs() == old(self).searchable_docs(),
            ({
                let s = old(self).store();
                let k = find_id(s, file_id@);
                if k >= 0 {
                    &&& final(self).store() == s.update(k, marked_extracted(s[k]))
                    &&& final(self).pending_docs() == with_doc(
                        old(self).pending_docs(),
                        projection(s[k], Some(content@)),
                    )
                } else {
                    &&& final(self).store() == s
                    &&& final(self).pending_docs() == old(self).pending_docs()
                }
            }),
    {
        let ghost s = self.store();
        let k = file_id.to_owned();
        if let Some(i) = self.position_of_id(&k) {
            proof {
                lemma_find_id_none(s, file_id@);
            }
            let doc = IndexDocument::from_record(&self.records[i], Some(content.to_owned()));
            Self::put_document(&mut self.documents, doc);
            let mut rec = self.records[i].duplicate();
            rec.content_extracted = true;
            self.records.set(i, rec);
            assert(self.store() =~= s.update(i as int, marked_extracted(s[i as int])));
            assert(self.shadow_consistent()) by {
                assert forall|j: int| 0 <= j < self.shadow@.len() implies (
                #[trigger] self.shadow@[j]).0@ == self.records@[j].path@ && self.shadow@[j].1@
                    == self.records@[j].name@ by {
                    assert(self.store()[j] == s.update(i as int, marked_extracted(s[i as int]))[j]);
                }
            }
            assert(store_wf(self.store())) by {
                let t = self.store();
                assert forall|a: int, b: int|
                    0 <= a < t.len() && 0 <= b < t.len() && a != b implies #[trigger] t[a].path
                    != #[trigger] t[b].path by {
                    assert(s[a].path != s[b].path);
                }
                assert forall|a: int, b: int|
                    0 <= a < t.len() && 0 <= b < t.len() && a != b implies #[trigger] t[a].id
                    != #[trigger] t[b].id by {
                    assert(s[a].id != s[b].id);
                }
            }
        }
    }

    /// Writes `doc` to the full-text index in place of the document with the
    /// same identifier; it becomes searchable at the next `commit`.
    pub fn add_or_replace(&mut self, doc: IndexDocument)
        requires
            old(self).wf(),
        ensures
            final(self).wf(),
            final(self).store() == old(self).store(),
            final(self).pending_docs() == with_doc(old(self).pending_docs(), doc@),
            final(self).searchable_docs() == old(self).searchable_docs(),
    {
        Self::put_document(&mut self.documents, doc);
    }

    /// Makes every document written so far visible to `search_ids`.
    pub fn commit(&mut self)
        requires
            old(self).wf(),
        ensures
            final(self).wf(),
            final(self).store() == old(self).store(),
            final(self).pending_docs() == old(self).pending_docs(),
            final(self).searchable_docs() == old(self).pending_docs(),
    {
        let mut out: Vec<IndexDocument> = Vec::new();
        let mut i: usize = 0;
        while i < self.documents.len()
            invariant
                i <= self.documents@.len(),
                out@.len() == i,
                forall|k: int| 0 <= k < i ==> (#[trigger] out@[k])@ == self.documents@[k]@,
            decreases self.documents@.len() - i,
        {
            out.push(self.documents[i].duplicate());
            i = i + 1;
        }
        self.committed = out;
        assert(self.searchable_docs() =~= self.pending_docs());
    }

    /// Appends to `out`, in store order, the records whose name contains the
    /// query (`by_name`) or else those whose path alone does, read from the
    /// shadow (path, name) entries.
    fn shadow_pass(&self, ql: &String, query: &str, by_name: bool, out: &mut Vec<FileRecord>)
        requires
            self.wf(),
            ql@ == lower_of(query@),
        ensures
            recs_view(final(out)@) == recs_view(old(out)@) + (if by_name {
                self.store().filter(|r: RecordView| name_match(r.name, query@))
            } else {
                self.store().filter(|r: RecordView| path_only_match(r.path, r.name, query@))
            }),
    {
        let ghost s = self.store();
        let ghost pred = if by_name {
            |x: RecordView| name_match(x.name, query@)
        } else {
            |x: RecordView| path_only_match(x.path, x.name, query@)
        };
        let ghost o0 = recs_view(out@);
        let mut i: usize = 0;
        assert(s.take(0) =~= Seq::<RecordView>::empty());
        proof {
            reveal(Seq::filter);
        }
        assert(recs_view(out@) =~= o0 + s.take(0).filter(pred));
        while i < self.records.len()
            invariant
                i <= self.records@.len() == s.len(),
                s == self.store(),
                self.shadow_consistent(),
                pred == (if by_name {
                    |x: RecordView| name_match(x.name, query@)
                } else {
                    |x: RecordView| path_only_match(x.path, x.name, query@)
                }),
                ql@ == lower_of(query@),
                recs_view(out@) == o0 + s.take(i as int).filter(pred),
            decreases self.records@.len() - i,
        {
            assert(s.take(i + 1).drop_last() =~= s.take(i as int));
            assert(s.take(i + 1).last() == self.records@[i as int]@);
            let nl = lowercase(self.shadow[i].1.as_str());
            let in_name = contains(nl.as_str(), ql.as_str());
            let hit = if by_name {
                in_name
            } else if in_name {
                false
            } else {
                let pl = lowercase(self.shadow[i].0.as_str());
                contains(pl.as_str(), ql.as_str())
            };
            proof {
                reveal(Seq::filter);
                assert(self.shadow@[i as int].0@ == self.records@[i as int].path@);
                assert(self.shadow@[i as int].1@ == self.records@[i as int].name@);
                let x = s.take(i + 1).last();
                assert(x == self.records@[i as int]@);
                assert(hit == pred(x));
            }
            if hit {
                let ghost before = out@;
                let d = self.records[i].duplicate();
                out.push(d);
                assert(recs_view(out@) =~= recs_view(before).push(d@));
                assert(recs_view(out@) =~= o0 + s.take(i + 1).filter(pred));
            } else {
                assert(recs_view(out@) =~= o0 + s.take(i + 1).filter(pred));
            }
            i = i + 1;
        }
        assert(s.take(s.len() as int) =~= s);
    }

    /// Lookup through the shadow (path, name) index: the records whose name
    /// contains `query`, ignoring case, then those whose path alone does,
    /// each group in store order, at most `limit` of them.
    pub fn fts_search(&self, query: &str, limit: usize) -> (r: Vec<FileRecord>)
        requires
            self.wf(),
        ensures
            recs_view(r@) == at_most(text_hits(self.store(), query@), limit as nat),
    {
        let ql = lowercase(query);
        let mut out: Vec<FileRecord> = Vec::new();
        assert(recs_view(out@) =~= Seq::<RecordView>::empty());
        self.shadow_pass(&ql, query, true, &mut out);
        self.shadow_pass(&ql, query, false, &mut out);
        let ghost all = recs_view(out@);
        assert(all =~= text_hits(self.store(), query@));
        out.truncate(limit);
        assert(recs_view(out@) =~= at_most(all, limit as nat));
        out
    }

    /// Appends to `out` the identifiers of the committed documents of tier
    /// `tier` for the query, in index order.
    fn doc_pass(&self, ql: &String, query: &str, tier: u8, out: &mut Vec<String>)
        requires
            self.wf(),
            ql@ == lower_of(query@),
            tier <= 2,
        ensures
            final(out)@.map_values(|x: String| x@) == old(out)@.map_values(|x: String| x@)
                + self.searchable_docs().filter(|d: DocView| doc_tier(d, query@) == tier as int).map_values(
                |d: DocView| d.id,
            ),
    {
        let ghost s = self.searchable_docs();
        let ghost pred = |d: DocView| doc_tier(d, query@) == tier as int;
        let ghost o0 = out@.map_values(|x: String| x@);
        let mut i: usize = 0;
        assert(s.take(0) =~= Seq::<DocView>::empty());
        proof {
            reveal(Seq::filter);
        }
        assert(out@.map_values(|x: String| x@) =~= o0 + s.take(0).filter(pred).map_values(|d: DocView| d.id));
        while i < self.committed.len()
            invariant
                i <= self.committed@.len() == s.len(),
                s == self.searchable_docs(),
                pred == (|d: DocView| doc_tier(d, query@) == tier as int),
                ql@ == lower_of(query@),
                out@.map_values(|x: String| x@) == o0 + s.take(i as int).filter(pred).map_values(|d: DocView| d.id),
            decreases self.committed@.len() - i,
        {
            assert(s.take(i + 1).drop_last() =~= s.take(i as int));
            assert(s.take(i + 1).last() == self.committed@[i as int]@);
            let doc = &self.committed[i];
            let nl = lowercase(doc.name.as_str());
            let pl = lowercase(doc.path.as_str());
            let t: u8 = if contains(nl.as_str(), ql.as_str()) {
                0
            } else if contains(pl.as_str(), ql.as_str()) {
                1
            } else {
                match &doc.content {
                    Some(c) => {
                        let cl = lowercase(c.as_str());
                        if contains(cl.as_str(), ql.as_str()) {
                            2
                        } else {
                            3
                        }
                    },
                    None => 3,
                }
            };
            proof {
                reveal(Seq::filter);
                assert(t as int == doc_tier(doc@, query@));
                assert((t == tier) == pred(s.take(i + 1).last()));
            }
            let ghost before = out@;
            let ghost f0 = s.take(i as int).filter(pred);
            if t == tier {
                out.push(doc.id.clone());
                proof {
                    assert(s.take(i + 1).filter(pred) == f0.push(doc@));
                    assert(out@.map_values(|x: String| x@) =~= before.map_values(|x: String| x@).push(doc.id@));
                    assert(f0.push(doc@).map_values(|d: DocView| d.id) =~= f0.map_values(|d: DocView| d.id).push(doc@.id));
                    assert(out@.map_values(|x: String| x@) =~= o0 + s.take(i + 1).filter(pred).map_values(|d: DocView| d.id));
                }
            } else {
                assert(s.take(i + 1).filter(pred) == f0);
            }
            i = i + 1;
        }
        assert(s.take(s.len() as int) =~= s);
    }

    /// A full-text query: the identifiers of the committed documents that
    /// hold `query`, ignoring case, best first (name, then path, then text;
    /// in index order within each), at most `limit` of them, each once.
    pub fn search_ids(&self, query: &str, limit: usize) -> (r: Vec<String>)
        requires
            self.wf(),
        ensures
            r@.map_values(|x: String| x@) == at_most(doc_hits(self.searchable_docs(), query@), limit as nat).map_values(
                |d: DocView| d.id,
            ),
            forall|i: int, j: int| 0 <= i < r@.len() && 0 <= j < r@.len() && i != j ==> (#[trigger] r@[i])@ != (#[trigger] r@[j])@,
    {
        let ghost s = self.searchable_docs();
        let ql = lowercase(query);
        let mut out: Vec<String> = Vec::new();
        assert(out@.map_values(|x: String| x@) =~= Seq::<Seq<char>>::empty());
        self.doc_pass(&ql, query, 0, &mut out);
        self.doc_pass(&ql, query, 1, &mut out);
        self.doc_pass(&ql, query, 2, &mut out);
        let ghost all = doc_hits(s, query@);
        proof {
            let ids = |d: DocView| d.id;
            let f0 = s.filter(|d: DocView| doc_tier(d, query@) == 0);
            let f1 = s.filter(|d: DocView| doc_tier(d, query@) == 1);
            let f2 = s.filter(|d: DocView| doc_tier(d, query@) == 2);
            assert((f0 + f1 + f2).map_values(ids) =~= f0.map_values(ids) + f1.map_values(ids) + f2.map_values(ids));
            assert(out@.map_values(|x: String| x@) =~= all.map_values(ids));
        }
        let ghost full = out@;
        out.truncate(limit);
        proof {
            self.lemma_store_wf();
            lemma_doc_hits_unique(s, query@);
            let ids = |d: DocView| d.id;
            let fv = full.map_values(|x: String| x@);
            assert(fv == all.map_values(ids));
            assert(fv.len() == all.len());
            if limit <= full.len() {
                assert(out@ =~= full.subrange(0, limit as int));
                assert forall|k: int| 0 <= k < out@.len() implies out@[k]@ == all[k].id by {
                    assert(out@[k] == full[k]);
                    assert(fv[k] == full[k]@);
                }
            } else {
                assert(out@ == full);
            }
            assert(out@.map_values(|x: String| x@) =~= at_most(all, limit as nat).map_values(ids));
            let ov = out@.map_values(|x: String| x@);
            assert forall|i: int, j: int| 0 <= i < out@.len() && 0 <= j < out@.len() && i != j implies (
            #[trigger] out@[i])@ != (#[trigger] out@[j])@ by {
                assert(ov[i] == out@[i]@ && ov[j] == out@[j]@);
                assert(ov[i] == all[i].id && ov[j] == all[j].id);
            }
        }
        out
    }

    /// A full-text query resolved to records: the records of the identifiers
    /// that `search_ids` returns, skipping those no longer in the store.
    pub fn tantivy_search(&self, query: &str, limit: usize) -> (r: Vec<FileRecord>)
        requires
            self.wf(),
        ensures
            recs_view(r@) == resolved(
                at_most(doc_hits(self.searchable_docs(), query@), limit as nat).map_values(
                    |d: DocView| d.id,
                ),
                self.store(),
            ),
    {
        let ids = self.search_ids(query, limit);
        let ghost idv = ids@.map_values(|x: String| x@);
        let mut out: Vec<FileRecord> = Vec::new();
        let mut i: usize = 0;
        assert(idv.take(0) =~= Seq::<Seq<char>>::empty());
        while i < ids.len()
            invariant
                self.wf(),
                i <= ids@.len() == idv.len(),
                idv == ids@.map_values(|x: String| x@),
                recs_view(out@) == resolved(idv.take(i as int), self.store()),
            decreases ids@.len() - i,
        {
            assert(idv.take(i + 1).drop_last() =~= idv.take(i as int));
            assert(idv.take(i + 1).last() == ids@[i as int]@);
            if let Ok(rec) = self.get_file_by_id(ids[i].as_str()) {
                let ghost before = out@;
                out.push(rec);
                assert(recs_view(out@) =~= recs_view(before).push(rec@));
            }
            i = i + 1;
        }
        assert(idv.take(idv.len() as int) =~= idv);
        out
    }

    /// Counts over the store; `indexing_speed` (files per second) and
    /// `index_size_bytes` (on-disk size) are what the caller measured.
    pub fn get_indexing_status(&self, indexing_speed: u64, index_size_bytes: u64) -> (r: IndexStatus)
        requires
            self.wf(),
        ensures
            r.total_files == self.store().len(),
            r.indexed_files == count_indexed(self.store()),
            r.pending_files == count_pending(self.store()),
            r.failed_files == count_failed(self.store()),
            r.last_update == last_indexed(self.store()),
            r.indexing_speed == indexing_speed,
            r.index_size_bytes == index_size_bytes,
    {
        let ghost s = self.store();
        let mut indexed: u64 = 0;
        let mut failed: u64 = 0;
        let mut pending: u64 = 0;
        let mut last: i64 = 0;
        let mut i: usize = 0;
        assert(s.take(0) =~= Seq::<RecordView>::empty());
        while i < self.records.len()
            invariant
                i <= self.records@.len() == s.len(),
                s == self.store(),
                indexed as nat == count_indexed(s.take(i as int)),
                failed as nat == count_failed(s.take(i as int)),
                pending as nat == count_pending(s.take(i as int)),
                last == last_indexed(s.take(i as int)),
                indexed <= i && failed <= i && pending <= i,
            decreases self.records@.len() - i,
        {
            assert(s.take(i + 1).drop_last() =~= s.take(i as int));
            assert(s.take(i + 1).last() == self.records@[i as int]@);
            let rec = &self.records[i];
            if rec.content_extracted {
                indexed = indexed + 1;
            }
            if rec.checksum.is_none() {
                failed = failed + 1;
            } else if !rec.content_extracted {
                pending = pending + 1;
            }
            if i == 0 || rec.indexed_at > last {
                last = rec.indexed_at;
            }
            i = i + 1;
        }
        assert(s.take(s.len() as int) =~= s);
        IndexStatus {
            total_files: self.records.len() as u64,
            indexed_files: indexed,
            pending_files: pending,
            failed_files: failed,
            last_update: last,
            indexing_speed: indexing_speed,
            index_size_bytes: index_size_bytes,
        }
    }

    /// Adds `doc`, replacing the document with the same identifier.
    fn put_document(docs: &mut Vec<IndexDocument>, doc: IndexDocument)
        requires
            docs_unique(docs_view(old(docs)@)),
        ensures
            docs_view(final(docs)@) == with_doc(docs_view(old(docs)@), doc@),
            docs_unique(docs_view(final(docs)@)),
    {
        let ghost s = docs_view(docs@);
        proof {
            lemma_with_doc(s, doc@);
            lemma_last_match(s, |x: DocView| x.id == doc@.id);
        }
        match Self::position_of_doc(docs, &doc.id) {
            Some(i) => {
                docs.set(i, doc);
                assert(docs_view(docs@) =~= with_doc(s, doc@));
            },
            None => {
                docs.push(doc);
                assert(docs_view(docs@) =~= with_doc(s, doc@));
            },
        }
    }

    /// Removes the document with identifier `id`, if any.
    fn drop_document(docs: &mut Vec<IndexDocument>, id: &String)
        requires
            docs_unique(docs_view(old(docs)@)),
        ensures
            docs_view(final(docs)@) == without_doc(docs_view(old(docs)@), id@),
            docs_unique(docs_view(final(docs)@)),
    {
        let ghost s = docs_view(docs@);
        let mut out: Vec<IndexDocument> = Vec::new();
        let mut i: usize = 0;
        assert(s.take(0) =~= Seq::<DocView>::empty());
        while i < docs.len()
            invariant
                i <= docs@.len() == s.len(),
                s == docs_view(docs@),
                docs_view(out@) == without_doc(s.take(i as int), id@),
            decreases docs@.len() - i,
        {
            assert(s.take(i + 1).drop_last() =~= s.take(i as int));
            assert(s.take(i + 1).last() == docs@[i as int]@);
            if docs[i].id != *id {
                let d = docs[i].duplicate();
                let ghost before = out@;
                out.push(d);
                assert(docs_view(out@) =~= docs_view(before).push(d@));
            }
            i = i + 1;
        }
        assert(s.take(docs@.len() as int) =~= s);
        *docs = out;
        proof {
            lemma_without_doc(s, id@);
        }
    }
}

} // verus!
