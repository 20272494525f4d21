//! The bulk indexing run: its phases in strict order, the progress it
//! reports, and the driver that writes the scanned candidates in batches.
use vstd::prelude::*;
use crate::db::{recs_view, Database};
use crate::indexer::{
    clock_millis, lemma_writes_start, record_from_facts, upsert_all, write_one, writes_kept, FileFacts,
};
use crate::record::{FileRecord, RecordView};

verus! {

/// Phase of an indexing run. `Error` absorbs a run from any phase.
#[derive(Clone, Debug)]
pub enum IndexingPhase {
    Scanning,
    Indexing,
    ContentExtraction,
    Finalizing,
    Complete,
    Error(String),
}

pub open spec fn phase_rank(p: IndexingPhase) -> int {
    match p {
        IndexingPhase::Scanning => 0,
        IndexingPhase::Indexing => 1,
        IndexingPhase::ContentExtraction => 2,
        IndexingPhase::Finalizing => 3,
        IndexingPhase::Complete => 4,
        IndexingPhase::Error(_) => 5,
    }
}

pub open spec fn is_terminal(p: IndexingPhase) -> bool {
    p is Complete || p is Error
}

/// Observed phases follow `Scanning, Indexing, ContentExtraction,
/// Finalizing, Complete` without going back, `Complete` only after
/// `Finalizing`, and nothing after `Complete` or `Error`.
pub open spec fn phases_in_order(s: Seq<IndexingPhase>) -> bool {
    &&& forall|i: int, j: int|
        0 <= i < j < s.len() ==> phase_rank(#[trigger] s[i]) <= phase_rank(#[trigger] s[j])
    &&& forall|i: int|
        0 <= i < s.len() && (#[trigger] s[i]) is Complete ==> exists|j: int|
            0 <= j < i && s[j] is Finalizing
    &&& forall|i: int| 0 <= i < s.len() - 1 ==> !is_terminal(#[trigger] s[i])
}

/// A progress report. `processing_speed` is in files per second and
/// `estimated_time_remaining` in seconds.
#[derive(Clone, Debug)]
pub struct IndexingProgress {
    pub current_path: String,
    pub processed_files: u64,
    pub total_files: u64,
    pub processing_speed: u64,
    pub estimated_time_remaining: u64,
    pub is_running: bool,
    pub phase: IndexingPhase,
}

/// Files per second after `processed` files in `elapsed_ms` milliseconds,
/// capped at `u64::MAX`; 0 before any time has passed.
pub open spec fn speed_of(processed: u64, elapsed_ms: u64) -> int {
    if elapsed_ms == 0 {
        0
    } else if processed as int * 1000 / elapsed_ms as int > u64::MAX {
        u64::MAX as int
    } else {
        processed as int * 1000 / elapsed_ms as int
    }
}

/// Seconds left for `remaining` files at `speed` files per second; 0 when
/// the speed is unknown.
pub open spec fn eta_of(remaining: u64, speed: u64) -> int {
    if speed == 0 {
        0
    } else {
        remaining as int / speed as int
    }
}

/// Files per second after `processed` files in `elapsed_ms` milliseconds.
pub fn processing_speed(processed: u64, elapsed_ms: u64) -> (r: u64)
    ensures
        r == speed_of(processed, elapsed_ms),
{
    if elapsed_ms == 0 {
        0
    } else {
        let v: u128 = (processed as u128) * 1000 / (elapsed_ms as u128);
        assert(v <= processed as int * 1000) by (nonlinear_arith)
            requires
                v == (processed as int * 1000) / elapsed_ms as int,
                elapsed_ms >= 1,
        ;
        if v > u64::MAX as u128 {
            u64::MAX
        } else {
            v as u64
        }
    }
}

/// Seconds left for `remaining` files at `speed` files per second.
pub fn estimated_remaining(remaining: u64, speed: u64) -> (r: u64)
    ensures
        r == eta_of(remaining, speed),
{
    if speed == 0 {
        0
    } else {
        remaining / speed
    }
}

/// The progress of one run: the reports emitted so far, in order.
pub struct IndexingRun {
    events: Vec<IndexingProgress>,
    total: u64,
    started_ms: u64,
}

fn label(s: &str) -> (r: String)
    ensures
        r@ == s@,
{
    s.to_owned()
}

/// `p` carries these counts, rates and running flag.
pub open spec fn report_carries(
    p: IndexingProgress,
    processed: u64,
    total: u64,
    speed: u64,
    eta: u64,
    running: bool,
) -> bool {
    &&& p.processed_files == processed
    &&& p.total_files == total
    &&& p.processing_speed == speed
    &&& p.estimated_time_remaining == eta
    &&& p.is_running == running
}

/// Reports never count more files done than announced, and a report says
/// the run is going on exactly when its phase is not terminal.
pub open spec fn reports_consistent(s: Seq<IndexingProgress>) -> bool {
    forall|i: int|
        0 <= i < s.len() ==> (#[trigger] s[i]).processed_files <= s[i].total_files && s[i].is_running
            == !is_terminal(s[i].phase)
}

impl IndexingRun {
    /// The reports emitted so far, in order.
    pub closed spec fn reports(&self) -> Seq<IndexingProgress> {
        self.events@
    }

    /// The phases of the reports emitted so far.
    pub open spec fn phases(&self) -> Seq<IndexingPhase> {
        self.reports().map_values(|e: IndexingProgress| e.phase)
    }

    /// The phase of the last report.
    pub open spec fn phase(&self) -> IndexingPhase {
        self.reports().last().phase
    }

    /// The clock reading at which the run started.
    pub closed spec fn started(&self) -> u64 {
        self.started_ms
    }

    /// The number of candidates announced when scanning ended.
    pub closed spec fn total(&self) -> u64 {
        self.total
    }

    pub closed spec fn wf(&self) -> bool {
        &&& self.events@.len() > 0
        &&& phases_in_order(self.phases())
        &&& reports_consistent(self.reports())
    }

    /// Every run reports its phases in order: each report's phase is the
    /// same as or later than the one before in `Scanning, Indexing,
    /// ContentExtraction, Finalizing, Complete`, `Complete` comes only after
    /// `Finalizing`, and nothing follows `Complete` or `Error`. No report
    /// counts more files done than announced, and each says the run is going
    /// on exactly when its phase is not terminal.
    pub proof fn lemma_phases(&self)
        requires
            self.wf(),
        ensures
            phases_in_order(self.phases()),
            reports_consistent(self.reports()),
            self.reports().len() > 0,
    {
    }

    fn emit(&mut self, p: IndexingProgress)
        requires
            old(self).wf(),
            phase_rank(old(self).phase()) <= phase_rank(p.phase),
            !is_terminal(old(self).phase()),
            p.phase is Complete ==> old(self).phase() is Finalizing,
            p.processed_files <= p.total_files,
            p.is_running == !is_terminal(p.phase),
        ensures
            final(self).wf(),
            final(self).reports() == old(self).reports().push(p),
            final(self).total() == old(self).total(),
            final(self).started() == old(self).started(),
    {
        let ghost ph0 = self.phases();
        let ghost r0 = self.reports();
        self.events.push(p);
        proof {
            let ph = self.phases();
            let rs = self.reports();
            assert(ph =~= ph0.push(p.phase));
            assert(ph0.last() == self.events@[self.events@.len() - 2].phase);
            assert forall|i: int, j: int| 0 <= i < j < ph.len() implies phase_rank(#[trigger] ph[i])
                <= phase_rank(#[trigger] ph[j]) by {
                if j == ph.len() - 1 && i < ph0.len() - 1 {
                    assert(phase_rank(ph0[i]) <= phase_rank(ph0[ph0.len() - 1]));
                }
            }
            assert forall|i: int| 0 <= i < ph.len() && (#[trigger] ph[i]) is Complete implies exists|j: int|
                0 <= j < i && ph[j] is Finalizing by {
                if i == ph.len() - 1 {
                    assert(ph[i - 1] is Finalizing);
                } else {
                    let j = choose|j: int| 0 <= j < i && ph0[j] is Finalizing;
                    assert(ph[j] == ph0[j]);
                }
            }
            assert forall|i: int| 0 <= i < ph.len() - 1 implies !is_terminal(#[trigger] ph[i]) by {
                if i < ph0.len() - 1 {
                    assert(ph[i] == ph0[i]);
                }
            }
            assert forall|i: int| 0 <= i < rs.len() implies (#[trigger] rs[i]).processed_files
                <= rs[i].total_files && rs[i].is_running == !is_terminal(rs[i].phase) by {
                if i < r0.len() {
                    assert(rs[i] == r0[i]);
                }
            }
        }
    }

    /// A run that has begun scanning, at clock reading `started_ms`.
    pub fn start(started_ms: u64) -> (r: IndexingRun)
        ensures
            r.wf(),
            r.reports().len() == 1,
            r.phase() is Scanning,
            report_carries(r.reports()[0], 0, 0, 0, 0, true),
            r.started() == started_ms,
            r.total() == 0,
    {
        let p = IndexingProgress {
            current_path: label("Scanning..."),
            processed_files: 0,
            total_files: 0,
            processing_speed: 0,
            estimated_time_remaining: 0,
            is_running: true,
            phase: IndexingPhase::Scanning,
        };
        let mut events: Vec<IndexingProgress> = Vec::new();
        events.push(p);
        let r = IndexingRun { events, total: 0, started_ms };
        assert(r.phases() =~= seq![IndexingPhase::Scanning]);
        r
    }

    /// Scanning found `total` candidates: indexing begins.
    pub fn scanned(&mut self, total: u64)
        requires
            old(self).wf(),
            old(self).phase() is Scanning,
        ensures
            final(self).wf(),
            final(self).reports().drop_last() == old(self).reports(),
            final(self).phase() is Indexing,
            report_carries(final(self).reports().last(), 0, total, 0, 0, true),
            final(self).total() == total,
            final(self).started() == old(self).started(),
    {
        self.total = total;
        self.emit(
            IndexingProgress {
                current_path: label("Indexing files..."),
                processed_files: 0,
                total_files: total,
                processing_speed: 0,
                estimated_time_remaining: 0,
                is_running: true,
                phase: IndexingPhase::Indexing,
            },
        );
        assert(self.reports().drop_last() =~= old(self).reports());
    }

    /// A batch is written: `processed` candidates are done at clock reading
    /// `now_ms`. Reports the speed so far and the time left.
    pub fn batch_done(&mut self, processed: u64, now_ms: u64)
        requires
            old(self).wf(),
            old(self).phase() is Indexing,
            processed <= old(self).total(),
        ensures
            final(self).wf(),
            final(self).reports().drop_last() == old(self).reports(),
            final(self).phase() is Indexing,
            final(self).total() == old(self).total(),
            final(self).started() == old(self).started(),
            ({
                let elapsed = if now_ms >= old(self).started() { (now_ms - old(self).started()) as u64 } else { 0u64 };
                let speed = speed_of(processed, elapsed) as u64;
                report_carries(
                    final(self).reports().last(),
                    processed,
                    old(self).total(),
                    speed,
                    eta_of((old(self).total() - processed) as u64, speed) as u64,
                    true,
                )
            }),
    {
        let elapsed = if now_ms >= self.started_ms {
            now_ms - self.started_ms
        } else {
            0
        };
        let remaining = self.total - processed;
        let speed = processing_speed(processed, elapsed);
        let eta = estimated_remaining(remaining, speed);
        self.emit(
            IndexingProgress {
                current_path: label("Indexing files..."),
                processed_files: processed,
                total_files: self.total,
                processing_speed: speed,
                estimated_time_remaining: eta,
                is_running: true,
                phase: IndexingPhase::Indexing,
            },
        );
        assert(self.reports().drop_last() =~= old(self).reports());
    }

    /// Indexing is over; content extraction begins and, being minimal,
    /// reports its end at once. Both reports carry this phase.
    pub fn extract_content(&mut self, processed: u64)
        requires
            old(self).wf(),
            old(self).phase() is Indexing,
            processed <= old(self).total(),
        ensures
            final(self).wf(),
            final(self).reports().len() == old(self).reports().len() + 2,
            final(self).reports().subrange(0, old(self).reports().len() as int) == old(self).reports(),
            final(self).reports()[old(self).reports().len() as int].phase is ContentExtraction,
            report_carries(final(self).reports()[old(self).reports().len() as int], processed, old(self).total(), 0, 0, true),
            final(self).phase() is ContentExtraction,
            report_carries(final(self).reports().last(), processed, old(self).total(), 0, 0, true),
            final(self).total() == old(self).total(),
            final(self).started() == old(self).started(),
    {
        self.emit(
            IndexingProgress {
                current_path: label("Extracting content..."),
                processed_files: processed,
                total_files: self.total,
                processing_speed: 0,
                estimated_time_remaining: 0,
                is_running: true,
                phase: IndexingPhase::ContentExtraction,
            },
        );
        self.emit(
            IndexingProgress {
                current_path: label("Content extraction complete"),
                processed_files: processed,
                total_files: self.total,
                processing_speed: 0,
                estimated_time_remaining: 0,
                is_running: true,
                phase: IndexingPhase::ContentExtraction,
            },
        );
        assert(self.reports().subrange(0, old(self).reports().len() as int) =~= old(self).reports());
    }

    /// Content extraction is over; the index is being committed.
    pub fn finalize(&mut self, processed: u64)
        requires
            old(self).wf(),
            old(self).phase() is ContentExtraction,
            processed <= old(self).total(),
        ensures
            final(self).wf(),
            final(self).reports().drop_last() == old(self).reports(),
            final(self).phase() is Finalizing,
            report_carries(final(self).reports().last(), processed, old(self).total(), 0, 0, true),
            final(self).total() == old(self).total(),
            final(self).started() == old(self).started(),
    {
        self.emit(
            IndexingProgress {
                current_path: label("Finalizing..."),
                processed_files: processed,
                total_files: self.total,
                processing_speed: 0,
                estimated_time_remaining: 0,
                is_running: true,
                phase: IndexingPhase::Finalizing,
            },
        );
        assert(self.reports().drop_last() =~= old(self).reports());
    }

    /// The run is complete at clock reading `now_ms`; the report carries the
    /// final throughput and says the run is over.
    pub fn complete(&mut self, processed: u64, now_ms: u64)
        requires
            old(self).wf(),
            old(self).phase() is Finalizing,
            processed <= old(self).total(),
        ensures
            final(self).wf(),
            final(self).reports().drop_last() == old(self).reports(),
            final(self).phase() is Complete,
            ({
                let elapsed = if now_ms >= old(self).started() { (now_ms - old(self).started()) as u64 } else { 0u64 };
                report_carries(
                    final(self).reports().last(),
                    processed,
                    old(self).total(),
                    speed_of(processed, elapsed) as u64,
                    0,
                    false,
                )
            }),
            final(self).total() == old(self).total(),
    {
        let elapsed = if now_ms >= self.started_ms {
            now_ms - self.started_ms
        } else {
            0
        };
        let speed = processing_speed(processed, elapsed);
        self.emit(
            IndexingProgress {
                current_path: label("Complete"),
                processed_files: processed,
                total_files: self.total,
                processing_speed: speed,
                estimated_time_remaining: 0,
                is_running: false,
                phase: IndexingPhase::Complete,
            },
        );
        assert(self.reports().drop_last() =~= old(self).reports());
    }

    /// The run failed for `reason`; the report says the run is over, and no
    /// report follows.
    pub fn fail(&mut self, reason: String)
        requires
            old(self).wf(),
            !is_terminal(old(self).phase()),
        ensures
            final(self).wf(),
            final(self).reports().drop_last() == old(self).reports(),
            final(self).phase() == IndexingPhase::Error(reason),
            report_carries(final(self).reports().last(), 0, old(self).total(), 0, 0, false),
    {
        self.emit(
            IndexingProgress {
                current_path: label("Error"),
                processed_files: 0,
                total_files: self.total,
                processing_speed: 0,
                estimated_time_remaining: 0,
                is_running: false,
                phase: IndexingPhase::Error(reason),
            },
        );
        assert(self.reports().drop_last() =~= old(self).reports());
    }

    /// Whether the run reached `Complete` or `Error`.
    pub fn is_finished(&self) -> (r: bool)
        requires
            self.wf(),
        ensures
            r == is_terminal(self.phase()),
    {
        let last = &self.events[self.events.len() - 1];
        match last.phase {
            IndexingPhase::Complete => true,
            IndexingPhase::Error(_) => true,
            _ => false,
        }
    }

    /// The number of reports emitted so far.
    pub fn report_count(&self) -> (r: usize)
        ensures
            r == self.reports().len(),
    {
        self.events.len()
    }

    /// The report at position `i`.
    pub fn report(&self, i: usize) -> (r: &IndexingProgress)
        requires
            i < self.reports().len(),
        ensures
            *r == self.reports()[i as int],
    {
        &self.events[i]
    }
}

/// Runs the phases after scanning over the discovered `candidates`: writes
/// them one by one, keeping the identifier of a stored path and giving a new
/// path one that no record holds, reports after every `batch_size` files and
/// after the last, passes the content-extraction boundary, commits the
/// full-text index and completes. The last report counts every candidate as
/// done and says the run is over. Returns the records written, in order.
pub fn run_indexing(
    db: &mut Database,
    run: &mut IndexingRun,
    candidates: &Vec<FileFacts>,
    batch_size: usize,
    now: i64,
) -> (r: Vec<FileRecord>)
    requires
        old(db).wf(),
        old(run).wf(),
        old(run).phase() is Scanning,
        batch_size > 0,
    ensures
        final(db).wf(),
        final(run).wf(),
        final(run).phase() is Complete,
        final(run).total() == candidates@.len(),
        final(run).reports().last().processed_files == candidates@.len(),
        final(run).reports().last().total_files == candidates@.len(),
        !final(run).reports().last().is_running,
        final(run).reports().subrange(0, old(run).reports().len() as int) == old(run).reports(),
        r@.len() == candidates@.len(),
        forall|i: int| 0 <= i < r@.len() ==> record_from_facts((#[trigger] r@[i])@, candidates@[i], now),
        final(db).store() == upsert_all(old(db).store(), recs_view(r@)),
        writes_kept(old(db).store(), final(db).store(), recs_view(r@)),
        final(db).searchable_docs() == final(db).pending_docs(),
{
    let n = candidates.len();
    let ghost r0 = run.reports();
    run.scanned(n as u64);
    let ghost s0 = db.store();
    proof {
        db.lemma_store_wf();
        lemma_writes_start(s0);
    }
    let mut written: Vec<FileRecord> = Vec::new();
    let mut i: usize = 0;
    assert(recs_view(written@) =~= Seq::<RecordView>::empty());
    while i < n
        invariant
            db.wf(),
            run.wf(),
            run.phase() is Indexing,
            run.total() == n,
            run.reports().len() > r0.len(),
            run.reports().subrange(0, r0.len() as int) == r0,
            batch_size > 0,
            n == candidates@.len(),
            i <= n,
            written@.len() == i,
            forall|k: int| 0 <= k < i ==> record_from_facts((#[trigger] written@[k])@, candidates@[k], now),
            db.store() == upsert_all(s0, recs_view(written@)),
            writes_kept(s0, db.store(), recs_view(written@)),
        decreases n - i,
    {
        let rec = write_one(db, &candidates[i], now, Ghost(s0), Ghost(recs_view(written@)));
        let ghost before = written@;
        written.push(rec);
        assert(recs_view(written@) =~= recs_view(before).push(rec@));
        assert(recs_view(written@).drop_last() =~= recs_view(before));
        i = i + 1;
        if i % batch_size == 0 || i == n {
            let ghost rb = run.reports();
            run.batch_done(i as u64, clock_millis());
            assert(run.reports().subrange(0, r0.len() as int) =~= rb.subrange(0, r0.len() as int));
        }
    }
    let ghost rc = run.reports();
    run.extract_content(n as u64);
    run.finalize(n as u64);
    db.commit();
    run.complete(n as u64, clock_millis());
    proof {
        let rf = run.reports();
        assert(rf.subrange(0, r0.len() as int) =~= rc.subrange(0, r0.len() as int));
    }
    written
}

/// The roots of the runs in flight and of the runs completed. A run is
/// refused while another one over an overlapping root is in flight.
pub struct RunRegistry {
    active: Vec<String>,
    indexed: Vec<String>,
}

/// One of the two paths is a prefix of the other.
pub open spec fn overlaps(a: Seq<char>, b: Seq<char>) -> bool {
    crate::text::starts_with_spec(a, b) || crate::text::starts_with_spec(b, a)
}

impl RunRegistry {
    pub closed spec fn active_roots(&self) -> Seq<Seq<char>> {
        self.active@.map_values(|s: String| s@)
    }

    pub closed spec fn indexed_roots(&self) -> Seq<Seq<char>> {
        self.indexed@.map_values(|s: String| s@)
    }

    /// No run in flight and no root indexed yet.
    pub fn new() -> (r: RunRegistry)
        ensures
            r.active_roots().len() == 0,
            r.indexed_roots().len() == 0,
    {
        let r = RunRegistry { active: Vec::new(), indexed: Vec::new() };
        assert(r.active_roots() =~= Seq::<Seq<char>>::empty());
        assert(r.indexed_roots() =~= Seq::<Seq<char>>::empty());
        r
    }

    /// Claims `roots` for a new run. Refused, with nothing changed, when one
    /// of them overlaps a root of a run in flight; otherwise the roots join
    /// the runs in flight.
    pub fn try_begin(&mut self, roots: &Vec<String>) -> (r: bool)
        ensures
            r == !exists|i: int, j: int|
                0 <= i < roots@.len() && 0 <= j < old(self).active_roots().len() && overlaps(
                    (#[trigger] roots@[i])@,
                    #[trigger] old(self).active_roots()[j],
                ),
            r ==> final(self).active_roots() == old(self).active_roots() + roots@.map_values(
                |s: String| s@,
            ),
            !r ==> final(self).active_roots() == old(self).active_roots(),
            final(self).indexed_roots() == old(self).indexed_roots(),
    {
        let ghost act = self.active_roots();
        let mut i: usize = 0;
        while i < roots.len()
            invariant
                i <= roots@.len(),
                act == self.active_roots(),
                forall|a: int, b: int|
                    0 <= a < i && 0 <= b < act.len() ==> !overlaps((#[trigger] roots@[a])@, #[trigger] act[b]),
            decreases roots@.len() - i,
        {
            let mut j: usize = 0;
            while j < self.active.len()
                invariant
                    i < roots@.len(),
                    j <= self.active@.len() == act.len(),
                    act == self.active_roots(),
                    forall|b: int| 0 <= b < j ==> !overlaps(roots@[i as int]@, #[trigger] act[b]),
                decreases self.active@.len() - j,
            {
                if crate::text::starts_with(roots[i].as_str(), self.active[j].as_str())
                    || crate::text::starts_with(self.active[j].as_str(), roots[i].as_str()) {
                    assert(act[j as int] == self.active@[j as int]@);
                    assert(overlaps(roots@[i as int]@, act[j as int]));
                    return false;
                }
                assert(act[j as int] == self.active@[j as int]@);
                j = j + 1;
            }
            i = i + 1;
        }
        let mut k: usize = 0;
        let ghost a0 = self.active@;
        while k < roots.len()
            invariant
                k <= roots@.len(),
                self.indexed@ == old(self).indexed@,
                self.active@.map_values(|s: String| s@) == act + roots@.take(k as int).map_values(|s: String| s@),
            decreases roots@.len() - k,
        {
            let ghost before = self.active@;
            self.active.push(roots[k].clone());
            assert(self.active@.map_values(|s: String| s@) =~= before.map_values(|s: String| s@).push(roots@[k as int]@));
            assert(roots@.take(k + 1).map_values(|s: String| s@) =~= roots@.take(k as int).map_values(|s: String| s@).push(roots@[k as int]@));
            assert(act + roots@.take(k + 1).map_values(|s: String| s@) =~= (act + roots@.take(k as int).map_values(|s: String| s@)).push(roots@[k as int]@));
            k = k + 1;
        }
        assert(roots@.take(roots@.len() as int) =~= roots@);
        true
    }

    /// Ends the run over `roots`: they leave the runs in flight and are
    /// recorded as indexed.
    pub fn finish(&mut self, roots: &Vec<String>)
        ensures
            forall|i: int| 0 <= i < roots@.len() ==> final(self).indexed_roots().contains(#[trigger] roots@[i]@),
            forall|j: int|
                0 <= j < final(self).active_roots().len() ==> old(self).active_roots().contains(
                    #[trigger] final(self).active_roots()[j],
                ) && !roots@.map_values(|s: String| s@).contains(final(self).active_roots()[j]),
            forall|a: Seq<char>|
                #[trigger] old(self).active_roots().contains(a) && !roots@.map_values(|s: String| s@).contains(a)
                    ==> final(self).active_roots().contains(a),
            final(self).indexed_roots().len() == old(self).indexed_roots().len() + roots@.len(),
            final(self).indexed_roots().subrange(0, old(self).indexed_roots().len() as int) == old(self).indexed_roots(),
    {
        let mut kept: Vec<String> = Vec::new();
        let mut j: usize = 0;
        let ghost act = self.active_roots();
        let ghost rv = roots@.map_values(|s: String| s@);
        while j < self.active.len()
            invariant
                j <= self.active@.len() == act.len(),
                act == self.active@.map_values(|s: String| s@),
                rv == roots@.map_values(|s: String| s@),
                forall|m: int|
                    0 <= m < kept@.len() ==> act.contains(#[trigger] kept@[m]@) && !rv.contains(kept@[m]@),
                forall|m: int|
                    0 <= m < j && !rv.contains(#[trigger] act[m]) ==> kept@.map_values(|s: String| s@).contains(act[m]),
            decreases self.active@.len() - j,
        {
            let mut listed = false;
            let mut i: usize = 0;
            while i < roots.len()
                invariant
                    i <= roots@.len(),
                    j < self.active@.len(),
                    rv == roots@.map_values(|s: String| s@),
                    listed == exists|a: int| 0 <= a < i && roots@[a]@ == self.active@[j as int]@,
                decreases roots@.len() - i,
            {
                if roots[i] == self.active[j] {
                    listed = true;
                }
                i = i + 1;
            }
            if !listed {
                let ghost before = kept@;
                kept.push(self.active[j].clone());
                proof {
                    assert(act[j as int] == self.active@[j as int]@);
                    if rv.contains(self.active@[j as int]@) {
                        let a = choose|a: int| 0 <= a < rv.len() && rv[a] == self.active@[j as int]@;
                        assert(roots@[a]@ == rv[a]);
                    }
                    assert forall|m: int| 0 <= m < kept@.len() implies act.contains(#[trigger] kept@[m]@)
                        && !rv.contains(kept@[m]@) by {
                        if m < before.len() {
                            assert(kept@[m] == before[m]);
                        }
                    }
                    let kv = kept@.map_values(|s: String| s@);
                    let bv = before.map_values(|s: String| s@);
                    assert(kv[kv.len() - 1] == act[j as int]);
                    assert forall|m: int| 0 <= m <= j && !rv.contains(#[trigger] act[m]) implies kv.contains(act[m]) by {
                        if m < j {
                            let q = choose|q: int| 0 <= q < bv.len() && bv[q] == act[m];
                            assert(kv[q] == bv[q]);
                        }
                    }
                }
            } else {
                proof {
                    let a = choose|a: int| 0 <= a < i && roots@[a]@ == self.active@[j as int]@;
                    assert(rv[a] == act[j as int]);
                }
            }
            j = j + 1;
        }
        proof {
            assert forall|a: Seq<char>| #[trigger] act.contains(a) && !rv.contains(a) implies kept@.map_values(
                |s: String| s@,
            ).contains(a) by {
                let m = choose|m: int| 0 <= m < act.len() && act[m] == a;
            }
        }
        self.active = kept;
        let ghost ind0 = self.indexed@.map_values(|s: String| s@);
        let mut i: usize = 0;
        while i < roots.len()
            invariant
                i <= roots@.len(),
                self.active@ == kept@,
                self.indexed@.map_values(|s: String| s@).len() == ind0.len() + i,
                self.indexed@.map_values(|s: String| s@).subrange(0, ind0.len() as int) == ind0,
                forall|a: int| 0 <= a < i ==> self.indexed@.map_values(|s: String| s@).contains(#[trigger] roots@[a]@),
            decreases roots@.len() - i,
        {
            let ghost before = self.indexed@;
            self.indexed.push(roots[i].clone());
            proof {
                let iv = self.indexed@.map_values(|s: String| s@);
                assert(iv[iv.len() - 1] == roots@[i as int]@);
                let bv = before.map_values(|s: String| s@);
                assert forall|a: int| 0 <= a <= i implies iv.contains(#[trigger] roots@[a]@) by {
                    if a < i {
                        let m = choose|m: int| 0 <= m < bv.len() && bv[m] == roots@[a]@;
                        assert(iv[m] == bv[m]);
                    }
                }
                assert(iv.subrange(0, ind0.len() as int) =~= bv.subrange(0, ind0.len() as int));
            }
            i = i + 1;
        }
    }

    /// Whether `path` is a root of a completed run.
    pub fn is_path_indexed(&self, path: &str) -> (r: bool)
        ensures
            r == self.indexed_roots().contains(path@),
    {
        let p = path.to_owned();
        let mut i: usize = 0;
        while i < self.indexed.len()
            invariant
                i <= self.indexed@.len(),
                p@ == path@,
                forall|a: int| 0 <= a < i ==> self.indexed@[a]@ != path@,
            decreases self.indexed@.len() - i,
        {
            if self.indexed[i] == p {
                assert(self.indexed_roots()[i as int] == path@);
                return true;
            }
            i = i + 1;
        }
        proof {
            if self.indexed_roots().contains(path@) {
                let m = choose|m: int| 0 <= m < self.indexed_roots().len() && self.indexed_roots()[m] == path@;
                assert(self.indexed@[m]@ == path@);
            }
        }
        false
    }
}

} // verus!
