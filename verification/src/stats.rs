use vstd::prelude::*;
use crate::error::ChumError;
use crate::worker::{Operation, WorkerInfo, WorkerStat};
use crate::render::{fmt_relative_line, fmt_absolute_line, fmt_tabular_line, fmt_worker_header,
    relative_line, absolute_line, tabular_line, worker_header};

verus! {

/// The optional admission-control gate: stop after an absolute byte
/// budget is written, or when the target filesystem reaches a fill
/// percentage. Where configuration requests both, the absolute form wins
/// as the more specific constraint.
#[derive(Clone, Copy, Debug, PartialEq, Eq, Structural)]
pub enum DataCap {
    /// Stop once this many bytes have been written in total.
    AbsoluteBytes(u64),
    /// Stop once the target filesystem is this full, in percent.
    Percentage(u64),
}

/// Whether a configured cap has been crossed, given the cumulative bytes
/// written and, for percentage caps, the externally probed fill level.
pub open spec fn cap_crossed(cap: Option<DataCap>, bytes_written: int, fill_percent: Option<u64>) -> bool {
    match cap {
        Option::None => false,
        Option::Some(DataCap::AbsoluteBytes(n)) => bytes_written >= n,
        Option::Some(DataCap::Percentage(p)) => fill_percent matches Some(f) && f >= p,
    }
}

pub fn cap_reached(cap: &Option<DataCap>, bytes_written: u128, fill_percent: Option<u64>) -> (r:
    bool)
    ensures
        r == cap_crossed(*cap, bytes_written as int, fill_percent),
{
    match cap {
        Option::None => false,
        Option::Some(DataCap::AbsoluteBytes(n)) => bytes_written >= *n as u128,
        Option::Some(DataCap::Percentage(p)) => match fill_percent {
            Option::Some(f) => f >= *p,
            Option::None => false,
        },
    }
}

/// Pick the active cap from the configuration: where both an absolute
/// byte budget and a fill percentage are requested, the absolute form
/// wins as the more specific constraint.
pub fn choose_cap(percentage: Option<u64>, absolute_bytes: Option<u64>) -> (r: Option<DataCap>)
    ensures
        absolute_bytes matches Some(n) ==> r == Some(DataCap::AbsoluteBytes(n)),
        absolute_bytes is None ==> (percentage matches Some(p) ==> r == Some(
            DataCap::Percentage(p),
        )),
        absolute_bytes is None && percentage is None ==> r is None,
{
    match absolute_bytes {
        Option::Some(n) => Some(DataCap::AbsoluteBytes(n)),
        Option::None => match percentage {
            Option::Some(p) => Some(DataCap::Percentage(p)),
            Option::None => None,
        },
    }
}

/// The statistics output modes.
#[derive(Clone, Copy, Debug, PartialEq, Eq, Structural)]
pub enum OutputFormat {
    /// Per-tick aggregate only.
    Human,
    /// Aggregate plus the per-worker breakdown.
    HumanVerbose,
    /// Fixed-column rows for downstream parsing.
    Tabular,
}

pub open spec fn spec_output_format(s: Seq<char>) -> Option<OutputFormat> {
    if s.len() == 1 && s[0] == 'h' {
        Some(OutputFormat::Human)
    } else if s.len() == 1 && s[0] == 'v' {
        Some(OutputFormat::HumanVerbose)
    } else if s.len() == 1 && s[0] == 't' {
        Some(OutputFormat::Tabular)
    } else {
        None
    }
}

/// The output mode a one-letter format code stands for.
pub fn output_format_of(s: &str) -> (r: Option<OutputFormat>)
    ensures
        r == spec_output_format(s@),
{
    if s.unicode_len() != 1 {
        return None;
    }
    match s.get_char(0) {
        'h' => Some(OutputFormat::Human),
        'v' => Some(OutputFormat::HumanVerbose),
        't' => Some(OutputFormat::Tabular),
        _ => None,
    }
}

/// The record an outcome aggregates as: a success carries itself; a
/// failure counts as one error-kind event without size, latency or
/// worker identity.
pub open spec fn record_view(r: Result<WorkerInfo, ChumError>) -> WorkerInfo {
    match r {
        Result::Ok(w) => w,
        Result::Err(_) => WorkerInfo { id: 0, op: Operation::Error, size: 0, ttfb: 0, rtt: 0 },
    }
}

pub open spec fn record_views(s: Seq<Result<WorkerInfo, ChumError>>) -> Seq<WorkerInfo>
    decreases s.len(),
{
    if s.len() == 0 {
        Seq::empty()
    } else {
        record_views(s.drop_last()).push(record_view(s.last()))
    }
}

/// Whether a record falls under the given worker filter and kind.
pub open spec fn rec_matches(w: WorkerInfo, fid: Option<u64>, op: Operation) -> bool {
    w.op == op && (fid matches Some(id) ==> w.id == id)
}

pub open spec fn count_f(s: Seq<WorkerInfo>, fid: Option<u64>, op: Operation) -> int
    decreases s.len(),
{
    if s.len() == 0 {
        0
    } else {
        count_f(s.drop_last(), fid, op) + if rec_matches(s.last(), fid, op) {
            1int
        } else {
            0int
        }
    }
}

pub open spec fn size_f(s: Seq<WorkerInfo>, fid: Option<u64>, op: Operation) -> int
    decreases s.len(),
{
    if s.len() == 0 {
        0
    } else {
        size_f(s.drop_last(), fid, op) + if rec_matches(s.last(), fid, op) {
            s.last().size as int
        } else {
            0int
        }
    }
}

pub open spec fn ttfb_f(s: Seq<WorkerInfo>, fid: Option<u64>, op: Operation) -> int
    decreases s.len(),
{
    if s.len() == 0 {
        0
    } else {
        ttfb_f(s.drop_last(), fid, op) + if rec_matches(s.last(), fid, op) {
            s.last().ttfb as int
        } else {
            0int
        }
    }
}

pub open spec fn rtt_f(s: Seq<WorkerInfo>, fid: Option<u64>, op: Operation) -> int
    decreases s.len(),
{
    if s.len() == 0 {
        0
    } else {
        rtt_f(s.drop_last(), fid, op) + if rec_matches(s.last(), fid, op) {
            s.last().rtt as int
        } else {
            0int
        }
    }
}

/// `st` is exactly the aggregate of the records of kind `op` under the
/// worker filter `fid`.
pub open spec fn stat_is_fold(
    st: WorkerStat,
    s: Seq<WorkerInfo>,
    fid: Option<u64>,
    op: Operation,
) -> bool {
    &&& st.objs == count_f(s, fid, op)
    &&& st.data == size_f(s, fid, op)
    &&& st.ttfb == ttfb_f(s, fid, op)
    &&& st.rtt == rtt_f(s, fid, op)
}

/// One aggregate per operation kind.
#[derive(Clone, Copy, Debug, PartialEq, Eq, Structural)]
pub struct KindStats {
    pub read: WorkerStat,
    pub write: WorkerStat,
    pub delete: WorkerStat,
    pub error: WorkerStat,
}

pub open spec fn stat_for(ks: KindStats, op: Operation) -> WorkerStat {
    match op {
        Operation::Read => ks.read,
        Operation::Write => ks.write,
        Operation::Delete => ks.delete,
        Operation::Error => ks.error,
    }
}

/// Every kind of `ks` is exactly the aggregate of its records under the
/// worker filter `fid`.
pub open spec fn kinds_are_fold(ks: KindStats, s: Seq<WorkerInfo>, fid: Option<u64>) -> bool {
    &&& stat_is_fold(ks.read, s, fid, Operation::Read)
    &&& stat_is_fold(ks.write, s, fid, Operation::Write)
    &&& stat_is_fold(ks.delete, s, fid, Operation::Delete)
    &&& stat_is_fold(ks.error, s, fid, Operation::Error)
}

impl KindStats {
    pub open spec fn wf(&self) -> bool {
        self.read.wf() && self.write.wf() && self.delete.wf() && self.error.wf()
    }

    pub fn new() -> (ks: KindStats)
        ensures
            forall|fid: Option<u64>| kinds_are_fold(ks, Seq::empty(), fid),
            ks.wf(),
            ks.read.objs == 0 && ks.write.objs == 0 && ks.delete.objs == 0 && ks.error.objs == 0,
            ks.read.data == 0 && ks.write.data == 0 && ks.delete.data == 0 && ks.error.data == 0,
    {
        KindStats {
            read: WorkerStat::new(),
            write: WorkerStat::new(),
            delete: WorkerStat::new(),
            error: WorkerStat::new(),
        }
    }

    /// Fold one record into the aggregate of its kind; the other kinds
    /// are untouched.
    pub fn add(&mut self, w: &WorkerInfo)
        requires
            old(self).wf(),
            stat_for(*old(self), w.op).objs < u64::MAX,
        ensures
            final(self).wf(),
            stat_for(*final(self), w.op).objs == stat_for(*old(self), w.op).objs + 1,
            stat_for(*final(self), w.op).data == stat_for(*old(self), w.op).data + w.size,
            stat_for(*final(self), w.op).ttfb == stat_for(*old(self), w.op).ttfb + w.ttfb,
            stat_for(*final(self), w.op).rtt == stat_for(*old(self), w.op).rtt + w.rtt,
            forall|op2: Operation| op2 != w.op ==> stat_for(*final(self), op2) == stat_for(
                *old(self),
                op2,
            ),
    {
        match w.op {
            Operation::Read => self.read.add_result(w),
            Operation::Write => self.write.add_result(w),
            Operation::Delete => self.delete.add_result(w),
            Operation::Error => self.error.add_result(w),
        }
    }
}

/// One worker's share of a tick, for the verbose breakdown.
pub struct WorkerTick {
    pub id: u64,
    pub stats: KindStats,
}

/// Everything one reporting interval aggregates: the per-kind totals of
/// the drained batch, and the same split per worker.
pub struct TickData {
    pub totals: KindStats,
    pub per_worker: Vec<WorkerTick>,
}

/// Folding one more record extends each filtered sum by exactly that
/// record's contribution, or not at all where the record falls outside
/// the filter.
proof fn lemma_sums_push(s: Seq<WorkerInfo>, w: WorkerInfo, fid: Option<u64>, op: Operation)
    ensures
        count_f(s.push(w), fid, op) == count_f(s, fid, op) + if rec_matches(w, fid, op) {
            1int
        } else {
            0int
        },
        size_f(s.push(w), fid, op) == size_f(s, fid, op) + if rec_matches(w, fid, op) {
            w.size as int
        } else {
            0int
        },
        ttfb_f(s.push(w), fid, op) == ttfb_f(s, fid, op) + if rec_matches(w, fid, op) {
            w.ttfb as int
        } else {
            0int
        },
        rtt_f(s.push(w), fid, op) == rtt_f(s, fid, op) + if rec_matches(w, fid, op) {
            w.rtt as int
        } else {
            0int
        },
{
    assert(s.push(w).drop_last() =~= s);
    assert(s.push(w).last() == w);
}

proof fn lemma_count_le_len(s: Seq<WorkerInfo>, fid: Option<u64>, op: Operation)
    ensures
        0 <= count_f(s, fid, op) <= s.len(),
    decreases s.len(),
{
    if s.len() > 0 {
        lemma_count_le_len(s.drop_last(), fid, op);
    }
}

/// Extending the records by one that falls outside a worker's filter
/// leaves that worker's aggregate a fold of the extended records.
proof fn lemma_fold_push_other(ks: KindStats, s: Seq<WorkerInfo>, id: u64, w: WorkerInfo)
    requires
        kinds_are_fold(ks, s, Some(id)),
        w.id != id,
    ensures
        kinds_are_fold(ks, s.push(w), Some(id)),
{
    lemma_sums_push(s, w, Some(id), Operation::Read);
    lemma_sums_push(s, w, Some(id), Operation::Write);
    lemma_sums_push(s, w, Some(id), Operation::Delete);
    lemma_sums_push(s, w, Some(id), Operation::Error);
}

/// Folding one record of this worker into its aggregate keeps the
/// aggregate a fold of the extended records.
proof fn lemma_fold_push_own(old_ks: KindStats, new_ks: KindStats, s: Seq<WorkerInfo>, fid: Option<
    u64,
>, w: WorkerInfo)
    requires
        kinds_are_fold(old_ks, s, fid),
        fid matches Some(id) ==> id == w.id,
        stat_for(new_ks, w.op).objs == stat_for(old_ks, w.op).objs + 1,
        stat_for(new_ks, w.op).data == stat_for(old_ks, w.op).data + w.size,
        stat_for(new_ks, w.op).ttfb == stat_for(old_ks, w.op).ttfb + w.ttfb,
        stat_for(new_ks, w.op).rtt == stat_for(old_ks, w.op).rtt + w.rtt,
        forall|op2: Operation| op2 != w.op ==> stat_for(new_ks, op2) == stat_for(old_ks, op2),
    ensures
        kinds_are_fold(new_ks, s.push(w), fid),
{
    lemma_sums_push(s, w, fid, Operation::Read);
    lemma_sums_push(s, w, fid, Operation::Write);
    lemma_sums_push(s, w, fid, Operation::Delete);
    lemma_sums_push(s, w, fid, Operation::Error);
    assert(stat_for(new_ks, Operation::Read) == new_ks.read);
    assert(stat_for(new_ks, Operation::Write) == new_ks.write);
    assert(stat_for(new_ks, Operation::Delete) == new_ks.delete);
    assert(stat_for(new_ks, Operation::Error) == new_ks.error);
}

/// Records none of which carry the worker identity `id` contribute
/// nothing under that worker's filter.
proof fn lemma_no_match_zero(s: Seq<WorkerInfo>, id: u64, op: Operation)
    requires
        forall|k: int| 0 <= k < s.len() ==> (#[trigger] s[k]).id != id,
    ensures
        count_f(s, Some(id), op) == 0,
        size_f(s, Some(id), op) == 0,
        ttfb_f(s, Some(id), op) == 0,
        rtt_f(s, Some(id), op) == 0,
    decreases s.len(),
{
    if s.len() > 0 {
        lemma_no_match_zero(s.drop_last(), id, op);
    }
}

/// The per-worker breakdown of a batch: worker identities are unique,
/// each entry aggregates exactly the batch's records that carry its
/// identity, and every record's identity has its entry.
pub open spec fn per_worker_folds(entries: Seq<WorkerTick>, recs: Seq<WorkerInfo>) -> bool {
    &&& forall|j1: int, j2: int|
        0 <= j1 < j2 < entries.len() ==> entries[j1].id != entries[j2].id
    &&& forall|j: int| 0 <= j < entries.len() ==> (#[trigger] entries[j]).stats.wf()
    &&& forall|j: int| 0 <= j < entries.len() ==> kinds_are_fold(
        (#[trigger] entries[j]).stats,
        recs,
        Some(entries[j].id),
    )
    &&& forall|k: int| 0 <= k < recs.len() ==> exists|j: int|
        0 <= j < entries.len() && (#[trigger] entries[j]).id == (#[trigger] recs[k]).id
}

/// Fold one record into its worker's entry of the breakdown, adding the
/// entry where the identity is new.
fn fold_worker_entry(per_worker: &mut Vec<WorkerTick>, w: &WorkerInfo, Ghost(prefix): Ghost<
    Seq<WorkerInfo>,
>)
    requires
        per_worker_folds(old(per_worker)@, prefix),
        prefix.len() < u64::MAX,
    ensures
        per_worker_folds(final(per_worker)@, prefix.push(*w)),
{
    let ghost now = prefix.push(*w);
    let mut j: usize = 0;
    let mut found = false;
    while j < per_worker.len() && !found
        invariant
            j <= per_worker@.len(),
            !found ==> forall|q: int| 0 <= q < j ==> (#[trigger] per_worker@[q]).id != w.id,
            found ==> j < per_worker@.len() && per_worker@[j as int].id == w.id,
            per_worker@ == old(per_worker)@,
        decreases per_worker@.len() - j + if found {
            0int
        } else {
            1int
        },
    {
        if per_worker[j].id == w.id {
            found = true;
        } else {
            j += 1;
        }
    }
    let ghost entries_before = per_worker@;
    if found {
        proof {
            lemma_count_le_len(prefix, Some(entries_before[j as int].id), w.op);
        }
        let mut entry = per_worker.remove(j);
        let ghost old_stats = entry.stats;
        entry.stats.add(w);
        let ghost new_entry = entry;
        per_worker.insert(j, entry);
        proof {
            assert(per_worker@ =~= entries_before.update(j as int, new_entry));
            lemma_fold_push_own(old_stats, new_entry.stats, prefix, Some(w.id), *w);
            assert forall|q: int|
                0 <= q < per_worker@.len() && q != j implies kinds_are_fold(
                (#[trigger] per_worker@[q]).stats,
                now,
                Some(per_worker@[q].id),
            ) by {
                assert(per_worker@[q] == entries_before[q]);
                if q < j {
                    assert(entries_before[q].id != entries_before[j as int].id);
                } else {
                    assert(entries_before[j as int].id != entries_before[q].id);
                }
                lemma_fold_push_other(entries_before[q].stats, prefix, entries_before[q].id, *w);
            }
            assert forall|k: int| 0 <= k < now.len() implies exists|jj: int|
                0 <= jj < per_worker@.len() && (#[trigger] per_worker@[jj]).id == (
                #[trigger] now[k]).id by {
                if k < prefix.len() {
                    let jj = choose|jj: int|
                        0 <= jj < entries_before.len() && (#[trigger] entries_before[jj]).id
                            == prefix[k].id;
                    assert(per_worker@[jj].id == entries_before[jj].id);
                } else {
                    assert(per_worker@[j as int].id == now[k].id);
                }
            }
        }
    } else {
        proof {
            assert(forall|q: int| 0 <= q < entries_before.len() ==> (
            #[trigger] entries_before[q]).id != w.id);
        }
        let mut stats = KindStats::new();
        let ghost zero_before = stats;
        stats.add(w);
        per_worker.push(WorkerTick { id: w.id, stats });
        proof {
            let last = per_worker@.len() - 1;
            assert(per_worker@ =~= entries_before.push(per_worker@[last]));
            // An identity with no entry has, by coverage, no records yet.
            assert forall|k: int| 0 <= k < prefix.len() implies (#[trigger] prefix[k]).id
                != w.id by {
                let jj = choose|jj: int|
                    0 <= jj < entries_before.len() && (#[trigger] entries_before[jj]).id
                        == prefix[k].id;
            }
            lemma_no_match_zero(prefix, w.id, Operation::Read);
            lemma_no_match_zero(prefix, w.id, Operation::Write);
            lemma_no_match_zero(prefix, w.id, Operation::Delete);
            lemma_no_match_zero(prefix, w.id, Operation::Error);
            lemma_fold_push_own(zero_before, per_worker@[last].stats, prefix, Some(w.id), *w);
            assert forall|q: int| 0 <= q < last implies kinds_are_fold(
                (#[trigger] per_worker@[q]).stats,
                now,
                Some(per_worker@[q].id),
            ) by {
                assert(per_worker@[q] == entries_before[q]);
                lemma_fold_push_other(entries_before[q].stats, prefix, entries_before[q].id, *w);
            }
            assert forall|k: int| 0 <= k < now.len() implies exists|jj: int|
                0 <= jj < per_worker@.len() && (#[trigger] per_worker@[jj]).id == (
                #[trigger] now[k]).id by {
                if k < prefix.len() {
                    let jj = choose|jj: int|
                        0 <= jj < entries_before.len() && (#[trigger] entries_before[jj]).id
                            == prefix[k].id;
                    assert(per_worker@[jj].id == entries_before[jj].id);
                } else {
                    assert(per_worker@[last].id == now[k].id);
                }
            }
        }
    }
}


/// The single consumer of the workers' outcome stream: it folds each
/// drained batch into per-tick and cumulative aggregates and evaluates
/// the optional data cap against the cumulative bytes written.
pub struct Collector {
    pub cumulative: KindStats,
}

impl Collector {
    pub open spec fn wf(&self) -> bool {
        self.cumulative.wf()
    }

    pub fn new() -> (c: Collector)
        ensures
            c.wf(),
            forall|fid: Option<u64>| kinds_are_fold(c.cumulative, Seq::empty(), fid),
    {
        Collector { cumulative: KindStats::new() }
    }

    /// Fold one drained batch: the returned tick data aggregates exactly
    /// this batch, per kind and per worker, and the cumulative aggregate
    /// grows by exactly the batch's contribution to each kind.
    #[verifier::rlimit(100)]
    pub fn process_tick(&mut self, records: &Vec<Result<WorkerInfo, ChumError>>) -> (t: TickData)
        requires
            old(self).wf(),
            stat_for(old(self).cumulative, Operation::Read).objs + records@.len() <= u64::MAX,
            stat_for(old(self).cumulative, Operation::Write).objs + records@.len() <= u64::MAX,
            stat_for(old(self).cumulative, Operation::Delete).objs + records@.len() <= u64::MAX,
            stat_for(old(self).cumulative, Operation::Error).objs + records@.len() <= u64::MAX,
        ensures
            final(self).wf(),
            kinds_are_fold(t.totals, record_views(records@), None),
            forall|op: Operation|
                {
                    &&& (#[trigger] stat_for(final(self).cumulative, op)).objs == stat_for(
                        old(self).cumulative,
                        op,
                    ).objs + count_f(record_views(records@), None, op)
                    &&& stat_for(final(self).cumulative, op).data == stat_for(
                        old(self).cumulative,
                        op,
                    ).data + size_f(record_views(records@), None, op)
                    &&& stat_for(final(self).cumulative, op).ttfb == stat_for(
                        old(self).cumulative,
                        op,
                    ).ttfb + ttfb_f(record_views(records@), None, op)
                    &&& stat_for(final(self).cumulative, op).rtt == stat_for(
                        old(self).cumulative,
                        op,
                    ).rtt + rtt_f(record_views(records@), None, op)
                },
            per_worker_folds(t.per_worker@, record_views(records@)),
    {
        let ghost all = record_views(records@);
        let mut totals = KindStats::new();
        let mut per_worker: Vec<WorkerTick> = Vec::new();
        let mut i: usize = 0;
        proof {
            assert(record_views(records@.take(0)) =~= Seq::<WorkerInfo>::empty());
        }
        while i < records.len()
            invariant
                i <= records@.len(),
                self.wf(),
                totals.wf(),
                stat_for(old(self).cumulative, Operation::Read).objs + records@.len()
                    <= u64::MAX,
                stat_for(old(self).cumulative, Operation::Write).objs + records@.len()
                    <= u64::MAX,
                stat_for(old(self).cumulative, Operation::Delete).objs + records@.len()
                    <= u64::MAX,
                stat_for(old(self).cumulative, Operation::Error).objs + records@.len()
                    <= u64::MAX,
                record_views(records@.take(i as int)).len() == i,
                kinds_are_fold(totals, record_views(records@.take(i as int)), None),
                forall|op: Operation|
                    {
                        &&& (#[trigger] stat_for(self.cumulative, op)).objs == stat_for(
                            old(self).cumulative,
                            op,
                        ).objs + count_f(record_views(records@.take(i as int)), None, op)
                        &&& stat_for(self.cumulative, op).data == stat_for(
                            old(self).cumulative,
                            op,
                        ).data + size_f(record_views(records@.take(i as int)), None, op)
                        &&& stat_for(self.cumulative, op).ttfb == stat_for(
                            old(self).cumulative,
                            op,
                        ).ttfb + ttfb_f(record_views(records@.take(i as int)), None, op)
                        &&& stat_for(self.cumulative, op).rtt == stat_for(
                            old(self).cumulative,
                            op,
                        ).rtt + rtt_f(record_views(records@.take(i as int)), None, op)
                    },
                per_worker_folds(per_worker@, record_views(records@.take(i as int))),
            decreases records@.len() - i,
        {
            let ghost prefix = record_views(records@.take(i as int));
            let w: WorkerInfo = match &records[i] {
                Result::Ok(w) => *w,
                Result::Err(_) => WorkerInfo {
                    id: 0,
                    op: Operation::Error,
                    size: 0,
                    ttfb: 0,
                    rtt: 0,
                },
            };
            proof {
                assert(records@.take(i + 1).drop_last() =~= records@.take(i as int));
                assert(records@.take(i + 1).last() == records@[i as int]);
                assert(record_views(records@.take(i + 1)) == prefix.push(
                    record_view(records@[i as int]),
                ));
                assert(w == record_view(records@[i as int]));
                assert(prefix.push(w).drop_last() =~= prefix);
                assert(prefix.push(w).last() == w);
                lemma_count_le_len(prefix, None, w.op);
                lemma_sums_push(prefix, w, None, Operation::Read);
                lemma_sums_push(prefix, w, None, Operation::Write);
                lemma_sums_push(prefix, w, None, Operation::Delete);
                lemma_sums_push(prefix, w, None, Operation::Error);
            }
            let ghost totals_before = totals;
            totals.add(&w);
            proof {
                lemma_fold_push_own(totals_before, totals, prefix, None, w);
            }
            self.cumulative.add(&w);
            fold_worker_entry(&mut per_worker, &w, Ghost(prefix));
            i += 1;
        }
        proof {
            assert(records@.take(records@.len() as int) =~= records@);
        }
        TickData { totals, per_worker }
    }

    /// Whether the run should stop: the configured cap, held against the
    /// cumulative bytes written and the probed fill level.
    pub fn should_stop(&self, cap: &Option<DataCap>, fill_percent: Option<u64>) -> (r: bool)
        ensures
            r == cap_crossed(*cap, self.cumulative.write.data as int, fill_percent),
    {
        cap_reached(cap, self.cumulative.write.data, fill_percent)
    }
}

/// One kind's rendered tick line: its averages, or the no-activity
/// marker where nothing happened.
pub open spec fn stat_line(st: WorkerStat) -> Seq<char> {
    if st.objs == 0 {
        "no activity"@
    } else {
        relative_line(
            st.objs,
            st.data / 1048576,
            st.ttfb / (st.objs as u128),
            st.rtt / (st.objs as u128),
        )
    }
}

/// The per-kind tick report, one labelled line per operation kind.
pub open spec fn kind_report(ks: KindStats) -> Seq<char> {
    "read: "@ + stat_line(ks.read) + "\n"@ + "write: "@ + stat_line(ks.write) + "\n"@
        + "delete: "@ + stat_line(ks.delete) + "\n"@ + "error: "@ + stat_line(ks.error) + "\n"@
}

/// The fixed-column tick report, one row per operation kind.
pub open spec fn tabular_report(ks: KindStats) -> Seq<char> {
    tabular_line("read"@, ks.read.objs, ks.read.data, ks.read.ttfb, ks.read.rtt) + "\n"@
        + tabular_line("write"@, ks.write.objs, ks.write.data, ks.write.ttfb, ks.write.rtt)
        + "\n"@ + tabular_line(
        "delete"@,
        ks.delete.objs,
        ks.delete.data,
        ks.delete.ttfb,
        ks.delete.rtt,
    ) + "\n"@ + tabular_line("error"@, ks.error.objs, ks.error.data, ks.error.ttfb, ks.error.rtt)
        + "\n"@
}

/// One kind's whole-run line: totals and average rates over `d` seconds.
pub open spec fn stat_line_abs(st: WorkerStat, d: u64) -> Seq<char> {
    absolute_line(st.objs, st.data / 1048576, d, st.objs / d, (st.data / (d as u128)) / 1048576)
}

/// The cumulative report against elapsed run time.
pub open spec fn absolute_report(ks: KindStats, d: u64) -> Seq<char> {
    "read: "@ + stat_line_abs(ks.read, d) + "\n"@ + "write: "@ + stat_line_abs(ks.write, d)
        + "\n"@ + "delete: "@ + stat_line_abs(ks.delete, d) + "\n"@ + "error: "@ + stat_line_abs(
        ks.error,
        d,
    ) + "\n"@
}

/// The verbose prefix: each worker's heading and its own per-kind lines.
pub open spec fn verbose_report(entries: Seq<WorkerTick>) -> Seq<char>
    decreases entries.len(),
{
    if entries.len() == 0 {
        Seq::empty()
    } else {
        verbose_report(entries.drop_last()) + worker_header(entries.last().id) + kind_report(
            entries.last().stats,
        )
    }
}

fn stat_line_exec(st: &WorkerStat) -> (r: String)
    ensures
        r@ == stat_line(*st),
{
    if st.objs == 0 {
        "no activity".to_owned()
    } else {
        fmt_relative_line(
            st.objs,
            st.data / 1048576,
            st.ttfb / (st.objs as u128),
            st.rtt / (st.objs as u128),
        )
    }
}

impl KindStats {
    /// Render the per-kind tick report.
    pub fn render_relative(&self) -> (r: String)
        ensures
            r@ == kind_report(*self),
    {
        let mut out = "read: ".to_owned();
        out.append(stat_line_exec(&self.read).as_str());
        out.append("\n");
        out.append("write: ");
        out.append(stat_line_exec(&self.write).as_str());
        out.append("\n");
        out.append("delete: ");
        out.append(stat_line_exec(&self.delete).as_str());
        out.append("\n");
        out.append("error: ");
        out.append(stat_line_exec(&self.error).as_str());
        out.append("\n");
        proof {
            assert(out@ =~= kind_report(*self));
        }
        out
    }

    /// Render the fixed-column tick report.
    pub fn render_tabular(&self) -> (r: String)
        ensures
            r@ == tabular_report(*self),
    {
        let mut out = fmt_tabular_line("read", self.read.objs, self.read.data, self.read.ttfb,
            self.read.rtt);
        out.append("\n");
        out.append(fmt_tabular_line("write", self.write.objs, self.write.data, self.write.ttfb,
            self.write.rtt).as_str());
        out.append("\n");
        out.append(fmt_tabular_line("delete", self.delete.objs, self.delete.data,
            self.delete.ttfb, self.delete.rtt).as_str());
        out.append("\n");
        out.append(fmt_tabular_line("error", self.error.objs, self.error.data, self.error.ttfb,
            self.error.rtt).as_str());
        out.append("\n");
        proof {
            assert(out@ =~= tabular_report(*self));
        }
        out
    }

    /// Render the cumulative report over `d` elapsed seconds.
    pub fn render_absolute(&self, d: u64) -> (r: String)
        requires
            d > 0,
        ensures
            r@ == absolute_report(*self, d),
    {
        let mut out = "read: ".to_owned();
        out.append(fmt_absolute_line(self.read.objs, self.read.data / 1048576, d,
            self.read.objs / d, (self.read.data / (d as u128)) / 1048576).as_str());
        out.append("\n");
        out.append("write: ");
        out.append(fmt_absolute_line(self.write.objs, self.write.data / 1048576, d,
            self.write.objs / d, (self.write.data / (d as u128)) / 1048576).as_str());
        out.append("\n");
        out.append("delete: ");
        out.append(fmt_absolute_line(self.delete.objs, self.delete.data / 1048576, d,
            self.delete.objs / d, (self.delete.data / (d as u128)) / 1048576).as_str());
        out.append("\n");
        out.append("error: ");
        out.append(fmt_absolute_line(self.error.objs, self.error.data / 1048576, d,
            self.error.objs / d, (self.error.data / (d as u128)) / 1048576).as_str());
        out.append("\n");
        proof {
            assert(out@ =~= absolute_report(*self, d));
        }
        out
    }
}

impl TickData {
    /// Render one tick in the selected output mode: the aggregate alone,
    /// the per-worker breakdown followed by the aggregate, or the
    /// fixed-column rows.
    pub fn render(&self, format: OutputFormat) -> (r: String)
        ensures
            format is Human ==> r@ == kind_report(self.totals),
            format is HumanVerbose ==> r@ == verbose_report(self.per_worker@) + kind_report(
                self.totals,
            ),
            format is Tabular ==> r@ == tabular_report(self.totals),
    {
        match format {
            OutputFormat::Human => self.totals.render_relative(),
            OutputFormat::Tabular => self.totals.render_tabular(),
            OutputFormat::HumanVerbose => {
                let mut out = String::new();
                let mut i: usize = 0;
                proof {
                    assert(self.per_worker@.take(0) =~= Seq::<WorkerTick>::empty());
                    assert(out@ =~= verbose_report(self.per_worker@.take(0)));
                }
                while i < self.per_worker.len()
                    invariant
                        i <= self.per_worker@.len(),
                        out@ == verbose_report(self.per_worker@.take(i as int)),
                    decreases self.per_worker@.len() - i,
                {
                    proof {
                        assert(self.per_worker@.take(i + 1).drop_last() =~= self.per_worker@.take(
                            i as int,
                        ));
                        assert(self.per_worker@.take(i + 1).last() == self.per_worker@[i as int]);
                    }
                    out.append(fmt_worker_header(self.per_worker[i].id).as_str());
                    out.append(self.per_worker[i].stats.render_relative().as_str());
                    i += 1;
                }
                proof {
                    assert(self.per_worker@.take(self.per_worker@.len() as int)
                        =~= self.per_worker@);
                }
                out.append(self.totals.render_relative().as_str());
                out
            },
        }
    }
}

} // verus!
