use vstd::prelude::*;
use crate::error::ChumError;
use crate::render::{fmt_relative_line, fmt_absolute_line, relative_line, absolute_line};
use crate::rng::random_index;

verus! {

/// The kind of one completed operation; `Error` marks a failed operation
/// so that failures stay visible in aggregate statistics without being
/// confused with successes of the intended kind.
#[derive(Clone, Copy, Debug, PartialEq, Eq, Hash, Structural)]
pub enum Operation {
    Read,
    Write,
    Delete,
    Error,
}

impl Operation {
    /// The kind's name, as the reports print it.
    pub fn name(&self) -> (r: &'static str)
        ensures
            self is Read ==> r@ == "read"@,
            self is Write ==> r@ == "write"@,
            self is Delete ==> r@ == "delete"@,
            self is Error ==> r@ == "error"@,
    {
        match self {
            Operation::Read => "read",
            Operation::Write => "write",
            Operation::Delete => "delete",
            Operation::Error => "error",
        }
    }
}

/// The record of one completed (non-skipped) operation, emitted by a
/// worker and consumed by the statistics collector.
#[derive(Clone, Copy, Debug, PartialEq, Eq, Structural)]
pub struct WorkerInfo {
    /// Identity of the executing worker.
    pub id: u64,
    pub op: Operation,
    /// Bytes moved.
    pub size: u64,
    /// Time to first byte, in milliseconds.
    pub ttfb: u64,
    /// Round-trip time, in milliseconds.
    pub rtt: u64,
}

pub open spec fn sum_size(s: Seq<WorkerInfo>) -> int
    decreases s.len(),
{
    if s.len() == 0 {
        0
    } else {
        sum_size(s.drop_last()) + s.last().size
    }
}

pub open spec fn sum_ttfb(s: Seq<WorkerInfo>) -> int
    decreases s.len(),
{
    if s.len() == 0 {
        0
    } else {
        sum_ttfb(s.drop_last()) + s.last().ttfb
    }
}

pub open spec fn sum_rtt(s: Seq<WorkerInfo>) -> int
    decreases s.len(),
{
    if s.len() == 0 {
        0
    } else {
        sum_rtt(s.drop_last()) + s.last().rtt
    }
}

/// A mutable aggregate of operation records: count, bytes, and latency
/// sums. The latency and byte sums are wide enough that they cannot
/// overflow while the count fits its own field.
#[derive(Clone, Copy, Debug, PartialEq, Eq, Structural)]
pub struct WorkerStat {
    pub objs: u64,
    pub data: u128,
    pub ttfb: u128,
    pub rtt: u128,
}

/// `st` is exactly the aggregate of `records`.
pub open spec fn is_fold_of(st: WorkerStat, records: Seq<WorkerInfo>) -> bool {
    &&& st.objs == records.len()
    &&& st.data == sum_size(records)
    &&& st.ttfb == sum_ttfb(records)
    &&& st.rtt == sum_rtt(records)
}

proof fn lemma_stat_field_bound(objs: int, field: int, add: int)
    requires
        0 <= objs <= u64::MAX,
        0 <= field <= objs * (u64::MAX as int),
        0 <= add <= u64::MAX,
    ensures
        field + add <= (objs + 1) * (u64::MAX as int),
        (objs + 1) * (u64::MAX as int) <= u128::MAX,
{
    assert((objs + 1) * (u64::MAX as int) == objs * (u64::MAX as int) + u64::MAX) by (nonlinear_arith);
    vstd::arithmetic::mul::lemma_mul_inequality(objs + 1, u64::MAX as int + 1, u64::MAX as int);
}

proof fn lemma_stat_merge_bound(objs1: int, f1: int, objs2: int, f2: int)
    requires
        0 <= objs1,
        0 <= objs2,
        objs1 + objs2 <= u64::MAX,
        0 <= f1 <= objs1 * (u64::MAX as int),
        0 <= f2 <= objs2 * (u64::MAX as int),
    ensures
        f1 + f2 <= (objs1 + objs2) * (u64::MAX as int),
        (objs1 + objs2) * (u64::MAX as int) <= u128::MAX,
{
    assert((objs1 + objs2) * (u64::MAX as int) == objs1 * (u64::MAX as int) + objs2 * (
    u64::MAX as int)) by (nonlinear_arith);
    vstd::arithmetic::mul::lemma_mul_inequality(
        objs1 + objs2,
        u64::MAX as int + 1,
        u64::MAX as int,
    );
}

impl WorkerStat {
    /// The sums never outgrow what the count allows, so adding one more
    /// record can never overflow them.
    pub open spec fn wf(&self) -> bool {
        &&& self.data <= (self.objs as int) * (u64::MAX as int)
        &&& self.ttfb <= (self.objs as int) * (u64::MAX as int)
        &&& self.rtt <= (self.objs as int) * (u64::MAX as int)
    }

    pub fn new() -> (st: WorkerStat)
        ensures
            st.objs == 0 && st.data == 0 && st.ttfb == 0 && st.rtt == 0,
            st.wf(),
    {
        WorkerStat { objs: 0, data: 0, ttfb: 0, rtt: 0 }
    }

    /// Fold one record into the aggregate: all four fields grow by the
    /// record's contribution.
    pub fn add_result(&mut self, res: &WorkerInfo)
        requires
            old(self).wf(),
            old(self).objs < u64::MAX,
        ensures
            final(self).objs == old(self).objs + 1,
            final(self).data == old(self).data + res.size,
            final(self).ttfb == old(self).ttfb + res.ttfb,
            final(self).rtt == old(self).rtt + res.rtt,
            final(self).wf(),
    {
        proof {
            lemma_stat_field_bound(old(self).objs as int, old(self).data as int, res.size as int);
            lemma_stat_field_bound(old(self).objs as int, old(self).ttfb as int, res.ttfb as int);
            lemma_stat_field_bound(old(self).objs as int, old(self).rtt as int, res.rtt as int);
        }
        self.objs = self.objs + 1;
        self.data = self.data + res.size as u128;
        self.ttfb = self.ttfb + res.ttfb as u128;
        self.rtt = self.rtt + res.rtt as u128;
    }

    /// Merge another partial aggregate into this one, field-wise.
    pub fn merge(&mut self, other: &WorkerStat)
        requires
            old(self).wf(),
            other.wf(),
            old(self).objs + other.objs <= u64::MAX,
        ensures
            final(self).objs == old(self).objs + other.objs,
            final(self).data == old(self).data + other.data,
            final(self).ttfb == old(self).ttfb + other.ttfb,
            final(self).rtt == old(self).rtt + other.rtt,
            final(self).wf(),
    {
        proof {
            lemma_stat_merge_bound(
                old(self).objs as int,
                old(self).data as int,
                other.objs as int,
                other.data as int,
            );
            lemma_stat_merge_bound(
                old(self).objs as int,
                old(self).ttfb as int,
                other.objs as int,
                other.ttfb as int,
            );
            lemma_stat_merge_bound(
                old(self).objs as int,
                old(self).rtt as int,
                other.objs as int,
                other.rtt as int,
            );
        }
        self.objs = self.objs + other.objs;
        self.data = self.data + other.data;
        self.ttfb = self.ttfb + other.ttfb;
        self.rtt = self.rtt + other.rtt;
    }

    /// Zero all fields, starting a new tick window.
    pub fn clear(&mut self)
        ensures
            final(self).objs == 0 && final(self).data == 0 && final(self).ttfb == 0,
            final(self).rtt == 0,
            final(self).wf(),
    {
        self.objs = 0;
        self.data = 0;
        self.ttfb = 0;
        self.rtt = 0;
    }

    /// Average latencies, or nothing where there was no activity: a zero
    /// count never reaches a division.
    pub fn averages(&self) -> (r: Option<(u128, u128)>)
        ensures
            self.objs == 0 <==> r is None,
            r matches Some(p) ==> p.0 == self.ttfb / (self.objs as u128) && p.1 == self.rtt / (
            self.objs as u128),
    {
        if self.objs == 0 {
            None
        } else {
            Some((self.ttfb / (self.objs as u128), self.rtt / (self.objs as u128)))
        }
    }

    /// The aggregate rendered without reference to run time. A kind with
    /// no activity renders as such rather than reaching a division.
    pub fn serialize_relative(&mut self) -> (r: String)
        ensures
            *final(self) == *old(self),
            old(self).objs == 0 ==> r@ == "no activity"@,
            old(self).objs > 0 ==> r@ == relative_line(
                old(self).objs,
                old(self).data / 1048576,
                old(self).ttfb / (old(self).objs as u128),
                old(self).rtt / (old(self).objs as u128),
            ),
    {
        if self.objs == 0 {
            "no activity".to_owned()
        } else {
            fmt_relative_line(
                self.objs,
                self.data / 1048576,
                self.ttfb / (self.objs as u128),
                self.rtt / (self.objs as u128),
            )
        }
    }

    /// The aggregate rendered against elapsed run time, with average
    /// throughput rates.
    pub fn serialize_absolute(&mut self, d: u64) -> (r: String)
        requires
            d > 0,
        ensures
            *final(self) == *old(self),
            r@ == absolute_line(
                old(self).objs,
                old(self).data / 1048576,
                d,
                old(self).objs / d,
                (old(self).data / (d as u128)) / 1048576,
            ),
    {
        fmt_absolute_line(
            self.objs,
            self.data / 1048576,
            d,
            self.objs / d,
            (self.data / (d as u128)) / 1048576,
        )
    }
}

/// Aggregation law: folding the concatenation of two record sequences
/// yields, field for field, the sum of folding each sequence alone — so
/// merging partial aggregates loses nothing against folding all records
/// directly, however the records were interleaved across workers.
pub proof fn lemma_aggregation_associative(a: Seq<WorkerInfo>, b: Seq<WorkerInfo>)
    ensures
        (a + b).len() == a.len() + b.len(),
        sum_size(a + b) == sum_size(a) + sum_size(b),
        sum_ttfb(a + b) == sum_ttfb(a) + sum_ttfb(b),
        sum_rtt(a + b) == sum_rtt(a) + sum_rtt(b),
    decreases b.len(),
{
    if b.len() == 0 {
        assert(a + b =~= a);
    } else {
        assert((a + b).drop_last() =~= a + b.drop_last());
        assert((a + b).last() == b.last());
        lemma_aggregation_associative(a, b.drop_last());
    }
}

/// Corollary stated on aggregates: two partial aggregates, each the fold
/// of its own records, merge field-wise into exactly the fold of all the
/// records together.
pub proof fn lemma_merge_matches_direct_fold(
    s1: WorkerStat,
    s2: WorkerStat,
    a: Seq<WorkerInfo>,
    b: Seq<WorkerInfo>,
)
    requires
        is_fold_of(s1, a),
        is_fold_of(s2, b),
    ensures
        s1.objs + s2.objs == (a + b).len(),
        s1.data + s2.data == sum_size(a + b),
        s1.ttfb + s2.ttfb == sum_ttfb(a + b),
        s1.rtt + s2.rtt == sum_rtt(a + b),
{
    lemma_aggregation_associative(a, b);
}

/// What a worker's loop should do with the outcome of one operation,
/// given whether a stop signal had been observed.
#[derive(Debug)]
pub enum WorkerAction {
    /// Nothing to report (the operation was a no-op); keep looping.
    Continue,
    /// Report this record and keep looping.
    Send(WorkerInfo),
    /// Report this failure as an error-kind event and keep looping.
    SendError(ChumError),
    /// A stop was observed: discard the result and terminate the loop.
    Stop,
    /// A stop was observed while holding a failure: surface the message
    /// locally and terminate the loop.
    StopWithError(ChumError),
}

/// The three-way outcome contract a backend implementation meets: a
/// completed record, a no-op (precondition not met — nothing to report),
/// or a typed failure.
pub trait Backend {
    fn write(&self) -> Result<Option<WorkerInfo>, ChumError>;

    fn read(&self) -> Result<Option<WorkerInfo>, ChumError>;

    fn delete(&self) -> Result<Option<WorkerInfo>, ChumError>;
}

/// The operation kind a one-letter workload code stands for.
pub open spec fn spec_op_kind(s: Seq<char>) -> Option<Operation> {
    if s.len() == 1 && s[0] == 'r' {
        Some(Operation::Read)
    } else if s.len() == 1 && s[0] == 'w' {
        Some(Operation::Write)
    } else if s.len() == 1 && s[0] == 'd' {
        Some(Operation::Delete)
    } else {
        None
    }
}

pub fn op_kind(s: &str) -> (r: Option<Operation>)
    ensures
        r == spec_op_kind(s@),
{
    if s.unicode_len() != 1 {
        return None;
    }
    match s.get_char(0) {
        'r' => Some(Operation::Read),
        'w' => Some(Operation::Write),
        'd' => Some(Operation::Delete),
        _ => None,
    }
}

/// A non-empty workload mix in which every code names an operation.
pub open spec fn ops_valid(ops: Seq<Seq<char>>) -> bool {
    ops.len() >= 1 && forall|i: int| 0 <= i < ops.len() ==> spec_op_kind(#[trigger] ops[i]) is Some
}

/// The per-thread driver of the generator: it samples one operation kind
/// from the workload mix, has a backend perform it, and decides what to
/// do with the outcome under the cooperative stop protocol. The blocking
/// loop around these decisions — channel sends, signal polls and the
/// inter-operation pause — lives with the caller.
pub struct Worker {
    pause: u64,
    ops: Vec<String>,
}

impl Worker {
    pub closed spec fn pause(&self) -> u64 {
        self.pause
    }

    pub closed spec fn ops(&self) -> Seq<Seq<char>> {
        self.ops.deep_view()
    }

    pub open spec fn wf(&self) -> bool {
        ops_valid(self.ops())
    }

    /// Construct a worker from a workload mix and an inter-operation
    /// pause. A mix that is empty or holds an unrecognized code is a
    /// configuration error, fatal at startup.
    pub fn new(ops: Vec<String>, pause: u64) -> (r: Result<Worker, ChumError>)
        ensures
            r is Ok <==> ops_valid(ops.deep_view()),
            r matches Ok(w) ==> w.wf() && w.ops() == ops.deep_view() && w.pause() == pause,
    {
        if ops.len() == 0 {
            return Err(ChumError::new("workload must name at least one operation"));
        }
        let mut i: usize = 0;
        while i < ops.len()
            invariant
                i <= ops@.len(),
                forall|k: int| 0 <= k < i ==> spec_op_kind(#[trigger] ops.deep_view()[k]) is Some,
            decreases ops@.len() - i,
        {
            proof {
                assert(ops[i as int]@ == ops.deep_view()[i as int]);
            }
            if op_kind(ops[i].as_str()).is_none() {
                return Err(ChumError::new("unrecognized operator in workload"));
            }
            i += 1;
        }
        Ok(Worker { pause, ops })
    }

    /// The configured pause between operations, in milliseconds; the
    /// caller skips the sleep when it is zero.
    pub fn pause_millis(&self) -> (r: u64)
        ensures
            r == self.pause(),
    {
        self.pause
    }

    /// Sample one operation kind uniformly from the workload mix pool;
    /// repetition in the pool encodes relative weight.
    pub fn sample_op(&self) -> (op: Operation)
        requires
            self.wf(),
        ensures
            exists|i: int|
                0 <= i < self.ops().len() && spec_op_kind(#[trigger] self.ops()[i]) == Some(op),
    {
        let i = random_index(self.ops.len());
        proof {
            assert(self.ops[i as int]@ == self.ops()[i as int]);
        }
        op_kind(self.ops[i].as_str()).unwrap()
    }

    /// Have the backend perform one operation of the sampled kind.
    pub fn execute<B: Backend>(&self, backend: &B, op: Operation) -> Result<
        Option<WorkerInfo>,
        ChumError,
    >
        requires
            !(op is Error),
    {
        match op {
            Operation::Read => backend.read(),
            Operation::Write => backend.write(),
            Operation::Delete => backend.delete(),
            Operation::Error => Ok(None),
        }
    }

    /// Decide what the loop does with one operation's outcome. A no-op is
    /// silently passed over. A stop observed on any reportable outcome
    /// terminates the loop without a further report; otherwise the record
    /// — success or failure alike — is reported and the loop goes on.
    pub fn process_result(&self, res: Result<Option<WorkerInfo>, ChumError>, stop_observed: bool)
        -> (a: WorkerAction)
        ensures
            res matches Ok(None) ==> a is Continue,
            res matches Ok(Some(w)) ==> if stop_observed {
                a is Stop
            } else {
                a matches WorkerAction::Send(x) && x == w
            },
            res matches Err(e) ==> if stop_observed {
                a matches WorkerAction::StopWithError(x) && x == e
            } else {
                a matches WorkerAction::SendError(x) && x == e
            },
    {
        match res {
            Ok(None) => WorkerAction::Continue,
            Ok(Some(w)) => {
                if stop_observed {
                    WorkerAction::Stop
                } else {
                    WorkerAction::Send(w)
                }
            },
            Err(e) => {
                if stop_observed {
                    WorkerAction::StopWithError(e)
                } else {
                    WorkerAction::SendError(e)
                }
            },
        }
    }
}

} // verus!
