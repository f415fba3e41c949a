use vstd::prelude::*;

verus! {

/// The rendered per-tick summary of one operation kind: object count,
/// megabytes moved, and average latencies.
pub uninterp spec fn relative_line(objs: u64, mb: u128, avg_ttfb: u128, avg_rtt: u128) -> Seq<
    char,
>;

/// Relies on std's string formatting: the rendered line is a function of
/// the numbers alone.
#[verifier::external_body]
pub fn fmt_relative_line(objs: u64, mb: u128, avg_ttfb: u128, avg_rtt: u128) -> (r: String)
    ensures
        r@ == relative_line(objs, mb, avg_ttfb, avg_rtt),
{
    format!("{} objects, {}MB, avg ttfb {}ms, avg rtt {}ms", objs, mb, avg_ttfb, avg_rtt)
}

/// The rendered whole-run summary of one operation kind: object count,
/// megabytes moved, elapsed seconds, and average rates.
pub uninterp spec fn absolute_line(objs: u64, mb: u128, secs: u64, objs_rate: u64, mb_rate: u128) -> Seq<
    char,
>;

/// Relies on std's string formatting: the rendered line is a function of
/// the numbers alone.
#[verifier::external_body]
pub fn fmt_absolute_line(objs: u64, mb: u128, secs: u64, objs_rate: u64, mb_rate: u128) -> (r:
    String)
    ensures
        r@ == absolute_line(objs, mb, secs, objs_rate, mb_rate),
{
    format!("{} objects, {}MB, {}s, avg {} objs/s, avg {}MB/s", objs, mb, secs, objs_rate, mb_rate)
}

/// One fixed-column row for downstream parsing: kind, object count, raw
/// byte count and latency sums, tab-separated.
pub uninterp spec fn tabular_line(op: Seq<char>, objs: u64, data: u128, ttfb: u128, rtt: u128) -> Seq<
    char,
>;

/// Relies on std's string formatting: the rendered row is a function of
/// the values alone.
#[verifier::external_body]
pub fn fmt_tabular_line(op: &str, objs: u64, data: u128, ttfb: u128, rtt: u128) -> (r: String)
    ensures
        r@ == tabular_line(op@, objs, data, ttfb, rtt),
{
    format!("{}\t{}\t{}\t{}\t{}", op, objs, data, ttfb, rtt)
}

/// The heading of one worker's section in the verbose report.
pub uninterp spec fn worker_header(id: u64) -> Seq<char>;

/// Relies on std's string formatting: the rendered heading is a function
/// of the identifier alone.
#[verifier::external_body]
pub fn fmt_worker_header(id: u64) -> (r: String)
    ensures
        r@ == worker_header(id),
{
    format!("worker {}:\n", id)
}

/// The message reported when writing an object fails with an unexpected
/// response code.
pub uninterp spec fn write_failure_line(path: Seq<char>, code: u32) -> Seq<char>;

/// Relies on std's string formatting: the rendered message is a function
/// of the path and code alone.
#[verifier::external_body]
pub fn fmt_write_failure(path: &str, code: u32) -> (r: String)
    ensures
        r@ == write_failure_line(path@, code),
{
    format!("Writing {} failed: {}", path, code)
}

} // verus!
