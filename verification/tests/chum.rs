use chum::distr::{convert_numeric_distribution, expand_distribution, parse_dec, parse_human};
use chum::error::ChumError;
use chum::queue::{Queue, QueueItem, QueueMode};
use chum::stats::{cap_reached, choose_cap, output_format_of, Collector, DataCap, OutputFormat};
use chum::worker::{op_kind, Operation, Worker, WorkerAction, WorkerInfo, WorkerStat};
use chum::writer::Writer;

fn pool_of(spec: &str) -> Vec<String> {
    expand_distribution(spec).expect("spec should parse").0
}

#[test]
fn expand_single_values() {
    assert_eq!(pool_of("r,w"), vec!["r".to_string(), "w".to_string()]);
    assert_eq!(pool_of("w"), vec!["w".to_string()]);
}

#[test]
fn expand_with_x_multiplier() {
    // The pool length is the sum of the declared counts, default one.
    assert_eq!(
        pool_of("128,256x2"),
        vec!["128".to_string(), "256".to_string(), "256".to_string()]
    );
}

#[test]
fn expand_with_colon_multiplier() {
    assert_eq!(
        pool_of("512:3"),
        vec!["512".to_string(), "512".to_string(), "512".to_string()]
    );
}

#[test]
fn expand_zero_count_contributes_nothing() {
    assert_eq!(pool_of("5x0,7"), vec!["7".to_string()]);
}

#[test]
fn expand_skips_malformed_entry_and_keeps_rest() {
    let (pool, skipped) = expand_distribution("1,2:3:4,5").expect("rest should parse");
    assert_eq!(pool, vec!["1".to_string(), "5".to_string()]);
    assert_eq!(skipped, vec!["2:3:4".to_string()]);
}

#[test]
fn expand_empty_spec_yields_one_empty_token() {
    assert_eq!(pool_of(""), vec![String::new()]);
    assert!(convert_numeric_distribution(vec![String::new()]).is_err());
}

#[test]
fn expand_rejects_bad_count() {
    assert!(expand_distribution("4:abc").is_err());
}

#[test]
fn parse_dec_bounds() {
    assert_eq!(parse_dec("0"), Some(0));
    assert_eq!(parse_dec("18446744073709551615"), Some(u64::MAX));
    assert_eq!(parse_dec("18446744073709551616"), None);
    assert_eq!(parse_dec(""), None);
    assert_eq!(parse_dec("12q"), None);
}

#[test]
fn parse_human_suffixes() {
    assert_eq!(parse_human("128").unwrap(), 128);
    assert_eq!(parse_human("128k").unwrap(), 131072);
    assert_eq!(parse_human("1m").unwrap(), 1048576);
    assert_eq!(parse_human("2G").unwrap(), 2147483648);
    assert_eq!(parse_human("10t").unwrap(), 10995116277760);
}

#[test]
fn parse_human_rejects_malformed() {
    assert!(parse_human("").is_err());
    assert!(parse_human("q").is_err());
    assert!(parse_human("12z").is_err());
    assert!(parse_human("99999999999999999999k").is_err());
}

#[test]
fn convert_distribution_to_bytes() {
    let tokens = vec!["128k".to_string(), "256".to_string()];
    assert_eq!(convert_numeric_distribution(tokens).unwrap(), vec![131072, 256]);
}

#[test]
fn convert_distribution_rejects_bad_token() {
    let tokens = vec!["128k".to_string(), "nope".to_string()];
    assert!(convert_numeric_distribution(tokens).is_err());
}

fn item(s: &str) -> QueueItem {
    QueueItem { obj: s.to_string() }
}

#[test]
fn queue_len_tracks_inserts_below_capacity() {
    let mut q = Queue::new(QueueMode::Lru, 5);
    q.insert(item("a"));
    q.insert(item("b"));
    q.insert(item("c"));
    assert_eq!(q.len(), 3);
}

#[test]
fn queue_capacity_evicts_oldest() {
    // Beyond the capacity, the oldest items leave, whatever the mode.
    let mut q = Queue::new(QueueMode::Mru, 3);
    for s in ["a", "b", "c", "d", "e"] {
        q.insert(item(s));
    }
    assert_eq!(q.len(), 3);
    // Drain oldest-first by inserting into an Lru queue instead.
    let mut lru = Queue::new(QueueMode::Lru, 3);
    for s in ["a", "b", "c", "d", "e"] {
        lru.insert(item(s));
    }
    let survivors: Vec<String> = (0..3).map(|_| lru.take().unwrap().obj).collect();
    assert_eq!(survivors, vec!["c".to_string(), "d".to_string(), "e".to_string()]);
}

#[test]
fn queue_lru_returns_in_insertion_order() {
    let mut q = Queue::new(QueueMode::Lru, 8);
    for s in ["a", "b", "c"] {
        q.insert(item(s));
    }
    assert_eq!(q.take().unwrap().obj, "a");
    assert_eq!(q.take().unwrap().obj, "b");
    assert_eq!(q.take().unwrap().obj, "c");
}

#[test]
fn queue_lru_one_read_returns_first_write() {
    let mut q = Queue::new(QueueMode::Lru, 4);
    q.insert(item("A"));
    q.insert(item("B"));
    q.insert(item("C"));
    assert_eq!(q.take().unwrap().obj, "A");
}

#[test]
fn queue_mru_one_read_returns_last_write() {
    let mut q = Queue::new(QueueMode::Mru, 4);
    q.insert(item("A"));
    q.insert(item("B"));
    q.insert(item("C"));
    assert_eq!(q.take().unwrap().obj, "C");
}

#[test]
fn queue_take_on_empty_returns_none() {
    let mut q = Queue::new(QueueMode::Rand, 4);
    assert!(q.take().is_none());
    q.insert(item("x"));
    let _ = q.take();
    assert!(q.take().is_none());
}

#[test]
fn queue_rand_take_is_member_and_roughly_uniform() {
    let names = ["a", "b", "c", "d"];
    let mut counts = [0usize; 4];
    for _ in 0..2000 {
        let mut q = Queue::new(QueueMode::Rand, 8);
        for s in names {
            q.insert(item(s));
        }
        let got = q.take().unwrap().obj;
        let idx = names.iter().position(|n| *n == got).expect("member of queue");
        counts[idx] += 1;
        assert_eq!(q.len(), 3);
    }
    for c in counts {
        // Uniform draws land near 500 of 2000; far outside that betrays
        // a broken selection.
        assert!(c > 300 && c < 800, "skewed selection: {:?}", counts);
    }
}

fn rec(id: u64, op: Operation, size: u64, ttfb: u64, rtt: u64) -> WorkerInfo {
    WorkerInfo { id, op, size, ttfb, rtt }
}

#[test]
fn worker_stat_add_result_accumulates() {
    let mut st = WorkerStat::new();
    st.add_result(&rec(1, Operation::Write, 100, 5, 9));
    st.add_result(&rec(1, Operation::Write, 50, 7, 1));
    assert_eq!(st.objs, 2);
    assert_eq!(st.data, 150);
    assert_eq!(st.ttfb, 12);
    assert_eq!(st.rtt, 10);
    st.clear();
    assert_eq!((st.objs, st.data, st.ttfb, st.rtt), (0, 0, 0, 0));
}

#[test]
fn worker_stat_merge_matches_direct_fold() {
    // Folding all records directly ...
    let records = [
        rec(1, Operation::Write, 10, 1, 2),
        rec(2, Operation::Write, 20, 3, 4),
        rec(3, Operation::Write, 30, 5, 6),
        rec(4, Operation::Write, 40, 7, 8),
        rec(5, Operation::Write, 50, 9, 10),
    ];
    let mut whole = WorkerStat::new();
    for r in &records {
        whole.add_result(r);
    }
    // ... equals merging two partial aggregates field-wise.
    let mut left = WorkerStat::new();
    for r in &records[..2] {
        left.add_result(r);
    }
    let mut right = WorkerStat::new();
    for r in &records[2..] {
        right.add_result(r);
    }
    left.merge(&right);
    assert_eq!(left, whole);
}

#[test]
fn worker_stat_zero_activity_has_no_averages() {
    let st = WorkerStat::new();
    assert!(st.averages().is_none());
    let mut st = WorkerStat::new();
    assert_eq!(st.serialize_relative(), "no activity");
}

#[test]
fn worker_stat_relative_line_exact() {
    let mut st = WorkerStat::new();
    st.add_result(&rec(1, Operation::Read, 4194304, 3, 5));
    st.add_result(&rec(1, Operation::Read, 4194304, 3, 5));
    assert_eq!(st.serialize_relative(), "2 objects, 8MB, avg ttfb 3ms, avg rtt 5ms");
}

#[test]
fn worker_stat_absolute_line_exact() {
    let mut st = WorkerStat::new();
    st.add_result(&rec(1, Operation::Write, 2097152, 1, 1));
    st.add_result(&rec(1, Operation::Write, 2097152, 1, 1));
    assert_eq!(
        st.serialize_absolute(2),
        "2 objects, 4MB, 2s, avg 1 objs/s, avg 2MB/s"
    );
}

#[test]
fn operation_names() {
    assert_eq!(Operation::Read.name(), "read");
    assert_eq!(Operation::Write.name(), "write");
    assert_eq!(Operation::Delete.name(), "delete");
    assert_eq!(Operation::Error.name(), "error");
}

#[test]
fn op_kind_recognizes_codes() {
    assert_eq!(op_kind("r"), Some(Operation::Read));
    assert_eq!(op_kind("w"), Some(Operation::Write));
    assert_eq!(op_kind("d"), Some(Operation::Delete));
    assert_eq!(op_kind("x"), None);
    assert_eq!(op_kind("rw"), None);
}

#[test]
fn worker_new_rejects_bad_mix() {
    assert!(Worker::new(vec![], 0).is_err());
    assert!(Worker::new(vec!["r".to_string(), "q".to_string()], 0).is_err());
    assert!(Worker::new(vec!["r".to_string(), "w".to_string()], 5).is_ok());
}

#[test]
fn worker_sample_op_draws_from_mix() {
    let w = Worker::new(vec!["w".to_string()], 0).unwrap();
    for _ in 0..50 {
        assert_eq!(w.sample_op(), Operation::Write);
    }
    let w = Worker::new(vec!["r".to_string(), "d".to_string()], 0).unwrap();
    for _ in 0..50 {
        let op = w.sample_op();
        assert!(op == Operation::Read || op == Operation::Delete);
    }
}

#[test]
fn process_result_reports_when_running() {
    let w = Worker::new(vec!["w".to_string()], 0).unwrap();
    let record = rec(7, Operation::Write, 1, 2, 3);
    match w.process_result(Ok(Some(record)), false) {
        WorkerAction::Send(sent) => assert_eq!(sent, record),
        other => panic!("expected a send, got {:?}", other),
    }
    assert!(matches!(w.process_result(Ok(None), false), WorkerAction::Continue));
    match w.process_result(Err(ChumError::new("boom")), false) {
        WorkerAction::SendError(e) => assert_eq!(e.message(), "boom"),
        other => panic!("expected an error report, got {:?}", other),
    }
}

#[test]
fn process_result_stops_without_reporting_after_signal() {
    // Once the stop signal was observed, nothing more is reported.
    let w = Worker::new(vec!["w".to_string()], 0).unwrap();
    let record = rec(7, Operation::Write, 1, 2, 3);
    assert!(matches!(w.process_result(Ok(Some(record)), true), WorkerAction::Stop));
    assert!(matches!(
        w.process_result(Err(ChumError::new("boom")), true),
        WorkerAction::StopWithError(_)
    ));
}

#[test]
fn collector_folds_batch_per_kind() {
    let mut c = Collector::new();
    let batch: Vec<Result<WorkerInfo, ChumError>> = vec![
        Ok(rec(1, Operation::Write, 100, 1, 2)),
        Ok(rec(2, Operation::Write, 50, 3, 4)),
        Ok(rec(1, Operation::Read, 10, 5, 6)),
        Err(ChumError::new("lost connection")),
    ];
    let tick = c.process_tick(&batch);
    assert_eq!(tick.totals.write.objs, 2);
    assert_eq!(tick.totals.write.data, 150);
    assert_eq!(tick.totals.read.objs, 1);
    assert_eq!(tick.totals.delete.objs, 0);
    assert_eq!(tick.totals.error.objs, 1);
    assert_eq!(tick.totals.error.data, 0);
}

#[test]
fn collector_cumulative_accumulates_across_ticks() {
    let mut c = Collector::new();
    let batch1: Vec<Result<WorkerInfo, ChumError>> =
        vec![Ok(rec(1, Operation::Write, 100, 1, 1))];
    let batch2: Vec<Result<WorkerInfo, ChumError>> =
        vec![Ok(rec(1, Operation::Write, 200, 1, 1))];
    let t1 = c.process_tick(&batch1);
    let t2 = c.process_tick(&batch2);
    assert_eq!(t1.totals.write.data, 100);
    assert_eq!(t2.totals.write.data, 200);
    assert_eq!(c.cumulative.write.data, 300);
    assert_eq!(c.cumulative.write.objs, 2);
}

#[test]
fn collector_splits_batch_per_worker() {
    let mut c = Collector::new();
    let batch: Vec<Result<WorkerInfo, ChumError>> = vec![
        Ok(rec(1, Operation::Write, 100, 1, 2)),
        Ok(rec(2, Operation::Write, 50, 3, 4)),
        Ok(rec(1, Operation::Read, 10, 5, 6)),
    ];
    let tick = c.process_tick(&batch);
    assert_eq!(tick.per_worker.len(), 2);
    let one = tick.per_worker.iter().find(|e| e.id == 1).unwrap();
    let two = tick.per_worker.iter().find(|e| e.id == 2).unwrap();
    assert_eq!(one.stats.write.data, 100);
    assert_eq!(one.stats.read.objs, 1);
    assert_eq!(two.stats.write.data, 50);
    assert_eq!(two.stats.read.objs, 0);
}

#[test]
fn absolute_cap_triggers_at_threshold() {
    let cap = Some(DataCap::AbsoluteBytes(1024));
    assert!(!cap_reached(&cap, 1023, None));
    assert!(cap_reached(&cap, 1024, None));
    assert!(cap_reached(&cap, 4096, None));
    assert!(!cap_reached(&None, u128::MAX, None));
}

#[test]
fn percentage_cap_needs_a_probe() {
    let cap = Some(DataCap::Percentage(80));
    assert!(!cap_reached(&cap, 0, None));
    assert!(!cap_reached(&cap, 0, Some(79)));
    assert!(cap_reached(&cap, 0, Some(80)));
    assert!(cap_reached(&cap, 0, Some(100)));
}

#[test]
fn absolute_cap_takes_precedence() {
    assert_eq!(choose_cap(Some(50), Some(1024)), Some(DataCap::AbsoluteBytes(1024)));
    assert_eq!(choose_cap(Some(50), None), Some(DataCap::Percentage(50)));
    assert_eq!(choose_cap(None, Some(7)), Some(DataCap::AbsoluteBytes(7)));
    assert_eq!(choose_cap(None, None), None);
}

#[test]
fn output_format_codes() {
    assert_eq!(output_format_of("h"), Some(OutputFormat::Human));
    assert_eq!(output_format_of("v"), Some(OutputFormat::HumanVerbose));
    assert_eq!(output_format_of("t"), Some(OutputFormat::Tabular));
    assert_eq!(output_format_of("x"), None);
    assert_eq!(output_format_of("hh"), None);
}

#[test]
fn tick_report_renders_each_kind() {
    let mut c = Collector::new();
    let batch: Vec<Result<WorkerInfo, ChumError>> =
        vec![Ok(rec(1, Operation::Write, 4194304, 3, 5))];
    let tick = c.process_tick(&batch);
    let report = tick.render(OutputFormat::Human);
    assert_eq!(
        report,
        "read: no activity\nwrite: 1 objects, 4MB, avg ttfb 3ms, avg rtt 5ms\n\
         delete: no activity\nerror: no activity\n"
    );
}

#[test]
fn tabular_report_is_tab_separated() {
    let mut c = Collector::new();
    let batch: Vec<Result<WorkerInfo, ChumError>> =
        vec![Ok(rec(1, Operation::Read, 10, 3, 5))];
    let tick = c.process_tick(&batch);
    let report = tick.render(OutputFormat::Tabular);
    assert_eq!(
        report,
        "read\t1\t10\t3\t5\nwrite\t0\t0\t0\t0\ndelete\t0\t0\t0\t0\nerror\t0\t0\t0\t0\n"
    );
}

#[test]
fn verbose_report_includes_worker_sections() {
    let mut c = Collector::new();
    let batch: Vec<Result<WorkerInfo, ChumError>> =
        vec![Ok(rec(9, Operation::Write, 4194304, 3, 5))];
    let tick = c.process_tick(&batch);
    let report = tick.render(OutputFormat::HumanVerbose);
    assert!(report.starts_with("worker 9:\n"));
    assert!(report.ends_with(
        "read: no activity\nwrite: 1 objects, 4MB, avg ttfb 3ms, avg rtt 5ms\n\
         delete: no activity\nerror: no activity\n"
    ));
}

#[test]
fn writer_plans_uploads_from_pool() {
    let w = Writer::new("198.51.100.7".to_string(), vec![128, 256, 256]);
    assert_eq!(w.buffer().len(), 65536);
    for _ in 0..50 {
        assert!([128u64, 256u64].contains(&w.pick_size()));
    }
    let plan = w.prepare_upload();
    assert_eq!(plan.id.len(), 36);
    assert_eq!(plan.path, format!("chum/{}", plan.id));
    assert_eq!(plan.url, format!("http://198.51.100.7:80/chum/{}", plan.id));
    assert!([128u64, 256u64].contains(&plan.size));
}

#[test]
fn writer_judges_response_codes() {
    let w = Writer::new("10.0.0.1".to_string(), vec![128]);
    match w.write_outcome(3, "chum/x", 128, 201, 4, 9) {
        Ok(Some(info)) => {
            assert_eq!(info, rec(3, Operation::Write, 128, 4, 9));
        },
        other => panic!("expected a record, got {:?}", other),
    }
    assert!(matches!(w.write_outcome(3, "chum/x", 128, 204, 4, 9), Ok(Some(_))));
    match w.write_outcome(3, "chum/x", 128, 500, 4, 9) {
        Err(e) => assert_eq!(e.message(), "Writing chum/x failed: 500"),
        other => panic!("expected a failure, got {:?}", other),
    }
    assert_eq!(w.get_type(), "write");
}

#[test]
fn write_only_run_stops_at_data_cap() {
    // Three workers, pool [128, 256, 256], write-only mix, cap 1024:
    // cumulative bytes grow every tick until the cap is crossed, then
    // every worker observes the stop and reports nothing more.
    let (pool, skipped) = expand_distribution("128,256x2").unwrap();
    assert!(skipped.is_empty());
    let sizes = convert_numeric_distribution(pool).unwrap();
    assert_eq!(sizes, vec![128, 256, 256]);
    let cap = Some(DataCap::AbsoluteBytes(1024));
    let workers: Vec<Worker> =
        (0..3).map(|_| Worker::new(vec!["w".to_string()], 0).unwrap()).collect();
    let writers: Vec<Writer> =
        (0..3).map(|_| Writer::new("10.0.0.1".to_string(), sizes.clone())).collect();
    let mut c = Collector::new();
    let mut last_total: u128 = 0;
    let mut ticks = 0;
    while !c.should_stop(&cap, None) {
        ticks += 1;
        assert!(ticks < 100, "cap never crossed");
        let mut batch: Vec<Result<WorkerInfo, ChumError>> = Vec::new();
        for (id, (w, wr)) in workers.iter().zip(writers.iter()).enumerate() {
            assert_eq!(w.sample_op(), Operation::Write);
            let plan = wr.prepare_upload();
            assert!(sizes.contains(&plan.size));
            let res = wr.write_outcome(id as u64, &plan.path, plan.size, 201, 1, 2);
            match w.process_result(res, false) {
                WorkerAction::Send(info) => batch.push(Ok(info)),
                other => panic!("running worker should report, got {:?}", other),
            }
        }
        c.process_tick(&batch);
        // Cumulative bytes written grow strictly while writes continue.
        assert!(c.cumulative.write.data > last_total);
        last_total = c.cumulative.write.data;
    }
    assert!(c.cumulative.write.data >= 1024);
    // The stop reaches every worker: none reports its in-flight result.
    for (id, (w, wr)) in workers.iter().zip(writers.iter()).enumerate() {
        let res = wr.write_outcome(id as u64, "chum/x", 128, 201, 1, 2);
        assert!(matches!(w.process_result(res, true), WorkerAction::Stop));
    }
}
