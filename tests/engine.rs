use sirun::exit::{classify_exit, ExitClass};
use sirun::measure::get_kernel_metrics;
use sirun::retry::{RetryState, RetryStep, MAX_ATTEMPTS};
use sirun::rusage::{ms_from_timeval, Rusage};
use sirun::session::{abort_exit_code, Abort, Action, Phase, Session};
use sirun::statsd::{encode_metrics, parse_metrics, Metric, MetricBuffer};
use sirun::summary::{distinct_keys, group_by_key, observations_of, summarize_record, SummaryTable};

fn metric(key: &str, value: &str) -> Metric {
    Metric { key: key.as_bytes().to_vec(), value: value.as_bytes().to_vec() }
}

#[test]
fn exit_zero_is_success() {
    assert_eq!(classify_exit(Some(0)), ExitClass::Success);
}

#[test]
fn exit_codes_up_to_128_abort() {
    assert_eq!(classify_exit(Some(1)), ExitClass::Abort(1));
    assert_eq!(classify_exit(Some(2)), ExitClass::Abort(2));
    assert_eq!(classify_exit(Some(128)), ExitClass::Abort(128));
}

#[test]
fn exit_130_and_signals_are_tolerated() {
    assert_eq!(classify_exit(Some(130)), ExitClass::Tolerated);
    assert_eq!(classify_exit(Some(129)), ExitClass::Tolerated);
    assert_eq!(classify_exit(None), ExitClass::Tolerated);
}

#[test]
fn retry_gives_up_after_max_attempts() {
    let mut state = RetryState::new();
    for n in 1..MAX_ATTEMPTS {
        match state.step(Some(1)) {
            RetryStep::Retry(next) => {
                assert_eq!(next.failures, n);
                state = next;
            }
            other => panic!("unexpected step {:?}", other),
        }
    }
    assert_eq!(state.failures, 99);
    assert_eq!(state.step(Some(1)), RetryStep::Exhausted);
}

#[test]
fn retry_ends_on_success_or_signal() {
    let state = RetryState { failures: 42 };
    assert_eq!(state.step(Some(0)), RetryStep::Done);
    assert_eq!(state.step(None), RetryStep::Signaled);
    assert_eq!(RetryState::new().step(Some(3)), RetryStep::Retry(RetryState { failures: 1 }));
}

#[test]
fn timeval_to_micros() {
    assert_eq!(ms_from_timeval(2, 500), Some(2_000_500));
    assert_eq!(ms_from_timeval(0, 0), Some(0));
    assert_eq!(ms_from_timeval(i64::MAX, 0), None);
    assert_eq!(ms_from_timeval(i64::MAX / 1_000_000, 0), Some((i64::MAX / 1_000_000) * 1_000_000));
}

#[test]
fn rusage_from_counters_and_delta() {
    let a = Rusage::from_counters(1, 250_000, 0, 10, 2048).unwrap();
    assert_eq!(a, Rusage { user_time: 1_250_000, system_time: 10, max_res_size: 2048 });
    let b = Rusage { user_time: 1_750_000, system_time: 110, max_res_size: 4096 };
    assert_eq!(b.sub(a), Some(Rusage { user_time: 500_000, system_time: 100, max_res_size: 2048 }));
    let zero = Rusage { user_time: 0, system_time: 0, max_res_size: 0 };
    assert_eq!(a.sub(a), Some(zero));
    let low = Rusage { user_time: i64::MIN, system_time: 0, max_res_size: 0 };
    assert_eq!(b.sub(low), None);
    assert_eq!(Rusage::from_counters(i64::MAX, 0, 0, 0, 0), None);
}

#[test]
fn rusage_samples_of_children_grow() {
    let first = Rusage::new().expect("getrusage works");
    let second = Rusage::new().expect("getrusage works");
    assert!(first.user_time >= 0 && first.system_time >= 0);
    let delta = second.sub(first).unwrap();
    assert!(delta.user_time >= 0);
    assert!(delta.system_time >= 0);
}

#[test]
fn cpu_pct_is_cpu_over_wall() {
    let usage = Rusage { user_time: 300, system_time: 200, max_res_size: 7 };
    let m = get_kernel_metrics(1000, usage);
    assert_eq!(m.wall_time, 1000);
    assert_eq!(m.user_time, 300);
    assert_eq!(m.system_time, 200);
    assert_eq!(m.max_res_size, 7);
    assert_eq!(m.cpu_pct_parts(), (50_000, 1000));
    let (num, den) = m.cpu_pct_parts();
    let pct = num as f64 / den as f64;
    assert!((pct - (300.0 + 200.0) * 100.0 / 1000.0).abs() < 1e-9);
}

#[test]
fn statsd_lines_parse() {
    let parsed = parse_metrics(b"  a:1|g\nb:2.5|g\nnocolon|g\nk:v:w|g\n\nc:3\r\n  ");
    assert_eq!(parsed, vec![metric("a", "1"), metric("b", "2.5"), metric("k", "v"), metric("c", "3")]);
}

#[test]
fn statsd_colon_after_pipe_is_ignored() {
    assert_eq!(parse_metrics(b"key|g:5\n"), vec![]);
    assert_eq!(parse_metrics(b""), vec![]);
    assert_eq!(parse_metrics(b"x:|g"), vec![metric("x", "")]);
}

#[test]
fn metric_buffer_drains_once() {
    let mut buf = MetricBuffer::new();
    buf.push_datagram(b"a:1|g\n");
    buf.push_datagram(b"b:2|g\n");
    assert_eq!(buf.data, b"a:1|g\nb:2|g\n".to_vec());
    assert_eq!(buf.drain(), vec![metric("a", "1"), metric("b", "2")]);
    assert!(buf.data.is_empty());
    assert_eq!(buf.drain(), vec![]);
}

fn finish_iteration(session: &mut Session, code: Option<i32>, n: usize) {
    assert_eq!(session.next_action(), Action::RunIteration);
    session.on_iteration_end(code, vec![metric("i", &n.to_string())]);
}

#[test]
fn session_reports_every_iteration() {
    let mut session = Session::new(3, false, false);
    for n in 0..3 {
        finish_iteration(&mut session, Some(0), n);
    }
    assert_eq!(session.next_action(), Action::Report);
    assert_eq!(session.results().len(), 3);
    assert_eq!(session.results()[2], vec![metric("i", "2")]);
}

#[test]
fn session_with_setup_and_teardown() {
    let mut session = Session::new(2, true, true);
    for n in 0..2 {
        assert_eq!(session.next_action(), Action::RunSetup { delay_secs: 0 });
        session.on_setup_exit(Some(1));
        assert_eq!(session.next_action(), Action::RunSetup { delay_secs: 1 });
        session.on_setup_exit(Some(0));
        finish_iteration(&mut session, Some(0), n);
        assert_eq!(session.next_action(), Action::RunTeardown { delay_secs: 0 });
        session.on_teardown_exit(Some(0));
    }
    assert_eq!(session.next_action(), Action::Report);
    assert_eq!(session.results().len(), 2);
}

#[test]
fn session_setup_that_never_succeeds_aborts() {
    let mut session = Session::new(5, true, false);
    let mut runs = 0;
    while let Action::RunSetup { .. } = session.next_action() {
        session.on_setup_exit(Some(1));
        runs += 1;
    }
    assert_eq!(runs, 100);
    assert_eq!(session.next_action(), Action::Abort(Abort::SetupExhausted));
    assert_eq!(abort_exit_code(Abort::SetupExhausted), 1);
    assert!(session.results().is_empty());
}

#[test]
fn session_tolerates_exit_130() {
    let mut session = Session::new(2, false, false);
    finish_iteration(&mut session, Some(130), 0);
    finish_iteration(&mut session, None, 1);
    assert_eq!(session.next_action(), Action::Report);
    assert_eq!(session.results().len(), 2);
}

#[test]
fn session_aborts_on_failed_command() {
    let mut session = Session::new(3, false, true);
    finish_iteration(&mut session, Some(2), 0);
    assert_eq!(session.phase, Phase::Aborted(Abort::CommandFailed(2)));
    assert_eq!(session.next_action(), Action::Abort(Abort::CommandFailed(2)));
    assert_eq!(abort_exit_code(Abort::CommandFailed(2)), 2);
    assert!(session.results().is_empty());
}

#[test]
fn summary_groups_values_by_key() {
    let its: Vec<Vec<(String, f64)>> = vec![
        vec![("x".to_owned(), 1.0), ("y".to_owned(), 5.0)],
        vec![("x".to_owned(), 3.0)],
    ];
    assert_eq!(distinct_keys(&its), vec!["x".to_owned(), "y".to_owned()]);
    assert_eq!(observations_of(&its, &"x".to_owned()), vec![1.0, 3.0]);
    let groups = group_by_key(&its);
    assert_eq!(groups, vec![("x".to_owned(), vec![1.0, 3.0]), ("y".to_owned(), vec![5.0])]);
    let xs = &groups[0].1;
    let mean = xs.iter().sum::<f64>() / xs.len() as f64;
    let var = xs.iter().map(|v| (v - mean) * (v - mean)).sum::<f64>() / xs.len() as f64;
    assert_eq!(mean, 2.0);
    assert_eq!(var.sqrt(), 1.0);
}

#[test]
fn summary_of_no_iterations_is_empty() {
    let its: Vec<Vec<(String, f64)>> = vec![vec![], vec![]];
    assert!(group_by_key(&its).is_empty());
}

#[test]
fn summary_record_drops_iterations() {
    let its: Vec<Vec<(String, f64)>> = vec![vec![("x".to_owned(), 1.0)], vec![("x".to_owned(), 3.0)]];
    let fields: Vec<(String, u32)> = vec![
        ("name".to_owned(), 0),
        ("version".to_owned(), 7),
        ("iterations".to_owned(), 1),
        ("variant".to_owned(), 2),
    ];
    let s = summarize_record(fields.clone(), &its);
    assert_eq!(s.others, vec![("version".to_owned(), 7)]);
    assert_eq!(s.summary, vec![("x".to_owned(), vec![1.0, 3.0])]);

    let mut table: SummaryTable<f64, u32> = SummaryTable::new();
    assert!(table.add_record(Some("t".to_owned()), Some("0".to_owned()), Some(its.clone()), fields.clone()));
    assert!(!table.add_record(Some("t".to_owned()), None, Some(its.clone()), fields.clone()));
    assert!(!table.add_record(Some("t".to_owned()), Some("0".to_owned()), None, fields.clone()));
    let later: Vec<Vec<(String, f64)>> = vec![vec![("y".to_owned(), 2.0)]];
    assert!(table.add_record(Some("t".to_owned()), Some("0".to_owned()), Some(later), vec![]));
    assert!(table.add_record(Some("t".to_owned()), Some("1".to_owned()), Some(its.clone()), vec![]));
    assert_eq!(table.entries.len(), 2);
    assert_eq!(table.entries[0].name, "t");
    assert_eq!(table.entries[0].variant, "0");
    assert_eq!(table.entries[0].iterations.len(), 3);
    assert_eq!(
        table.entries[0].summary.summary,
        vec![("x".to_owned(), vec![1.0, 3.0]), ("y".to_owned(), vec![2.0])]
    );
    assert!(table.entries[0].summary.others.is_empty());
    assert_eq!(table.entries[1].variant, "1");
    assert!(!table.entries[1].summary.summary.is_empty());
}

#[test]
fn encoded_metrics_parse_back() {
    let ms = vec![metric("wall.time", "1500"), metric("user.time", "-3"), metric("cpu.pct.wall.time", "12.5")];
    let text = encode_metrics(&ms);
    assert_eq!(text, b"wall.time:1500|g\nuser.time:-3|g\ncpu.pct.wall.time:12.5|g\n".to_vec());
    assert_eq!(parse_metrics(&text), ms);
    assert_eq!(encode_metrics(&vec![]), Vec::<u8>::new());
}

#[test]
fn summary_pools_records_of_one_variant() {
    let mut table: SummaryTable<f64, u32> = SummaryTable::new();
    let first: Vec<Vec<(String, f64)>> = vec![vec![("x".to_owned(), 1.0)]];
    let second: Vec<Vec<(String, f64)>> = vec![vec![("x".to_owned(), 3.0)]];
    assert!(table.add_record(Some("n".to_owned()), Some("v".to_owned()), Some(first), vec![]));
    assert!(table.add_record(Some("n".to_owned()), Some("v".to_owned()), Some(second), vec![("version".to_owned(), 4)]));
    assert_eq!(table.entries.len(), 1);
    let xs = &table.entries[0].summary.summary[0].1;
    assert_eq!(xs, &vec![1.0, 3.0]);
    let mean = xs.iter().sum::<f64>() / xs.len() as f64;
    let var = xs.iter().map(|v| (v - mean) * (v - mean)).sum::<f64>() / xs.len() as f64;
    assert_eq!(mean, 2.0);
    assert_eq!(var.sqrt(), 1.0);
    assert_eq!(xs.iter().cloned().fold(f64::INFINITY, f64::min), 1.0);
    assert_eq!(xs.iter().cloned().fold(f64::NEG_INFINITY, f64::max), 3.0);
    assert_eq!(table.entries[0].summary.others, vec![("version".to_owned(), 4)]);
}

#[test]
fn summary_companion_without_iterations_keeps_summary() {
    let mut table: SummaryTable<f64, u32> = SummaryTable::new();
    let its: Vec<Vec<(String, f64)>> = vec![vec![("x".to_owned(), 5.0)]];
    assert!(table.add_record(Some("n".to_owned()), Some("v".to_owned()), Some(its), vec![]));
    assert!(table.add_record(Some("n".to_owned()), Some("v".to_owned()), Some(vec![]), vec![]));
    assert_eq!(table.entries[0].summary.summary, vec![("x".to_owned(), vec![5.0])]);
}
