use jenkins_metrics::cli::{ConfigError, Options, DAY_MS, HOUR_MS, WEEK_MS};
use jenkins_metrics::metrics::{build_table, export, reference_instant};
use jenkins_metrics::report::{BuildResult, QueuingDetails, Report};
use jenkins_metrics::sample::{partition, ReportSample};
use jenkins_metrics::select::{select, sort_reports};
use jenkins_metrics::stats::{collect_metric, field_stats, mean, median, summarize, Metric};
use jenkins_metrics::store::{merge_batches, RecordStore};

fn queuing(duration: u64, blocked: u64, waiting: u64, buildable: u64) -> QueuingDetails {
    QueuingDetails { duration, blocked, waiting, buildable }
}

fn rec(build: &str, time: i64, duration: u64) -> Report {
    Report::new(
        build.to_string(),
        time,
        BuildResult::Success,
        duration,
        duration / 2,
        500_000,
        queuing(1000, 100, 200, 300),
    )
}

fn names(rs: &[Report]) -> Vec<String> {
    rs.iter().map(|r| r.build().to_string()).collect()
}

fn times(rs: &[Report]) -> Vec<i64> {
    rs.iter().map(|r| r.time()).collect()
}

fn options() -> Options {
    Options {
        metrics: vec!["a.json".to_string()],
        sample_size: None,
        filter: None,
        weeks: None,
        hours: None,
        days: None,
        verbose: false,
        now: false,
        today: false,
        debug: false,
    }
}

#[test]
fn queuing_getters_return_fields() {
    let q = queuing(1, 2, 3, 4);
    assert_eq!(q.duration(), 1);
    assert_eq!(q.blocked(), 2);
    assert_eq!(q.waiting(), 3);
    assert_eq!(q.buildable(), 4);
}

#[test]
fn report_getters_return_fields() {
    let r = Report::new("job".to_string(), 7, BuildResult::Failure, 10, 6, 250_000, queuing(4, 1, 2, 1));
    assert_eq!(r.build(), "job");
    assert_eq!(r.time(), 7);
    assert_eq!(r.duration(), 10);
    assert_eq!(r.executing(), 6);
    assert_eq!(r.executor_utilization(), 250_000);
    assert_eq!(*r.result(), BuildResult::Failure);
    assert_eq!(*r.queuing(), queuing(4, 1, 2, 1));
}

#[test]
fn build_result_defaults_to_unknown_and_orders_by_declaration() {
    assert_eq!(BuildResult::default(), BuildResult::Unknown);
    assert!(BuildResult::Unknown < BuildResult::Aborted);
    assert!(BuildResult::NotBuild < BuildResult::Success);
    assert!(BuildResult::Success < BuildResult::Unstable);
    assert_eq!(BuildResult::NotBuild.label(), "not_build");
    assert_eq!(BuildResult::Unknown.label(), "unknown");
    assert_eq!(BuildResult::Unstable.label(), "unstable");
}

#[test]
fn median_of_odd_count_is_middle_value() {
    assert_eq!(median(&vec![30, 10, 20]), 20);
    assert_eq!(median(&vec![10, 20, 30]), 20);
}

#[test]
fn median_of_even_count_is_mean_of_middle_pair() {
    assert_eq!(median(&vec![10, 20, 30, 40]), 25);
    assert_eq!(median(&vec![40, 10, 30, 20]), 25);
    assert_eq!(median(&vec![1, 2]), 1);
}

#[test]
fn median_and_mean_of_nothing_are_zero() {
    assert_eq!(median(&vec![]), 0);
    assert_eq!(mean(&vec![]), 0);
}

#[test]
fn median_with_ties_and_large_values() {
    assert_eq!(median(&vec![5, 5, 5]), 5);
    assert_eq!(median(&vec![u64::MAX, u64::MAX]), u64::MAX);
}

#[test]
fn mean_rounds_down() {
    assert_eq!(mean(&vec![1, 2]), 1);
    assert_eq!(mean(&vec![10, 20, 30, 41]), 25);
    assert_eq!(mean(&vec![u64::MAX, u64::MAX, u64::MAX]), u64::MAX);
}

#[test]
fn field_stats_in_display_units() {
    let f = field_stats(&vec![5_999, 7_000, 9_500]);
    assert_eq!(f.mean, 7_499);
    assert_eq!(f.median, 7_000);
    assert_eq!(f.mean_secs(), 7);
    assert_eq!(f.median_secs(), 7);
    let u = field_stats(&vec![600_000, 659_999]);
    assert_eq!(u.mean_hundredths(), 62);
}

#[test]
fn collect_metric_reads_each_field() {
    let rs = vec![rec("a", 1, 1000), rec("b", 2, 3000)];
    assert_eq!(collect_metric(&rs, Metric::Duration), vec![1000, 3000]);
    assert_eq!(collect_metric(&rs, Metric::Executing), vec![500, 1500]);
    assert_eq!(collect_metric(&rs, Metric::QueuingBlocked), vec![100, 100]);
    assert_eq!(collect_metric(&rs, Metric::QueuingWaiting), vec![200, 200]);
    assert_eq!(collect_metric(&rs, Metric::QueuingBuildable), vec![300, 300]);
    assert_eq!(collect_metric(&rs, Metric::ExecutorUtilization), vec![500_000, 500_000]);
}

#[test]
fn empty_bucket_summarizes_to_zero() {
    let st = summarize(&vec![]);
    assert_eq!(st.count, 0);
    for f in [
        st.duration,
        st.executing,
        st.executor_utilization,
        st.queuing_duration,
        st.queuing_blocked,
        st.queuing_waiting,
        st.queuing_buildable,
    ] {
        assert_eq!(f.mean, 0);
        assert_eq!(f.median, 0);
    }
}

#[test]
fn summarize_counts_and_averages() {
    let st = summarize(&vec![rec("a", 1, 10_000), rec("b", 2, 20_000), rec("c", 3, 40_000)]);
    assert_eq!(st.count, 3);
    assert_eq!(st.duration.mean, 23_333);
    assert_eq!(st.duration.median, 20_000);
    assert_eq!(st.executing.median, 10_000);
    assert_eq!(st.queuing_duration.mean, 1000);
}

#[test]
fn merge_keeps_first_record_per_build() {
    let a = vec![rec("x", 1, 10), rec("y", 2, 20)];
    let b = vec![rec("x", 3, 30), rec("z", 4, 40)];
    let m = merge_batches(vec![a, b]);
    assert_eq!(names(&m), vec!["x", "y", "z"]);
    assert_eq!(m[0].time(), 1);
}

#[test]
fn merging_a_batch_twice_changes_nothing() {
    let once = merge_batches(vec![vec![rec("x", 1, 10), rec("y", 2, 20), rec("x", 5, 50)]]);
    let twice = merge_batches(vec![
        vec![rec("x", 1, 10), rec("y", 2, 20), rec("x", 5, 50)],
        vec![rec("x", 1, 10), rec("y", 2, 20), rec("x", 5, 50)],
    ]);
    assert_eq!(names(&once), vec!["x", "y"]);
    assert_eq!(names(&once), names(&twice));
    assert_eq!(times(&once), times(&twice));
}

#[test]
fn record_store_collects_batches() {
    let mut s = RecordStore::new();
    s.insert_batch(vec![rec("a", 1, 1)]);
    s.insert_batch(vec![rec("a", 2, 2), rec("b", 3, 3)]);
    let r = s.into_records();
    assert_eq!(names(&r), vec!["a", "b"]);
    assert_eq!(times(&r), vec![1, 3]);
}

#[test]
fn sort_is_stable_for_equal_times() {
    let r = sort_reports(vec![rec("c", 5, 1), rec("a", 3, 1), rec("b", 5, 1), rec("d", 1, 1)]);
    assert_eq!(names(&r), vec!["d", "a", "c", "b"]);
}

#[test]
fn select_excludes_both_range_bounds() {
    let now = 1_000;
    let r = select(
        vec![rec("a", 900, 1), rec("b", 1_000, 1), rec("c", 950, 1), rec("d", 901, 1), rec("e", 999, 1)],
        now,
        100,
        &None,
    );
    assert_eq!(names(&r), vec!["d", "c", "e"]);
}

#[test]
fn select_applies_prefix() {
    let r = select(
        vec![rec("job-b", 5, 1), rec("other", 3, 1), rec("job-a", 4, 1), rec("jo", 2, 1)],
        10,
        100,
        &Some("job-".to_string()),
    );
    assert_eq!(names(&r), vec!["job-a", "job-b"]);
}

#[test]
fn partition_of_nothing_is_no_windows() {
    assert!(partition(vec![], 100, 10).is_empty());
}

#[test]
fn partition_covers_every_record_once_in_order() {
    let input = vec![rec("a", 11, 1), rec("b", 12, 1), rec("c", 35, 1), rec("d", 60, 1), rec("e", 99, 1)];
    let ws = partition(input, 100, 20);
    // span 89, 4 whole windows, first window starts at 100 - 20 * 5 = 0
    let all: Vec<i64> = ws.iter().flat_map(|w| times(w)).collect();
    assert_eq!(all, vec![11, 12, 35, 60, 99]);
    let per: Vec<Vec<i64>> = ws.iter().map(|w| times(w)).collect();
    assert_eq!(per, vec![vec![11, 12], vec![35], vec![60], vec![], vec![99]]);
}

#[test]
fn last_window_ends_at_now() {
    let ws = partition(vec![rec("a", 5, 1), rec("b", 95, 1)], 100, 30);
    // span 95, 3 whole windows: start 100 - 30 * 4 = -20; edges 10, 40, 70, 100
    let per: Vec<Vec<i64>> = ws.iter().map(|w| times(w)).collect();
    assert_eq!(per, vec![vec![5], vec![], vec![], vec![95]]);
}

#[test]
fn record_at_window_edge_belongs_to_earlier_window() {
    let ws = partition(vec![rec("a", 10, 1), rec("b", 40, 1), rec("c", 41, 1)], 100, 30);
    // start -20; edges 10, 40, 70, 100
    let per: Vec<Vec<i64>> = ws.iter().map(|w| times(w)).collect();
    assert_eq!(per, vec![vec![10], vec![40], vec![41]]);
}

#[test]
fn window_wider_than_span_gives_one_window() {
    let ws = partition(vec![rec("a", 50, 1), rec("b", 70, 1)], 100, 1_000);
    assert_eq!(ws.len(), 1);
    assert_eq!(times(&ws[0]), vec![50, 70]);
}

#[test]
fn sampler_hands_out_windows_until_done() {
    let mut s = ReportSample::new(vec![rec("a", 1, 1), rec("b", 25, 1)], 30, 10);
    // span 29, 2 whole windows: start 0; edges 10, 20, 30
    assert_eq!(times(&s.next().unwrap()), vec![1]);
    assert_eq!(times(&s.next().unwrap()), Vec::<i64>::new());
    assert_eq!(times(&s.next().unwrap()), vec![25]);
    assert!(s.next().is_none());
    assert!(s.next().is_none());
}

#[test]
fn options_duration_precedence_and_default() {
    let mut o = options();
    assert_eq!(o.duration(), Ok(8 * WEEK_MS));
    o.hours = Some(5);
    assert_eq!(o.duration(), Ok(5 * HOUR_MS));
    o.hours = None;
    o.days = Some(3);
    assert_eq!(o.duration(), Ok(3 * DAY_MS));
    assert_eq!(o.sample_size(), Ok(3 * DAY_MS));
    o.sample_size = Some(1);
    assert_eq!(o.sample_size(), Ok(DAY_MS));
}

#[test]
fn options_errors() {
    let mut o = options();
    o.days = Some(1);
    o.weeks = Some(1);
    assert_eq!(o.duration(), Err(ConfigError::ConflictingRanges));
    let mut o = options();
    o.hours = Some(0);
    assert_eq!(o.duration(), Err(ConfigError::NonPositiveWidth));
    o.hours = Some(i64::MAX);
    assert_eq!(o.duration(), Err(ConfigError::OutOfRange));
    let mut o = options();
    o.sample_size = Some(-2);
    assert_eq!(o.sample_size(), Err(ConfigError::NonPositiveWidth));
}

#[test]
fn options_getters() {
    let mut o = options();
    o.filter = Some("job".to_string());
    o.now = true;
    assert_eq!(o.metrics(), &vec!["a.json".to_string()]);
    assert_eq!(o.filter(), &Some("job".to_string()));
    assert!(o.now());
    assert!(!o.today());
    assert!(!o.verbose());
    assert!(!o.debug());
}

#[test]
fn reference_instant_policies() {
    let t = 3 * DAY_MS + 5_000;
    assert_eq!(reference_instant(t, true, false), t);
    assert_eq!(reference_instant(t, false, false), 3 * DAY_MS);
    assert_eq!(reference_instant(t, false, true), 4 * DAY_MS);
    assert_eq!(reference_instant(-1, false, false), -DAY_MS);
    assert_eq!(reference_instant(2 * DAY_MS, false, false), 2 * DAY_MS);
}

#[test]
fn end_to_end_single_window() {
    let t0: i64 = 1_700_000_000_000;
    let first = Report::new(
        "job-a".to_string(),
        t0,
        BuildResult::Success,
        5000,
        3000,
        600_000,
        queuing(2000, 500, 1000, 500),
    );
    let second = Report::new(
        "job-a".to_string(),
        t0 - 60_000,
        BuildResult::Success,
        9000,
        8000,
        900_000,
        queuing(1000, 0, 1000, 0),
    );
    let merged = merge_batches(vec![vec![first], vec![second]]);
    assert_eq!(merged.len(), 1);
    let now = t0 + HOUR_MS;
    let table = build_table(
        vec![
            vec![Report::new(
                "job-a".to_string(),
                t0,
                BuildResult::Success,
                5000,
                3000,
                600_000,
                queuing(2000, 500, 1000, 500),
            )],
            vec![Report::new(
                "job-a".to_string(),
                t0 - 60_000,
                BuildResult::Success,
                9000,
                8000,
                900_000,
                queuing(1000, 0, 1000, 0),
            )],
        ],
        now,
        DAY_MS,
        DAY_MS,
        &Some("job-".to_string()),
    );
    assert_eq!(table.rows.len(), 1);
    assert!(table.overall.is_none());
    let row = table.rows[0];
    assert_eq!(row.count, 1);
    assert_eq!(row.duration.mean_secs(), 5);
    assert_eq!(row.duration.median_secs(), 5);
    assert_eq!(row.executing.mean_secs(), 3);
    assert_eq!(row.executor_utilization.mean_hundredths(), 60);
}

#[test]
fn overall_row_when_sample_differs() {
    let now = 10 * DAY_MS;
    let table = build_table(
        vec![vec![rec("a", now - 3 * DAY_MS + 1, 2000), rec("b", now - 1, 4000), rec("c", now - 2 * DAY_MS + 5, 9000)]],
        now,
        4 * DAY_MS,
        DAY_MS,
        &None,
    );
    // span just under 3 days: 2 whole windows, 3 windows in all
    assert_eq!(table.rows.len(), 3);
    assert_eq!(table.rows[0].count, 1);
    assert_eq!(table.rows[1].count, 1);
    assert_eq!(table.rows[2].count, 1);
    let overall = table.overall.unwrap();
    assert_eq!(overall.count, 3);
    assert_eq!(overall.duration.mean_secs(), 5);
    assert_eq!(overall.duration.median_secs(), 4);
}

#[test]
fn empty_window_in_table_is_zero_row() {
    let now = 10 * DAY_MS;
    let table = build_table(
        vec![vec![rec("a", now - 3 * DAY_MS + 1, 2000), rec("b", now - 1, 4000)]],
        now,
        4 * DAY_MS,
        DAY_MS,
        &None,
    );
    assert_eq!(table.rows.len(), 3);
    assert_eq!(table.rows[1].count, 0);
    assert_eq!(table.rows[1].duration.mean, 0);
    assert_eq!(table.rows[1].duration.median, 0);
}

#[test]
fn export_merges_sorts_and_filters() {
    let r = export(
        vec![vec![rec("b", 5, 1), rec("a", 3, 1)], vec![rec("b", 7, 1), rec("c", 20, 1)]],
        10,
        9,
        &None,
    );
    assert_eq!(names(&r), vec!["a", "b"]);
    assert_eq!(times(&r), vec![3, 5]);
}

#[test]
fn reports_are_equal_by_build_name() {
    assert!(rec("x", 1, 10) == rec("x", 2, 20));
    assert!(rec("x", 1, 10) != rec("y", 1, 10));
}
