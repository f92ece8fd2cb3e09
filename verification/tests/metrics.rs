//! Buffers of samples, identities of instances and CSV files.

use multipath_xr::controller::metrics_api::{
    get_latest_metrics, instance_reply, is_ignored, latest_reply, names_reply,
    query_metric_endpoint,
};
use multipath_xr::controller::metrics_buffer::{
    in_memory_window_start_ms, row_capacity_for_duration_ms, timestamps_are_ordered,
    MetricFlushSnapshot, MetricInstanceBuffer, MetricRowRecord, MetricsLoggerError,
    NormalizedMetricRow, SourceKind, IN_MEMORY_ROW_HEADROOM, IN_MEMORY_WINDOW_MS,
    MAX_EXPECTED_SAMPLE_RATE_HZ, MAX_PENDING_ROWS_PER_INSTANCE, MAX_ROWS_PER_INSTANCE,
    PENDING_ROW_HEADROOM, PENDING_WRITE_PERIOD_HEADROOM, WRITE_PERIOD_MS,
};
use multipath_xr::controller::metrics_csv::{
    csv_file_name, values_in_order, write_csv_cell, write_csv_header, write_metric_rows_csv,
    CsvAction, CsvRow,
};
use multipath_xr::controller::metrics_identity::{
    agent_identity_from_parts, identity_extra_label_suffix, identity_mode_suffix,
    is_identity_base_label,
    prometheus_identity_from_metric, sanitize_label_value,
};
use multipath_xr::controller::metrics_logger::{
    wait_for_next_tick, AgentMetricsSnapshot, AgentPrometheusSample, AgentTargetMetricsSnapshot,
    MetricsLogger, PrometheusSample,
};
use multipath_xr::sorted_map::SortedMap;
use multipath_xr::string_map::StringMap;

fn values(pairs: &[(&str, f64)]) -> StringMap<f64> {
    let mut m = StringMap::new();
    for (k, v) in pairs {
        m.insert(k.to_string(), *v);
    }
    m
}

fn labels(pairs: &[(&str, &str)]) -> SortedMap<String> {
    let mut m = SortedMap::new();
    for (k, v) in pairs {
        m.insert(k.to_string(), v.to_string());
    }
    m
}

fn test_row(timestamp_ms: i64) -> NormalizedMetricRow<f64> {
    NormalizedMetricRow {
        timestamp_ms,
        source_kind: SourceKind::AgentWebsocket,
        identity: "agent__test_client".to_string(),
        values: values(&[("metric_a", timestamp_ms as f64)]),
    }
}

fn test_record(timestamp_ms: i64, values: StringMap<f64>) -> MetricRowRecord<f64> {
    MetricRowRecord { timestamp_ms, source_kind: SourceKind::AgentWebsocket, values }
}

/// A file of rows, kept in memory.
fn write_snapshot(contents: &mut Option<String>, snapshot: &MetricFlushSnapshot<f64>) {
    let rows: Vec<CsvRow> = snapshot
        .rows
        .iter()
        .map(|row| CsvRow {
            timestamp_ms: row.timestamp_ms,
            source_kind: row.source_kind,
            values: values_in_order(row, &snapshot.metric_names, f64::NAN)
                .iter()
                .map(|v| v.to_string())
                .collect(),
        })
        .collect();
    let lines: Option<Vec<String>> =
        contents.as_ref().map(|c| c.lines().map(|l| l.to_string()).collect());
    let action = write_metric_rows_csv(
        &snapshot.metric_names,
        &snapshot.previous_metric_names,
        &rows,
        snapshot.rewrite_existing,
        lines.as_ref(),
    );
    match action {
        CsvAction::Leave => {}
        CsvAction::Create(text) | CsvAction::Replace(text) => *contents = Some(text),
        CsvAction::Append(text) => contents.as_mut().unwrap().push_str(&text),
    }
}

#[test]
fn row_caps_are_derived_from_window_and_write_period() {
    assert_eq!(MAX_ROWS_PER_INSTANCE, 14_416);
    assert_eq!(MAX_PENDING_ROWS_PER_INSTANCE, 1_936);
    assert!(MAX_PENDING_ROWS_PER_INSTANCE < MAX_ROWS_PER_INSTANCE);
}

#[test]
fn row_caps_follow_from_the_formula() {
    assert_eq!(
        row_capacity_for_duration_ms(
            IN_MEMORY_WINDOW_MS,
            MAX_EXPECTED_SAMPLE_RATE_HZ,
            IN_MEMORY_ROW_HEADROOM
        ),
        MAX_ROWS_PER_INSTANCE
    );
    assert_eq!(
        row_capacity_for_duration_ms(
            WRITE_PERIOD_MS * PENDING_WRITE_PERIOD_HEADROOM,
            MAX_EXPECTED_SAMPLE_RATE_HZ,
            PENDING_ROW_HEADROOM
        ),
        MAX_PENDING_ROWS_PER_INSTANCE
    );
    assert_eq!(row_capacity_for_duration_ms(0, 120, 2), 16);
    assert_eq!(row_capacity_for_duration_ms(u64::MAX, 1, usize::MAX), usize::MAX);
}

#[test]
fn prometheus_identity_preserves_existing_layout_without_extra_labels() {
    let metric = labels(&[
        ("__name__", "freeze_events_total"),
        ("instance", "10.0.0.1:9090"),
        ("job", "dynamic_nodes"),
        ("mode", "receiver"),
        ("stream_id", "7"),
    ]);

    assert_eq!(
        prometheus_identity_from_metric(&metric),
        "prom__10_0_0_1_9090_receiver_sid_7"
    );
}

#[test]
fn prometheus_identity_splits_additional_labels_deterministically() {
    let metric = labels(&[
        ("__name__", "cache_bytes_served_total"),
        ("instance", "10.0.0.1:9090"),
        ("mode", "proxy"),
        ("tier", "disk"),
        ("transport", "flute"),
    ]);

    assert_eq!(
        prometheus_identity_from_metric(&metric),
        "prom__10_0_0_1_9090_proxy__tier_disk__transport_flute"
    );
}

#[test]
fn agent_identity_splits_additional_labels_without_changing_base_fields() {
    let target: AgentTargetMetricsSnapshot<f64> = AgentTargetMetricsSnapshot {
        port: 3380,
        source_ip: "11.0.2.2".to_string(),
        agent_node_id: "node-a".to_string(),
        source_instance: "11.0.2.2:3380".to_string(),
        scraped_at_ms: None,
        scrape_duration_ms: 0,
        scrape_ok: true,
        error: None,
        malformed_lines: 0,
        sample_count: 0,
        samples: Vec::new(),
    };
    let labels = labels(&[
        ("agent_node_id", "node-a"),
        ("agent_source_instance", "11.0.2.2:3380"),
        ("agent_source_ip", "11.0.2.2"),
        ("agent_source_port", "3380"),
        ("mode", "proxy"),
        ("stream_id", "camera-a"),
        ("tier", "mem"),
    ]);

    assert_eq!(
        agent_identity_from_parts(&target.source_instance, &labels),
        "agent__11_0_2_2_3380_proxy_sid_camera_a__tier_mem"
    );
}

#[test]
fn labels_are_made_fit_for_file_names() {
    assert_eq!(sanitize_label_value("a-b.c/\u{e9}1"), "a_b_c_\u{e9}1");
    assert_eq!(identity_mode_suffix("proxy", None), "proxy");
    assert!(is_identity_base_label("job"));
    assert!(!is_identity_base_label("tier"));
    assert_eq!(csv_file_name("prom:a"), "metrics_prom_a.csv");
}

#[test]
fn identities_do_not_depend_on_the_order_of_labels() {
    let a = labels(&[("b", "2"), ("a", "1"), ("instance", "x")]);
    let b = labels(&[("instance", "x"), ("a", "1"), ("b", "2")]);
    assert_eq!(prometheus_identity_from_metric(&a), prometheus_identity_from_metric(&b));
}

#[test]
fn metric_buffer_pops_front_for_ordered_window_eviction() {
    let mut buffer = MetricInstanceBuffer::new();

    for tick in 0..=350 {
        buffer.append(test_row(tick * 200));
    }

    assert_eq!(buffer.rows.front().unwrap().timestamp_ms, 10_000);
    assert_eq!(buffer.rows.back().unwrap().timestamp_ms, 70_000);
    assert_eq!(buffer.rows.len(), 301);
    assert_eq!(
        buffer.last_n("metric_a", 1, f64::NAN).unwrap(),
        vec![(70_000, 70_000.0)]
    );
}

#[test]
fn metric_buffer_full_trims_when_timestamps_arrive_out_of_order() {
    let mut buffer = MetricInstanceBuffer::new();

    buffer.append(test_row(10_000));
    buffer.append(test_row(20_000));
    buffer.append(test_row(15_000));
    buffer.append(test_row(80_000));

    let retained_timestamps =
        buffer.rows.iter().map(|row| row.timestamp_ms).collect::<Vec<_>>();
    assert_eq!(retained_timestamps, vec![20_000, 80_000]);
    assert!(buffer.timestamps_are_ordered);
}

#[test]
fn metric_buffer_caps_rows_when_samples_burst_within_window() {
    let mut buffer = MetricInstanceBuffer::new();

    for timestamp_ms in 0..(MAX_ROWS_PER_INSTANCE + 50) {
        buffer.append(test_row(timestamp_ms as i64));
    }

    assert_eq!(buffer.rows.len(), MAX_ROWS_PER_INSTANCE);
    assert_eq!(
        buffer.rows.back().unwrap().timestamp_ms,
        (MAX_ROWS_PER_INSTANCE + 49) as i64
    );
}

#[test]
fn metric_buffer_keeps_evicted_rows_pending_until_flush_succeeds() {
    let mut buffer = MetricInstanceBuffer::new();

    for tick in 0..=350 {
        buffer.append(test_row(tick * 200));
    }

    assert_eq!(buffer.rows.len(), 301);
    assert_eq!(buffer.pending_rows.len(), 351);

    let snapshot = buffer.flush_snapshot().unwrap();
    assert_eq!(snapshot.rows.len(), 351);
    buffer.mark_flush_succeeded(snapshot.pending_row_count, snapshot.metric_names);

    assert!(buffer.pending_rows.is_empty());
    assert_eq!(buffer.rows.len(), 301);
}

#[test]
fn metric_buffer_coalesces_pending_duplicate_until_flush_starts() {
    let mut buffer = MetricInstanceBuffer::new();

    buffer.append(test_row(1_000));
    buffer.append(test_row(1_000));
    assert_eq!(buffer.pending_rows.len(), 1);

    let snapshot = buffer.flush_snapshot().unwrap();
    assert_eq!(snapshot.rows.len(), 1);

    buffer.append(test_row(1_000));
    assert_eq!(buffer.pending_rows.len(), 2);
}

#[test]
fn metric_buffer_reads_windows_and_marks_what_is_missing() {
    let mut buffer = MetricInstanceBuffer::new();
    buffer.append(test_row(1_000));
    let mut other = test_row(2_000);
    other.values = values(&[("metric_b", 5.0)]);
    buffer.append(other);
    buffer.append(test_row(3_000));

    assert_eq!(buffer.metric_names(), vec!["metric_a", "metric_b"]);
    assert_eq!(
        buffer.window_ms("metric_a", 1_000, -1.0).unwrap(),
        vec![(2_000, -1.0), (3_000, 3_000.0)]
    );
    assert!(matches!(
        buffer.last_n("metric_c", 1, -1.0),
        Err(MetricsLoggerError::MissingData)
    ));
    assert!(timestamps_are_ordered(&buffer.rows));
    assert_eq!(in_memory_window_start_ms(100_000), 40_000);
    assert_eq!(in_memory_window_start_ms(i64::MIN), i64::MIN);
    assert!(MetricInstanceBuffer::<f64>::new().flush_snapshot().is_none());
}

#[test]
fn rows_in_writing_survive_later_rows() {
    let mut buffer = MetricInstanceBuffer::new();
    buffer.append(test_row(1_000));
    let snapshot = buffer.flush_snapshot().unwrap();
    buffer.append(test_row(2_000));
    buffer.mark_flush_succeeded(snapshot.pending_row_count, snapshot.metric_names);
    let left: Vec<i64> = buffer.pending_rows.iter().map(|r| r.timestamp_ms).collect();
    assert_eq!(left, vec![2_000]);
}

#[test]
fn metric_csv_appends_pending_rows_without_rewriting_existing_rows() {
    let mut contents = None;
    let first = MetricFlushSnapshot {
        metric_names: vec!["metric_a".to_string()],
        previous_metric_names: Vec::new(),
        rows: vec![test_record(1_000, values(&[("metric_a", 1.0)]))],
        pending_row_count: 1,
        rewrite_existing: false,
    };
    let second = MetricFlushSnapshot {
        metric_names: vec!["metric_a".to_string()],
        previous_metric_names: vec!["metric_a".to_string()],
        rows: vec![test_record(2_000, values(&[("metric_a", 2.0)]))],
        pending_row_count: 1,
        rewrite_existing: false,
    };

    write_snapshot(&mut contents, &first);
    write_snapshot(&mut contents, &second);

    assert_eq!(
        contents.unwrap(),
        "timestamp,source_kind,metric_a\n1000,agent_websocket,1\n2000,agent_websocket,2\n"
    );
}

#[test]
fn metric_csv_rewrites_header_once_when_schema_expands() {
    let mut contents = None;
    let first = MetricFlushSnapshot {
        metric_names: vec!["metric_a".to_string()],
        previous_metric_names: Vec::new(),
        rows: vec![test_record(1_000, values(&[("metric_a", 1.0)]))],
        pending_row_count: 1,
        rewrite_existing: false,
    };
    let expanded = MetricFlushSnapshot {
        metric_names: vec!["metric_a".to_string(), "metric_b".to_string()],
        previous_metric_names: vec!["metric_a".to_string()],
        rows: vec![test_record(2_000, values(&[("metric_a", 2.0), ("metric_b", 20.0)]))],
        pending_row_count: 1,
        rewrite_existing: true,
    };

    write_snapshot(&mut contents, &first);
    write_snapshot(&mut contents, &expanded);

    assert_eq!(
        contents.unwrap(),
        "timestamp,source_kind,metric_a,metric_b\n1000,agent_websocket,1,NaN\n2000,agent_websocket,2,20\n"
    );
}

#[test]
fn csv_cells_are_quoted_where_needed() {
    assert_eq!(write_csv_cell("plain"), "plain");
    assert_eq!(write_csv_cell("a,b"), "\"a,b\"");
    assert_eq!(write_csv_cell("say \"hi\""), "\"say \"\"hi\"\"\"");
    assert_eq!(
        write_csv_header(&vec!["m,1".to_string()]),
        "timestamp,source_kind,\"m,1\"\n"
    );
}

fn sample(name: &str, instance: &str, timestamp_ms: i64, value: f64) -> PrometheusSample<f64> {
    PrometheusSample {
        labels: labels(&[("__name__", name), ("instance", instance), ("mode", "receiver")]),
        timestamp_ms,
        value,
    }
}

fn filled_logger() -> MetricsLogger<f64> {
    let mut logger = MetricsLogger::new("measurements".to_string(), vec!["up".to_string()]);
    logger.collect_prometheus_rows(&vec![
        sample("fps", "b", 1_000, 30.0),
        sample("loss", "b", 1_000, 0.5),
        sample("fps", "a", 2_000, 60.0),
    ]);
    logger
}

#[test]
fn samples_of_an_instance_make_one_row() {
    let logger = filled_logger();
    assert_eq!(logger.list_instances(), vec!["prom__a_receiver", "prom__b_receiver"]);
    assert_eq!(
        logger.list_metrics_for_instance("prom__b_receiver").unwrap(),
        vec!["fps", "loss"]
    );
    assert!(matches!(
        logger.list_metrics_for_instance("prom__c"),
        Err(MetricsLoggerError::MissingData)
    ));
    assert_eq!(
        logger.get_last_n("prom__b_receiver", "fps", 5, f64::NAN).unwrap(),
        vec![(1_000, 30.0)]
    );
    assert_eq!(logger.list_metric_names(), vec!["fps", "loss", "up"]);
    let series = logger.query_metric_series("fps", None, 5, f64::NAN);
    assert_eq!(
        series,
        vec![
            ("prom__a_receiver".to_string(), vec![(2_000, 60.0)]),
            ("prom__b_receiver".to_string(), vec![(1_000, 30.0)]),
        ]
    );
}

#[test]
fn changed_instances_are_written_once() {
    let mut logger = filled_logger();
    let mut jobs = logger.flush_dirty_buffers();
    jobs.sort_by(|a, b| a.identity.cmp(&b.identity));
    assert_eq!(jobs.len(), 2);
    assert_eq!(jobs[0].identity, "prom__a_receiver");
    assert!(jobs[0].path.ends_with("metrics_prom__a_receiver.csv"));
    for job in jobs {
        logger.complete_flush(
            &job.identity,
            job.revision,
            job.snapshot.pending_row_count,
            job.snapshot.metric_names,
        );
    }
    assert!(logger.flush_dirty_buffers().is_empty());
}

#[test]
fn changes_while_writing_are_written_later() {
    let mut logger = filled_logger();
    let jobs = logger.flush_dirty_buffers();
    logger.collect_prometheus_rows(&vec![sample("fps", "a", 3_000, 61.0)]);
    for job in jobs {
        logger.complete_flush(
            &job.identity,
            job.revision,
            job.snapshot.pending_row_count,
            job.snapshot.metric_names,
        );
    }
    let again = logger.flush_dirty_buffers();
    assert_eq!(again.len(), 1);
    assert_eq!(again[0].identity, "prom__a_receiver");
    assert_eq!(again[0].snapshot.rows.len(), 1);
    assert_eq!(again[0].snapshot.rows[0].timestamp_ms, 3_000);
}

#[test]
fn agents_are_heard_while_the_logger_runs() {
    let snapshot = AgentMetricsSnapshot {
        node_id: "node-a".to_string(),
        last_scan_completed_at_ms: None,
        last_scan_duration_ms: None,
        scan_rounds_completed: 1,
        targets: vec![AgentTargetMetricsSnapshot {
            port: 3380,
            source_ip: "11.0.2.2".to_string(),
            agent_node_id: "node-a".to_string(),
            source_instance: "11.0.2.2:3380".to_string(),
            scraped_at_ms: Some(500),
            scrape_duration_ms: 1,
            scrape_ok: true,
            error: None,
            malformed_lines: 0,
            sample_count: 1,
            samples: vec![AgentPrometheusSample {
                metric_name: "fps".to_string(),
                labels: labels(&[("mode", "proxy")]),
                value: 24.0,
                timestamp_ms: None,
            }],
        }],
    };
    let mut logger: MetricsLogger<f64> = MetricsLogger::new("m".to_string(), Vec::new());
    assert!(logger.ingest_agent_snapshot(&snapshot, 900).is_err());
    assert!(logger.start().is_ok());
    assert!(matches!(logger.start(), Err(MetricsLoggerError::AlreadyRunning)));
    assert!(logger.ingest_agent_snapshot(&snapshot, 900).is_ok());
    assert_eq!(
        logger.get_last_n("agent__11_0_2_2_3380_proxy", "fps", 1, f64::NAN).unwrap(),
        vec![(500, 24.0)]
    );
    assert!(logger.stop().is_ok());
    assert!(matches!(logger.stop(), Err(MetricsLoggerError::NotRunning)));
}

#[test]
fn metrics_are_asked_for_in_batches() {
    let names: Vec<String> = (0..201).map(|i| format!("m{i}")).collect();
    let mut logger: MetricsLogger<f64> = MetricsLogger::new("m".to_string(), names);
    let queries = logger.query_metrics_batch();
    assert_eq!(queries.len(), 2);
    assert!(queries[1].contains("m200"));
    logger.refresh_metrics(&vec!["only".to_string()]);
    assert_eq!(logger.query_metrics_batch().len(), 1);
    logger.forget_asked_metrics();
    assert!(logger.query_metrics_batch().is_empty());
}

#[test]
fn ticks_that_are_long_past_are_skipped() {
    let period = 100u64;
    let on_time = wait_for_next_tick(50, 1, period, 95, 0);
    assert_eq!((on_time.wait_ns, on_time.next), (50, 2));
    let late = wait_for_next_tick(1_000, 1, period, 95, 0);
    assert!(late.next > 2);
}

#[test]
fn replies_have_the_status_of_their_error() {
    let (status, reply) =
        latest_reply("i".to_string(), "m".to_string(), Ok(vec![(1i64, 2.0)]));
    assert_eq!((status, reply.count), (200, 1));
    assert_eq!(reply.values, vec![(1, 2.0)]);
    let (status, reply) = latest_reply::<f64>(
        "i".to_string(),
        "m".to_string(),
        Err(MetricsLoggerError::MissingData),
    );
    assert_eq!((status, reply.error.as_deref()), (404, Some("MissingData")));
    let (status, reply) = latest_reply::<f64>(
        "i".to_string(),
        "m".to_string(),
        Err(MetricsLoggerError::Io("disk".to_string())),
    );
    assert_eq!((status, reply.error.as_deref()), (500, Some("Io(disk)")));

    let (status, reply) = names_reply(Ok(vec!["a".to_string()]));
    assert_eq!((status, reply.status, reply.data.len()), (200, "success", 1));
    let (status, reply) = names_reply(Err(MetricsLoggerError::LoggerNotInitialized));
    assert_eq!((status, reply.status), (404, "error"));
    assert_eq!(reply.error.as_deref(), Some("metrics logger not initialized"));
    let (status, reply) = names_reply(Err(MetricsLoggerError::TaskJoin("x".to_string())));
    assert_eq!((status, reply.error.as_deref()), (500, Some("TaskJoin(x)")));

    let (status, reply) =
        instance_reply("i".to_string(), Err(MetricsLoggerError::MissingData));
    assert_eq!(status, 404);
    assert_eq!(reply.error.as_deref(), Some("instance not found in metrics logger"));
    let (status, reply) = instance_reply("i".to_string(), Ok(vec!["fps".to_string()]));
    assert_eq!((status, reply.data[0].metrics.clone()), (200, vec!["fps".to_string()]));

    assert!(is_ignored(&MetricsLoggerError::NotRunning));
    assert!(!is_ignored(&MetricsLoggerError::MissingData));
}

#[test]
fn queries_are_answered_from_the_logger() {
    let logger = filled_logger();
    let (status, reply) = query_metric_endpoint(Some(&logger), " fps ", None, None, f64::NAN);
    assert_eq!((status, reply.data.len()), (200, 2));
    assert_eq!(reply.data[0].instance, "prom__a_receiver");
    assert_eq!(reply.data[0].metric, "fps");
    let (status, reply) = query_metric_endpoint(Some(&logger), "  ", None, None, f64::NAN);
    assert_eq!(status, 400);
    assert_eq!(reply.error.as_deref(), Some("query must be a single metric name"));
    let (status, _) = query_metric_endpoint::<f64>(None, "fps", None, None, f64::NAN);
    assert_eq!(status, 404);

    assert!(matches!(
        get_latest_metrics::<f64>(None, "i", "m", None, None, f64::NAN),
        Err(MetricsLoggerError::LoggerNotInitialized)
    ));
    assert_eq!(
        get_latest_metrics(Some(&logger), "prom__a_receiver", "fps", None, Some(10), 0.0)
            .unwrap(),
        vec![(2_000, 60.0)]
    );
}

#[test]
fn labels_of_every_instance_add_nothing_to_a_name() {
    let few = labels(&[("zone", "b"), ("tier", "a.1")]);
    let many = labels(&[("tier", "a.1"), ("job", "j"), ("mode", "m"), ("zone", "b")]);
    assert_eq!(identity_extra_label_suffix(&few), "__tier_a_1__zone_b");
    assert_eq!(identity_extra_label_suffix(&many), identity_extra_label_suffix(&few));
    assert_eq!(identity_extra_label_suffix(&labels(&[("instance", "x")])), "");
}
