//! Replies to requests for metrics.

use vstd::prelude::*;

use crate::controller::metrics_buffer::MetricsLoggerError;
use crate::controller::metrics_logger::MetricsLogger;
use crate::controller::router::{queried_metric, sample_count};

verus! {

/// The name of an error, with what it carries.
pub open spec fn error_name(e: MetricsLoggerError) -> Seq<char> {
    match e {
        MetricsLoggerError::Reqwest(m) => "Reqwest("@ + m@ + ")"@,
        MetricsLoggerError::Io(m) => "Io("@ + m@ + ")"@,
        MetricsLoggerError::Serde(m) => "Serde("@ + m@ + ")"@,
        MetricsLoggerError::TaskJoin(m) => "TaskJoin("@ + m@ + ")"@,
        MetricsLoggerError::MissingData => "MissingData"@,
        MetricsLoggerError::AlreadyRunning => "AlreadyRunning"@,
        MetricsLoggerError::NotRunning => "NotRunning"@,
        MetricsLoggerError::LoggerNotInitialized => "LoggerNotInitialized"@,
    }
}

impl MetricsLoggerError {
    /// The name of the error, with what it carries.
    pub fn name(&self) -> (r: String)
        ensures
            r@ == error_name(*self),
    {
        match self {
            MetricsLoggerError::Reqwest(m) => "Reqwest(".to_owned().concat(m.as_str()).concat(")"),
            MetricsLoggerError::Io(m) => "Io(".to_owned().concat(m.as_str()).concat(")"),
            MetricsLoggerError::Serde(m) => "Serde(".to_owned().concat(m.as_str()).concat(")"),
            MetricsLoggerError::TaskJoin(m) => "TaskJoin(".to_owned().concat(m.as_str()).concat(
                ")",
            ),
            MetricsLoggerError::MissingData => "MissingData".to_owned(),
            MetricsLoggerError::AlreadyRunning => "AlreadyRunning".to_owned(),
            MetricsLoggerError::NotRunning => "NotRunning".to_owned(),
            MetricsLoggerError::LoggerNotInitialized => "LoggerNotInitialized".to_owned(),
        }
    }
}

/// The latest values of a metric.
#[derive(Debug)]
pub struct MetricsLatestResponse<V> {
    pub instance: String,
    pub metric: String,
    pub count: usize,
    pub values: Vec<(i64, V)>,
    pub error: Option<String>,
}

/// Whether an error means that something does not exist.
pub open spec fn is_absence(e: MetricsLoggerError) -> bool {
    e is LoggerNotInitialized || e is MissingData || e is NotRunning
}

/// The reply with the latest values of a metric, and its status.
pub fn latest_reply<V>(
    instance: String,
    metric: String,
    values: Result<Vec<(i64, V)>, MetricsLoggerError>,
) -> (r: (u16, MetricsLatestResponse<V>))
    ensures
        r.1.instance == instance,
        r.1.metric == metric,
        match values {
            Ok(v) => r.0 == 200 && r.1.values == v && r.1.count == v@.len() && r.1.error is None,
            Err(e) => r.0 == (if is_absence(e) {
                404
            } else {
                500int
            }) && r.1.values@.len() == 0 && r.1.count == 0 && crate::text::opt_text(r.1.error)
                == Some(error_name(e)),
        },
{
    match values {
        Ok(values) => {
            let count: usize = values.len();
            (200, MetricsLatestResponse { instance, metric, count, values, error: None })
        },
        Err(e) => {
            let status: u16 = match e {
                MetricsLoggerError::LoggerNotInitialized
                | MetricsLoggerError::MissingData
                | MetricsLoggerError::NotRunning => 404,
                _ => 500,
            };
            (
                status,
                MetricsLatestResponse {
                    instance,
                    metric,
                    count: 0,
                    values: Vec::new(),
                    error: Some(e.name()),
                },
            )
        },
    }
}

/// How many values are asked for: sixty where it is not said.
pub open spec fn asked_count(n: Option<usize>) -> int {
    match n {
        Some(n) => n as int,
        None => 60,
    }
}

/// The values that are asked for: those within a duration where one is given, else the last
/// ones, sixty where their number is not given.
pub open spec fn are_latest_values<V: Copy>(
    r: Result<Vec<(i64, V)>, MetricsLoggerError>,
    logger: MetricsLogger<V>,
    instance: Seq<char>,
    metric: Seq<char>,
    n: Option<usize>,
    window_ms: Option<i64>,
    missing: V,
) -> bool {
    let buffers = logger.contents();
    let known = buffers.dom().contains(instance) && buffers[instance].names.contains(metric);
    match window_ms {
        Some(w) => if known && buffers[instance].rows.len() > 0 {
            r matches Ok(v) && crate::controller::metrics_buffer::is_series(
                v@,
                crate::controller::metrics_logger::windowed_values(
                    buffers[instance],
                    metric,
                    w as int,
                    missing,
                ),
            )
        } else {
            r matches Err(MetricsLoggerError::MissingData)
        },
        None => if known {
            r matches Ok(v) && crate::controller::metrics_buffer::is_series(
                v@,
                crate::controller::metrics_logger::last_values(
                    buffers[instance],
                    metric,
                    asked_count(n),
                    missing,
                ),
            )
        } else {
            r matches Err(MetricsLoggerError::MissingData)
        },
    }
}

/// The latest values of a metric of an instance.
pub fn get_latest_metrics<V: Copy>(
    logger: Option<&MetricsLogger<V>>,
    instance: &str,
    metric: &str,
    n: Option<usize>,
    window_ms: Option<i64>,
    missing: V,
) -> (r: Result<Vec<(i64, V)>, MetricsLoggerError>)
    requires
        logger matches Some(l) ==> l.wf(),
    ensures
        match logger {
            Some(l) => are_latest_values(r, *l, instance@, metric@, n, window_ms, missing),
            None => r matches Err(MetricsLoggerError::LoggerNotInitialized),
        },
{
    match logger {
        Some(l) => match window_ms {
            Some(w) => l.get_window_ms(instance, metric, w, missing),
            None => l.get_last_n(instance, metric, sample_count(n), missing),
        },
        None => Err(MetricsLoggerError::LoggerNotInitialized),
    }
}

/// A reply in the manner of Prometheus.
#[derive(Debug)]
pub struct PrometheusLikeResponse<T> {
    pub status: &'static str,
    pub data: Vec<T>,
    pub error: Option<String>,
}

/// The metrics of an instance.
#[derive(Debug)]
pub struct MetricsInstanceDetails {
    pub instance: String,
    pub metrics: Vec<String>,
}

/// The values of a metric of an instance.
#[derive(Debug)]
pub struct PrometheusLikeResultSeries<V> {
    pub metric: String,
    pub instance: String,
    pub values: Vec<(i64, V)>,
}

/// Whether a reply and its status say that a request has failed.
pub open spec fn is_failure<T>(
    r: (u16, PrometheusLikeResponse<T>),
    status: u16,
    error: Seq<char>,
) -> bool {
    &&& r.0 == status
    &&& r.1.status@ == "error"@
    &&& r.1.data@.len() == 0
    &&& crate::text::opt_text(r.1.error) == Some(error)
}

/// Whether a reply and its status give data.
pub open spec fn is_success<T>(r: (u16, PrometheusLikeResponse<T>), data: Seq<T>) -> bool {
    &&& r.0 == 200
    &&& r.1.status@ == "success"@
    &&& r.1.data@ == data
    &&& r.1.error is None
}

fn failure<T>(status: u16, error: String) -> (r: (u16, PrometheusLikeResponse<T>))
    ensures
        is_failure(r, status, error@),
{
    (status, PrometheusLikeResponse { status: "error", data: Vec::new(), error: Some(error) })
}

/// The reply with a list of names, and its status.
pub fn names_reply(names: Result<Vec<String>, MetricsLoggerError>) -> (r: (
    u16,
    PrometheusLikeResponse<String>,
))
    ensures
        match names {
            Ok(v) => is_success(r, v@),
            Err(e) => if e is LoggerNotInitialized {
                is_failure(r, 404, "metrics logger not initialized"@)
            } else {
                is_failure(r, 500, error_name(e))
            },
        },
{
    match names {
        Ok(data) => (200, PrometheusLikeResponse { status: "success", data, error: None }),
        Err(MetricsLoggerError::LoggerNotInitialized) => failure(
            404,
            "metrics logger not initialized".to_owned(),
        ),
        Err(e) => failure(500, e.name()),
    }
}

/// The reply with the metrics of an instance, and its status.
pub fn instance_reply(instance: String, metrics: Result<Vec<String>, MetricsLoggerError>) -> (r: (
    u16,
    PrometheusLikeResponse<MetricsInstanceDetails>,
))
    ensures
        match metrics {
            Ok(v) => is_success(r, seq![MetricsInstanceDetails { instance, metrics: v }]),
            Err(e) => if e is LoggerNotInitialized || e is MissingData {
                is_failure(r, 404, "instance not found in metrics logger"@)
            } else {
                is_failure(r, 500, error_name(e))
            },
        },
{
    match metrics {
        Ok(metrics) => {
            let data: Vec<MetricsInstanceDetails> = vec![
                MetricsInstanceDetails { instance, metrics },
            ];
            assert(data@ =~= seq![MetricsInstanceDetails { instance, metrics }]);
            (200, PrometheusLikeResponse { status: "success", data, error: None })
        },
        Err(MetricsLoggerError::LoggerNotInitialized | MetricsLoggerError::MissingData) => failure(
            404,
            "instance not found in metrics logger".to_owned(),
        ),
        Err(e) => failure(500, e.name()),
    }
}

/// Whether data are the values of a metric, instance by instance.
pub open spec fn are_result_series<V>(
    data: Seq<PrometheusLikeResultSeries<V>>,
    metric: Seq<char>,
    series: Seq<(String, Vec<(i64, V)>)>,
) -> bool {
    &&& data.len() == series.len()
    &&& forall|i: int|
        0 <= i < data.len() ==> (#[trigger] data[i]).metric@ == metric && data[i].instance
            == series[i].0 && data[i].values == series[i].1
}

/// The reply with the values of a metric, instance by instance, and its status.
pub fn series_reply<V>(
    metric: &str,
    series: Result<Vec<(String, Vec<(i64, V)>)>, MetricsLoggerError>,
) -> (r: (u16, PrometheusLikeResponse<PrometheusLikeResultSeries<V>>))
    ensures
        match series {
            Ok(v) => is_success(r, r.1.data@) && are_result_series(r.1.data@, metric@, v@),
            Err(e) => if e is LoggerNotInitialized {
                is_failure(r, 404, "metrics logger not initialized"@)
            } else {
                is_failure(r, 500, error_name(e))
            },
        },
{
    let series = match series {
        Ok(v) => v,
        Err(MetricsLoggerError::LoggerNotInitialized) => {
            return failure(404, "metrics logger not initialized".to_owned());
        },
        Err(e) => {
            return failure(500, e.name());
        },
    };
    let ghost given = series@;
    let mut rest = series;
    let mut data: Vec<PrometheusLikeResultSeries<V>> = Vec::new();
    assert(given.skip(0) =~= given);
    while rest.len() > 0
        invariant
            data@.len() <= given.len(),
            rest@ == given.skip(data@.len() as int),
            are_result_series(data@, metric@, given.take(data@.len() as int)),
        decreases rest.len(),
    {
        let ghost n = data@.len() as int;
        let (instance, values) = rest.remove(0);
        assert(rest@ =~= given.skip(n + 1));
        data.push(PrometheusLikeResultSeries { metric: metric.to_owned(), instance, values });
        assert forall|i: int| 0 <= i < data@.len() implies (#[trigger] data@[i]).metric@ == metric@
            && data@[i].instance == given.take(n + 1)[i].0 && data@[i].values == given.take(
            n + 1,
        )[i].1 by {
            if i < n {
                assert(given.take(n)[i] == given.take(n + 1)[i]);
            }
        }
    }
    assert(given.take(data@.len() as int) =~= given);
    (200, PrometheusLikeResponse { status: "success", data, error: None })
}

/// The reply to a query for a metric, and its status.
pub fn query_metric_endpoint<V: Copy>(
    logger: Option<&MetricsLogger<V>>,
    query: &str,
    instance: Option<&str>,
    n: Option<usize>,
    missing: V,
) -> (r: (u16, PrometheusLikeResponse<PrometheusLikeResultSeries<V>>))
    requires
        logger matches Some(l) ==> l.wf(),
    ensures
        if crate::text::trimmed(query@).len() == 0 {
            is_failure(r, 400, "query must be a single metric name"@)
        } else {
            match logger {
                None => is_failure(r, 404, "metrics logger not initialized"@),
                Some(l) => is_success(r, r.1.data@) && exists|
                    asked: Seq<Seq<char>>,
                    series: Seq<(String, Vec<(i64, V)>)>,
                |
                    (match instance {
                        Some(i) => asked == seq![i@],
                        None => crate::sorted_map::are_sorted_keys(asked, l.contents().dom()),
                    }) && #[trigger] crate::controller::metrics_logger::are_series_of(
                        series,
                        l.contents(),
                        asked,
                        crate::text::trimmed(query@),
                        asked_count(n),
                        missing,
                    ) && are_result_series(r.1.data@, crate::text::trimmed(query@), series),
            }
        },
{
    let metric = match queried_metric(query) {
        Ok(m) => m,
        Err(e) => {
            return failure(400, e);
        },
    };
    match logger {
        Some(l) => {
            let count: usize = sample_count(n);
            let series = l.query_metric_series(metric.as_str(), instance, count, missing);
            let ghost found = series@;
            let r = series_reply(metric.as_str(), Ok(series));
            assert(count == asked_count(n));
            assert(are_result_series(r.1.data@, metric@, found));
            r
        },
        None => failure(404, "metrics logger not initialized".to_owned()),
    }
}

/// Whether an error of taking samples is passed over.
pub fn is_ignored(e: &MetricsLoggerError) -> (r: bool)
    ensures
        r == (e is LoggerNotInitialized || e is NotRunning),
{
    match e {
        MetricsLoggerError::LoggerNotInitialized | MetricsLoggerError::NotRunning => true,
        _ => false,
    }
}

/// A missing logger, missing data and a logger that does not run are absences; nothing else is.
pub proof fn missing_things_are_absences(e: MetricsLoggerError)
    ensures
        is_absence(e) <==> e is LoggerNotInitialized || e is MissingData || e is NotRunning,
{
}

/// Sixty values are asked for where no number is given.
pub proof fn sixty_values_are_the_default(n: Option<usize>)
    ensures
        n is None ==> asked_count(n) == 60,
        n matches Some(k) ==> asked_count(n) == k,
{
}

/// Each series of an answer is that of its instance, under the metric that was asked for.
pub proof fn answers_keep_their_instances<V>(
    data: Seq<PrometheusLikeResultSeries<V>>,
    metric: Seq<char>,
    series: Seq<(String, Vec<(i64, V)>)>,
    i: int,
)
    requires
        are_result_series(data, metric, series),
        0 <= i < series.len(),
    ensures
        data.len() == series.len(),
        data[i].metric@ == metric,
        data[i].instance == series[i].0,
        data[i].values == series[i].1,
{
    assert(data[i].metric@ == metric);
}

} // verus!
