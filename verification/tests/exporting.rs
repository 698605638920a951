use indexmap::IndexSet;
use prometheus_exporter::{
    handle, ExpiringMetric, InvalidTarget, Metric, MetricKind, MetricValue, PrometheusExporter,
    PrometheusExporterConfig, Request, Step, StringSet, Tags, MAX_NANOS, NANOS_PER_SEC,
};

const GAUGE: u64 = 1;

fn set(values: &[&str]) -> MetricValue {
    let values = values.iter().map(|value| value.to_string()).collect();
    MetricValue::StringSet {
        values: StringSet::from_values(values),
    }
}

fn gauge(value: f64) -> MetricValue {
    MetricValue::Numeric {
        shape: vec![GAUGE],
        data: vec![value.to_bits()],
    }
}

fn tags(pairs: &[(&str, &str)]) -> Tags {
    let pairs = pairs.iter();
    Tags::from_pairs(
        pairs
            .map(|(name, value)| (name.to_string(), value.to_string()))
            .collect(),
    )
}

fn metric(name: &str, kind: MetricKind, value: MetricValue) -> Metric {
    Metric {
        name: name.to_owned(),
        namespace: None,
        timestamp: None,
        tags: Some(tags(&[("some_tag", "some_value")])),
        kind,
        value,
    }
}

fn increment(name: &str, value: MetricValue) -> Metric {
    metric(name, MetricKind::Incremental, value)
}

fn absolute(name: &str, value: MetricValue) -> Metric {
    metric(name, MetricKind::Absolute, value)
}

fn sum(kept: &Vec<u64>, increment: &Vec<u64>) -> Vec<u64> {
    kept.iter()
        .zip(increment)
        .map(|(a, b)| (f64::from_bits(*a) + f64::from_bits(*b)).to_bits())
        .collect()
}

fn exporter(flush_period_secs: u64) -> PrometheusExporter {
    let mut config = PrometheusExporterConfig::default(vec![1], vec![2, 3]);
    config.default_namespace = Some("service".to_owned());
    config.flush_period_secs = flush_period_secs;
    config.build(Ok::<(), ()>(())).unwrap()
}

fn secs(secs: u128) -> u128 {
    secs * NANOS_PER_SEC
}

fn scrape() -> Request {
    Request::new("GET".to_owned(), "/metrics").unwrap()
}

fn write_value(metric: &Metric) -> String {
    match &metric.value {
        MetricValue::StringSet { values } => values.len().to_string(),
        MetricValue::Numeric { data, .. } => f64::from_bits(data[0]).to_string(),
    }
}

fn write(steps: &[Step]) -> Vec<String> {
    steps
        .iter()
        .map(|step| match step {
            Step::Header { namespace, metric } => format!("# {:?} {}", namespace, metric.name),
            Step::Sample {
                namespace,
                buckets,
                quantiles,
                expired,
                metric,
            } => format!(
                "{:?} {:?} {:?} {} {} {}",
                namespace,
                buckets,
                quantiles,
                metric.name,
                write_value(metric),
                if *expired { "expired" } else { "live" }
            ),
        })
        .collect()
}

/// Name, value and mark of each metric that is shown, in order.
fn shown(exporter: &PrometheusExporter, now: u128) -> Vec<String> {
    let response = exporter.respond_at(&scrape(), now);
    response
        .body
        .iter()
        .filter_map(|step| match step {
            Step::Sample {
                expired, metric, ..
            } => Some(format!(
                "{} {} {}",
                metric.name,
                write_value(metric),
                if *expired { "expired" } else { "live" }
            )),
            Step::Header { .. } => None,
        })
        .collect()
}

#[test]
fn scrapes_metrics() {
    let mut exporter = exporter(60);
    let acknowledged = exporter.run_event_at(increment("vector_set_x", gauge(123.4)), 0, sum);
    assert_eq!(acknowledged, 1);

    let response = exporter.respond_at(&scrape(), secs(2));
    assert_eq!(response.status, 200);
    assert_eq!(response.content_type, Some("text/plain; version=0.0.4"));
    assert_eq!(
        write(&response.body),
        vec![
            "# Some(\"service\") vector_set_x",
            "Some(\"service\") [1] [2, 3] vector_set_x 123.4 live",
        ]
    );
    match &response.body[1] {
        Step::Sample { metric, .. } => {
            assert_eq!(metric.kind, MetricKind::Absolute);
            assert_eq!(
                metric.tags.as_ref().unwrap().pairs(),
                &vec![("some_tag".to_owned(), "some_value".to_owned())]
            );
        }
        _ => unreachable!(),
    }
}

#[test]
fn reset_on_flush_period() {
    let mut exporter = exporter(3);
    exporter.run_event_at(increment("one", set(&["0", "1", "2"])), 0, sum);
    exporter.run_event_at(increment("two", set(&["3", "4", "5"])), 1, sum);
    assert_eq!(shown(&exporter, secs(2)), vec!["one 3 live", "two 3 live"]);

    exporter.run_event_at(increment("one", set(&["6", "7"])), secs(5), sum);
    exporter.run_event_at(increment("two", set(&["8", "9"])), secs(5), sum);
    assert_eq!(shown(&exporter, secs(7)), vec!["one 2 live", "two 2 live"]);
    // the flush has been put off by a period
    assert_eq!(shown(&exporter, secs(8)), vec!["one 2 live", "two 2 live"]);
    assert_eq!(
        shown(&exporter, secs(8) + 1),
        vec!["one 2 expired", "two 2 expired"]
    );
}

#[test]
fn live_set_grows() {
    let mut exporter = exporter(3);
    exporter.run_event_at(increment("one", set(&["0", "1"])), 0, sum);
    exporter.run_event_at(increment("one", set(&["1", "2"])), secs(3), sum);
    assert_eq!(shown(&exporter, secs(3)), vec!["one 3 live"]);
    // the flush has stayed where it was
    assert_eq!(shown(&exporter, secs(3) + 1), vec!["one 3 expired"]);
    exporter.run_event_at(increment("one", set(&["2"])), secs(3) + 1, sum);
    assert_eq!(shown(&exporter, secs(3) + 1), vec!["one 1 live"]);
}

#[test]
fn numbers_never_start_over() {
    let mut exporter = exporter(1);
    exporter.run_event_at(increment("one", gauge(1.5)), 0, sum);
    exporter.run_event_at(increment("one", gauge(2.0)), secs(9), sum);
    assert_eq!(shown(&exporter, secs(9)), vec!["one 3.5 expired"]);
}

#[test]
fn last_absolute_metric_counts() {
    let mut exporter = exporter(1);
    exporter.run_event_at(absolute("one", gauge(1.5)), 0, sum);
    exporter.run_event_at(absolute("one", gauge(2.0)), secs(9), sum);
    assert_eq!(shown(&exporter, secs(10)), vec!["one 2 live"]);
    exporter.run_event_at(increment("one", gauge(0.25)), secs(10), sum);
    assert_eq!(shown(&exporter, secs(10)), vec!["one 2.25 live"]);
    exporter.run_event_at(absolute("one", set(&["a"])), secs(10), sum);
    assert_eq!(
        shown(&exporter, secs(10)),
        vec!["one 2.25 live", "one 1 live"]
    );
    exporter.run_event_at(absolute("one", set(&["b", "c"])), secs(10), sum);
    assert_eq!(
        shown(&exporter, secs(10)),
        vec!["one 2.25 live", "one 2 live"]
    );
}

#[test]
fn absolute_metrics_keep_their_place_and_increments_go_last() {
    let mut exporter = exporter(60);
    for name in ["a", "b", "c", "d"] {
        exporter.run_event_at(absolute(name, gauge(1.0)), 0, sum);
    }
    exporter.run_event_at(absolute("b", gauge(2.0)), 0, sum);
    assert_eq!(
        shown(&exporter, 0),
        vec!["a 1 live", "b 2 live", "c 1 live", "d 1 live"]
    );
    exporter.run_event_at(increment("a", gauge(4.0)), 0, sum);
    assert_eq!(
        shown(&exporter, 0),
        vec!["d 1 live", "b 2 live", "c 1 live", "a 5 live"]
    );
    exporter.run_event_at(increment("a", gauge(1.0)), 0, sum);
    assert_eq!(
        shown(&exporter, 0),
        vec!["d 1 live", "b 2 live", "c 1 live", "a 6 live"]
    );
    exporter.run_event_at(increment("e", gauge(1.0)), 0, sum);
    assert_eq!(
        shown(&exporter, 0),
        vec!["d 1 live", "b 2 live", "c 1 live", "a 6 live", "e 1 live"]
    );
}

#[test]
fn other_series_stay() {
    let mut exporter = exporter(60);
    let mut tagged = increment("a", gauge(1.0));
    tagged.tags = None;
    exporter.run_event_at(tagged, 0, sum);
    exporter.run_event_at(increment("a", gauge(2.0)), 0, sum);
    exporter.run_event_at(increment("a", gauge(3.0)), 0, sum);
    assert_eq!(shown(&exporter, 0), vec!["a 1 live", "a 5 live"]);
}

#[test]
fn order_of_tags_does_not_matter() {
    let mut exporter = exporter(60);
    let mut one = increment("a", gauge(1.0));
    one.tags = Some(tags(&[("x", "1"), ("y", "2")]));
    let mut other = increment("a", gauge(2.0));
    other.tags = Some(tags(&[("y", "2"), ("x", "1")]));
    exporter.run_event_at(one, 0, sum);
    exporter.run_event_at(other, 0, sum);
    assert_eq!(shown(&exporter, 0), vec!["a 3 live"]);
}

#[test]
fn headers_only_once() {
    let mut exporter = exporter(60);
    exporter.run_event_at(absolute("a", gauge(1.0)), 0, sum);
    exporter.run_event_at(absolute("b", gauge(2.0)), 0, sum);
    exporter.run_event_at(absolute("a", set(&["x"])), 0, sum);
    let mut other = absolute("a", gauge(3.0));
    other.namespace = Some("other".to_owned());
    exporter.run_event_at(other, 0, sum);

    let response = exporter.respond_at(&scrape(), 0);
    assert_eq!(
        write(&response.body),
        vec![
            "# Some(\"service\") a",
            "Some(\"service\") [1] [2, 3] a 1 live",
            "# Some(\"service\") b",
            "Some(\"service\") [1] [2, 3] b 2 live",
            "Some(\"service\") [1] [2, 3] a 1 live",
            "Some(\"service\") [1] [2, 3] a 3 live",
        ]
    );
}

#[test]
fn nothing_kept_yet() {
    let exporter = exporter(60);
    let response = exporter.respond_at(&scrape(), 0);
    assert_eq!(response.status, 200);
    assert_eq!(response.content_type, Some("text/plain; version=0.0.4"));
    assert!(response.body.is_empty());
}

#[test]
fn refused_requests_learn_nothing() {
    let mut exporter = exporter(60);
    exporter.run_event_at(absolute("a", gauge(1.0)), 0, sum);
    for (method, target) in [
        ("POST", "/metrics"),
        ("HEAD", "/metrics"),
        ("get", "/metrics"),
        ("GET", "/"),
        ("GET", "/metrics/"),
        ("GET", "/Metrics"),
        ("OPTIONS", "*"),
    ] {
        let request = Request::new(method.to_owned(), target).unwrap();
        let response = exporter.respond_at(&request, 0);
        assert_eq!(response.status, 404);
        assert_eq!(response.content_type, None);
        assert!(response.body.is_empty());
    }
}

#[test]
fn request_path() {
    for target in [
        "/metrics",
        "/metrics?name=a",
        "http://127.0.0.1:9598/metrics",
        "http://127.0.0.1:9598/metrics?name=a",
    ] {
        let request = Request::new("GET".to_owned(), target).unwrap();
        assert_eq!(request.method, "GET");
        assert_eq!(request.path, "/metrics");
        assert_eq!(exporter(60).respond_at(&request, 0).status, 200);
    }
    assert_eq!(
        Request::new("GET".to_owned(), "http://example.com").unwrap().path,
        "/"
    );
}

#[test]
fn invalid_target() {
    assert_eq!(
        Request::new("GET".to_owned(), "").unwrap_err(),
        InvalidTarget
    );
    assert_eq!(
        Request::new("GET".to_owned(), "/met rics").unwrap_err(),
        InvalidTarget
    );
}

#[test]
fn handle_shows_a_set_of_metrics() {
    let mut metrics: IndexSet<ExpiringMetric> = IndexSet::new();
    metrics.insert(ExpiringMetric::new(absolute("a", gauge(1.0)), 5));
    metrics.insert(ExpiringMetric::new(absolute("b", gauge(2.0)), 6));
    let response = handle(&scrape(), None, &[], &[7], &metrics, 6);
    assert_eq!(
        write(&response.body),
        vec![
            "# None a",
            "None [] [7] a 1 expired",
            "# None b",
            "None [] [7] b 2 live",
        ]
    );
}

#[test]
fn goes_by_the_clock() {
    let mut exporter = exporter(u64::MAX);
    assert_eq!(exporter.run_event(increment("a", set(&["0", "1"])), sum), 1);
    assert_eq!(exporter.run_event(increment("a", set(&["2"])), sum), 1);
    assert_eq!(exporter.run_event(absolute("b", gauge(2.0)), sum), 1);
    let response = exporter.respond(&scrape());
    assert_eq!(response.status, 200);
    assert_eq!(
        write(&response.body),
        vec![
            "# Some(\"service\") a",
            "Some(\"service\") [1] [2, 3] a 3 live",
            "# Some(\"service\") b",
            "Some(\"service\") [1] [2, 3] b 2 live",
        ]
    );
    assert_eq!(MAX_NANOS, u128::from(u64::MAX) * NANOS_PER_SEC + 999_999_999);
}
