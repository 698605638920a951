use prometheus_exporter::{
    default_address, default_flush_period_secs, BuildError, DataType, ListenAddress,
    PrometheusCompatConfig, PrometheusExporterConfig, MIN_FLUSH_PERIOD_SECS,
};

fn config(flush_period_secs: u64) -> PrometheusExporterConfig {
    PrometheusExporterConfig {
        default_namespace: Some("service".to_owned()),
        address: ListenAddress::V6 {
            ipv6: 1,
            port: 9101,
            flow_info: 0,
            scope_id: 3,
        },
        buckets: vec![0.5f64.to_bits(), 1.0f64.to_bits()],
        quantiles: vec![0.99f64.to_bits()],
        flush_period_secs,
    }
}

#[test]
fn defaults() {
    assert_eq!(
        default_address(),
        ListenAddress::V4 {
            ipv4: 0,
            port: 9598
        }
    );
    assert_eq!(default_flush_period_secs(), 60);

    let config = PrometheusExporterConfig::default(vec![1, 2], vec![3]);
    assert_eq!(config.default_namespace, None);
    assert_eq!(config.address, default_address());
    assert_eq!(config.buckets, vec![1, 2]);
    assert_eq!(config.quantiles, vec![3]);
    assert_eq!(config.flush_period_secs, 60);
}

#[test]
fn flush_period_too_short() {
    match config(0).build(Ok::<(), String>(())) {
        Err(BuildError::FlushPeriodTooShort { min }) => assert_eq!(min, 1),
        _ => panic!("a flush period of no seconds was accepted"),
    }
    assert_eq!(MIN_FLUSH_PERIOD_SECS, 1);
}

#[test]
fn shortest_flush_period() {
    assert!(config(1).build(Ok::<(), String>(())).is_ok());
}

#[test]
fn invalid_quantiles() {
    match config(60).build(Err("not a quantile".to_owned())) {
        Err(BuildError::InvalidQuantiles { error }) => assert_eq!(error, "not a quantile"),
        _ => panic!("invalid quantiles were accepted"),
    }
}

#[test]
fn flush_period_is_looked_at_first() {
    assert!(matches!(
        config(0).build(Err("not a quantile".to_owned())),
        Err(BuildError::FlushPeriodTooShort { min: 1 })
    ));
}

#[test]
fn sink_description() {
    let config = config(60);
    assert_eq!(config.input_type(), DataType::Metric);
    assert_eq!(config.sink_type(), "prometheus_exporter");
    assert_eq!(config.resources(), vec![config.address]);
}

#[test]
fn old_name_of_the_sink() {
    let compat = PrometheusCompatConfig { config: config(60) };
    assert_eq!(compat.input_type(), DataType::Metric);
    assert_eq!(compat.sink_type(), "prometheus");
    assert_eq!(compat.resources(), vec![compat.config.address]);
    assert!(compat.build(Ok::<(), String>(())).is_ok());
    assert!(matches!(
        compat.build(Err(7)),
        Err(BuildError::InvalidQuantiles { error: 7 })
    ));
    let compat = PrometheusCompatConfig { config: config(0) };
    assert!(matches!(
        compat.build(Ok::<(), String>(())),
        Err(BuildError::FlushPeriodTooShort { min: 1 })
    ));
}

#[test]
fn clone_keeps_the_configuration() {
    let config = config(17);
    let copy = config.clone();
    assert_eq!(copy.default_namespace, config.default_namespace);
    assert_eq!(copy.address, config.address);
    assert_eq!(copy.buckets, config.buckets);
    assert_eq!(copy.quantiles, config.quantiles);
    assert_eq!(copy.flush_period_secs, 17);
}

#[test]
fn server_is_started_once() {
    let mut exporter = config(60).build(Ok::<(), String>(())).unwrap();
    let started = exporter.start_server_if_needed(|address| Ok::<_, String>(address));
    assert_eq!(started, Some(Ok(config(60).address)));
    let again = exporter.start_server_if_needed(|_| -> Result<(), String> { unreachable!() });
    assert!(again.is_none());
    let again = exporter.start_server_if_needed(|_| -> Result<(), String> { unreachable!() });
    assert!(again.is_none());
}

#[test]
fn server_that_was_not_started_is_tried_again() {
    let mut exporter = config(60).build(Ok::<(), String>(())).unwrap();
    let started = exporter.start_server_if_needed(|_| Err::<(), _>("address in use"));
    assert_eq!(started, Some(Err("address in use")));
    let started = exporter.start_server_if_needed(|_| Ok::<_, String>(7));
    assert_eq!(started, Some(Ok(7)));
    let again = exporter.start_server_if_needed(|_| Ok::<_, String>(8));
    assert_eq!(again, None);
}
