//! A Prometheus exporter: it takes in metrics, keeps one of each series, and shows what it keeps to
//! whoever asks for it.
//!
//! - [`metric`], [`string_set`], [`tags`] and [`expiring`]: metrics, what makes them belong to one
//!   series, and when they expire.
//! - [`store`]: the ordered set in which they are kept.
//! - [`exporter`]: what happens to a metric that comes in.
//! - [`http`]: how a request is answered.
//! - [`config`] and [`clock`]: the configuration, and the time.
//! - [`laws`]: what holds of all this as a whole.

pub mod clock;
pub mod config;
pub mod expiring;
pub mod exporter;
mod feeding;
pub mod http;
pub mod laws;
pub mod metric;
pub mod store;
pub mod string_set;
pub mod tags;

pub use clock::{Clock, MAX_NANOS, NANOS_PER_SEC};
pub use config::{
    default_address, default_flush_period_secs, BuildError, DataType, ListenAddress,
    PrometheusCompatConfig, PrometheusExporterConfig, MIN_FLUSH_PERIOD_SECS,
};
pub use expiring::ExpiringMetric;
pub use exporter::PrometheusExporter;
pub use http::{handle, InvalidTarget, Request, Response, Step};
pub use metric::{Metric, MetricEntry, MetricKind, MetricValue};
pub use string_set::StringSet;
pub use tags::Tags;
