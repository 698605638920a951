//! How the exporter is configured.

use vstd::prelude::*;

use crate::exporter::PrometheusExporter;
use crate::metric::{copy_numbers, copy_text, text};

verus! {

/// The shortest flush period, in seconds.
pub const MIN_FLUSH_PERIOD_SECS: u64 = 1;

/// Why no exporter can be built from a configuration. `E` is what the check of the quantiles has to
/// say.
#[derive(Debug)]
pub enum BuildError<E> {
    /// Flush period for sets must be greater or equal to `min` secs.
    FlushPeriodTooShort { min: u64 },
    /// The check of the quantiles failed.
    InvalidQuantiles { error: E },
}

/// An address to listen on. The numbers are those of the address, most significant byte first.
#[derive(Clone, Copy, Debug, PartialEq, Eq, Structural)]
pub enum ListenAddress {
    V4 { ipv4: u32, port: u16 },
    V6 { ipv6: u128, port: u16, flow_info: u32, scope_id: u32 },
}

/// The sort of events that a sink takes in.
#[derive(Clone, Copy, Debug, PartialEq, Eq, Structural)]
pub enum DataType {
    Any,
    Log,
    Metric,
}

/// The configuration of the exporter. Numbers with a fractional part are held as their bit
/// patterns, which nothing here takes apart.
#[derive(Debug)]
pub struct PrometheusExporterConfig {
    pub default_namespace: Option<String>,
    pub address: ListenAddress,
    pub buckets: Vec<u64>,
    pub quantiles: Vec<u64>,
    pub flush_period_secs: u64,
}

/// A configuration, as contracts speak of it.
#[verifier::ext_equal]
pub ghost struct ConfigView {
    pub default_namespace: Option<Seq<char>>,
    pub address: ListenAddress,
    pub buckets: Seq<u64>,
    pub quantiles: Seq<u64>,
    pub flush_period_secs: u64,
}

impl View for PrometheusExporterConfig {
    type V = ConfigView;

    open spec fn view(&self) -> ConfigView {
        ConfigView {
            default_namespace: text(self.default_namespace),
            address: self.address,
            buckets: self.buckets@,
            quantiles: self.quantiles@,
            flush_period_secs: self.flush_period_secs,
        }
    }
}

impl ConfigView {
    /// What building an exporter gives, where `check` is what the check of the quantiles has said:
    /// the error, or `None` if there is no error.
    pub open spec fn build_error<E>(self, check: Result<(), E>) -> Option<BuildError<E>> {
        if self.flush_period_secs < MIN_FLUSH_PERIOD_SECS {
            Some(BuildError::FlushPeriodTooShort { min: MIN_FLUSH_PERIOD_SECS })
        } else {
            match check {
                Err(error) => Some(BuildError::InvalidQuantiles { error }),
                Ok(_) => None,
            }
        }
    }
}

/// Port 9598 of every IPv4 interface.
pub fn default_address() -> (address: ListenAddress)
    ensures
        address == (ListenAddress::V4 { ipv4: 0, port: 9598 }),
{
    ListenAddress::V4 { ipv4: 0, port: 9598 }
}

/// A minute.
pub fn default_flush_period_secs() -> (secs: u64)
    ensures
        secs == 60,
{
    60
}

impl Clone for PrometheusExporterConfig {
    fn clone(&self) -> (copy: PrometheusExporterConfig)
        ensures
            copy@ == self@,
    {
        PrometheusExporterConfig {
            default_namespace: copy_text(&self.default_namespace),
            address: self.address,
            buckets: copy_numbers(&self.buckets),
            quantiles: copy_numbers(&self.quantiles),
            flush_period_secs: self.flush_period_secs,
        }
    }
}

impl PrometheusExporterConfig {
    /// The default configuration, given the default buckets and quantiles.
    pub fn default(buckets: Vec<u64>, quantiles: Vec<u64>) -> (config: PrometheusExporterConfig)
        ensures
            config@ == (ConfigView {
                default_namespace: None,
                address: ListenAddress::V4 { ipv4: 0, port: 9598 },
                buckets: buckets@,
                quantiles: quantiles@,
                flush_period_secs: 60,
            }),
    {
        PrometheusExporterConfig {
            default_namespace: None,
            address: default_address(),
            buckets,
            quantiles,
            flush_period_secs: default_flush_period_secs(),
        }
    }

    /// An exporter with this configuration. `quantiles` is what the check of the quantiles has
    /// said; it does not matter if the flush period is too short.
    pub fn build<E>(&self, quantiles: Result<(), E>) -> (built: Result<
        PrometheusExporter,
        BuildError<E>,
    >)
        ensures
            match self@.build_error(quantiles) {
                Some(error) => built == Err::<PrometheusExporter, BuildError<E>>(error),
                None => built matches Ok(exporter) && exporter.is_new(self@),
            },
    {
        if self.flush_period_secs < MIN_FLUSH_PERIOD_SECS {
            return Err(BuildError::FlushPeriodTooShort { min: MIN_FLUSH_PERIOD_SECS });
        }
        match quantiles {
            Err(error) => Err(BuildError::InvalidQuantiles { error }),
            Ok(_) => Ok(PrometheusExporter::new(self.clone())),
        }
    }

    /// The exporter takes in metrics.
    pub fn input_type(&self) -> (input: DataType)
        ensures
            input == DataType::Metric,
    {
        DataType::Metric
    }

    /// The name of the sink.
    pub fn sink_type(&self) -> (name: &'static str)
        ensures
            name@ == "prometheus_exporter"@,
    {
        "prometheus_exporter"
    }

    /// The addresses that the exporter needs for itself.
    pub fn resources(&self) -> (addresses: Vec<ListenAddress>)
        ensures
            addresses@ == seq![self.address],
    {
        vec![self.address]
    }
}

/// The configuration under the sink's old name.
#[derive(Debug)]
pub struct PrometheusCompatConfig {
    pub config: PrometheusExporterConfig,
}

impl PrometheusCompatConfig {
    /// An exporter, as `PrometheusExporterConfig::build` gives it.
    pub fn build<E>(&self, quantiles: Result<(), E>) -> (built: Result<
        PrometheusExporter,
        BuildError<E>,
    >)
        ensures
            match self.config@.build_error(quantiles) {
                Some(error) => built == Err::<PrometheusExporter, BuildError<E>>(error),
                None => built matches Ok(exporter) && exporter.is_new(self.config@),
            },
    {
        self.config.build(quantiles)
    }

    /// The exporter takes in metrics.
    pub fn input_type(&self) -> (input: DataType)
        ensures
            input == DataType::Metric,
    {
        self.config.input_type()
    }

    /// The old name of the sink.
    pub fn sink_type(&self) -> (name: &'static str)
        ensures
            name@ == "prometheus"@,
    {
        "prometheus"
    }

    /// The addresses that the exporter needs for itself.
    pub fn resources(&self) -> (addresses: Vec<ListenAddress>)
        ensures
            addresses@ == seq![self.config.address],
    {
        self.config.resources()
    }
}

} // verus!
