//! How the exporter answers a request.

use indexmap::IndexSet;
use vstd::hash_set::StringHashSet;
use vstd::prelude::*;

use crate::expiring::{ExpiringMetric, ExpiringView};
use crate::metric::{Metric, MetricView};
use crate::store::stored;

verus! {

/// The error of the `http` crate for a text that is no URI.
#[verifier::external_type_specification]
#[verifier::external_body]
pub struct ExInvalidUri(hyper::http::uri::InvalidUri);

/// The path of the URI that the text is, if it is one.
pub uninterp spec fn uri_path(target: Seq<char>) -> Option<Seq<char>>;

/// The request target is no URI.
#[derive(Clone, Copy, Debug, PartialEq, Eq, Structural)]
pub struct InvalidTarget;

/// A request: what the answer depends on.
#[derive(Debug)]
pub struct Request {
    pub method: String,
    pub path: String,
}

/// A request, as contracts speak of it.
#[verifier::ext_equal]
pub ghost struct RequestView {
    pub method: Seq<char>,
    pub path: Seq<char>,
}

impl View for Request {
    type V = RequestView;

    open spec fn view(&self) -> RequestView {
        RequestView { method: self.method@, path: self.path@ }
    }
}

impl RequestView {
    /// Whether the request asks for the metrics.
    pub open spec fn is_scrape(self) -> bool {
        self.method == "GET"@ && self.path == "/metrics"@
    }
}

/// One part of the text of an answer, to be written by the encoder.
#[derive(Debug)]
pub enum Step<'a> {
    /// The header of the metrics that have the name of `metric`.
    Header { namespace: Option<&'a str>, metric: &'a Metric },
    /// The value of `metric`.
    Sample {
        namespace: Option<&'a str>,
        buckets: &'a [u64],
        quantiles: &'a [u64],
        expired: bool,
        metric: &'a Metric,
    },
}

/// A part of the text of an answer, as contracts speak of it.
#[verifier::ext_equal]
pub ghost enum StepView {
    Header { namespace: Option<Seq<char>>, metric: MetricView },
    Sample {
        namespace: Option<Seq<char>>,
        buckets: Seq<u64>,
        quantiles: Seq<u64>,
        expired: bool,
        metric: MetricView,
    },
}

pub open spec fn str_text(value: Option<&str>) -> Option<Seq<char>> {
    match value {
        Some(value) => Some(value@),
        None => None,
    }
}

impl<'a> View for Step<'a> {
    type V = StepView;

    open spec fn view(&self) -> StepView {
        match self {
            Step::Header { namespace, metric } => StepView::Header {
                namespace: str_text(*namespace),
                metric: metric@,
            },
            Step::Sample { namespace, buckets, quantiles, expired, metric } => StepView::Sample {
                namespace: str_text(*namespace),
                buckets: buckets@,
                quantiles: quantiles@,
                expired: *expired,
                metric: metric@,
            },
        }
    }
}

impl StepView {
    /// The metric that the step is about.
    pub open spec fn metric(self) -> MetricView {
        match self {
            StepView::Header { metric, .. } => metric,
            StepView::Sample { metric, .. } => metric,
        }
    }
}

/// An answer. Its text is what the steps of `body` write, in their order.
#[derive(Debug)]
pub struct Response<'a> {
    pub status: u16,
    pub content_type: Option<&'static str>,
    pub body: Vec<Step<'a>>,
}

/// An answer, as contracts speak of it.
#[verifier::ext_equal]
pub ghost struct ResponseView {
    pub status: u16,
    pub content_type: Option<Seq<char>>,
    pub body: Seq<StepView>,
}

pub open spec fn step_views<'a>(steps: Seq<Step<'a>>) -> Seq<StepView> {
    steps.map_values(|step: Step<'a>| step@)
}

impl<'a> View for Response<'a> {
    type V = ResponseView;

    open spec fn view(&self) -> ResponseView {
        ResponseView {
            status: self.status,
            content_type: str_text(self.content_type),
            body: step_views(self.body@),
        }
    }
}

/// What the encoder is given besides the metrics.
#[verifier::ext_equal]
pub ghost struct Encoding {
    pub namespace: Option<Seq<char>>,
    pub buckets: Seq<u64>,
    pub quantiles: Seq<u64>,
}

impl Encoding {
    pub open spec fn header(self, entry: ExpiringView) -> StepView {
        StepView::Header { namespace: self.namespace, metric: entry.metric }
    }

    pub open spec fn sample(self, entry: ExpiringView, now: int) -> StepView {
        StepView::Sample {
            namespace: self.namespace,
            buckets: self.buckets,
            quantiles: self.quantiles,
            expired: entry.is_expired(now),
            metric: entry.metric,
        }
    }
}

/// Whether one of `entries` has the name `name`.
pub open spec fn has_name(entries: Seq<ExpiringView>, name: Seq<char>) -> bool {
    exists|i: int| 0 <= i < entries.len() && (#[trigger] entries[i]).metric.name == name
}

/// The text about `entries` at `now`: the value of each, in their order, and before the first one
/// of each name the header of that name.
pub open spec fn exposition(
    encoding: Encoding,
    entries: Seq<ExpiringView>,
    now: int,
) -> Seq<StepView>
    decreases entries.len(),
{
    if entries.len() == 0 {
        seq![]
    } else {
        let before = exposition(encoding, entries.drop_last(), now);
        let entry = entries.last();
        if has_name(entries.drop_last(), entry.metric.name) {
            before.push(encoding.sample(entry, now))
        } else {
            before.push(encoding.header(entry)).push(encoding.sample(entry, now))
        }
    }
}

/// The answer to `request` at `now`, where `entries` is kept. Whoever asks for the metrics gets
/// them; whoever asks for something else is told that it is not there.
pub open spec fn answer(
    request: RequestView,
    encoding: Encoding,
    entries: Seq<ExpiringView>,
    now: int,
) -> ResponseView {
    if request.is_scrape() {
        ResponseView {
            status: 200,
            content_type: Some("text/plain; version=0.0.4"@),
            body: exposition(encoding, entries, now),
        }
    } else {
        ResponseView { status: 404, content_type: None, body: seq![] }
    }
}

/// `hyper::Uri`'s `FromStr::from_str`, and `Uri::path` of what it gives: the path of the URI that
/// the text is, or an error if it is none. What is a URI, and what its path is, is left to
/// `uri_path`.
#[verifier::external_body]
fn parse_path(target: &str) -> (path: Result<String, hyper::http::uri::InvalidUri>)
    ensures
        path is Ok <==> uri_path(target@) is Some,
        path matches Ok(path) ==> uri_path(target@) == Some(path@),
{
    match target.parse::<hyper::Uri>() {
        Ok(uri) => Ok(uri.path().to_string()),
        Err(error) => Err(error),
    }
}

/// `hyper::Method`'s `PartialEq<str>`, on `Method::GET`: whether `method` is the name of that
/// method, which is `GET`.
#[verifier::external_body]
fn is_get(method: &str) -> (answer: bool)
    ensures
        answer == (method@ == "GET"@),
{
    hyper::Method::GET == *method
}

/// The status of what `hyper::Response::new` gives: 200.
#[verifier::external_body]
fn new_response_status() -> (status: u16)
    ensures
        status == 200,
{
    hyper::Response::new(()).status().as_u16()
}

/// The number of `hyper::StatusCode::NOT_FOUND`: 404.
#[verifier::external_body]
fn not_found_status() -> (status: u16)
    ensures
        status == 404,
{
    hyper::StatusCode::NOT_FOUND.as_u16()
}

impl Request {
    /// The request with this method and this target.
    pub fn new(method: String, target: &str) -> (request: Result<Request, InvalidTarget>)
        ensures
            match uri_path(target@) {
                Some(path) => request matches Ok(request) && request@ == (RequestView {
                    method: method@,
                    path,
                }),
                None => request == Err::<Request, InvalidTarget>(InvalidTarget),
            },
    {
        match parse_path(target) {
            Ok(path) => Ok(Request { method, path }),
            Err(_) => Err(InvalidTarget),
        }
    }
}

/// The answer to `req` at `now`, where `metrics` is kept.
pub fn handle<'a>(
    req: &Request,
    default_namespace: Option<&'a str>,
    buckets: &'a [u64],
    quantiles: &'a [u64],
    metrics: &'a IndexSet<ExpiringMetric>,
    now: u128,
) -> (response: Response<'a>)
    ensures
        response@ == answer(
            req@,
            Encoding {
                namespace: str_text(default_namespace),
                buckets: buckets@,
                quantiles: quantiles@,
            },
            stored(*metrics),
            now as int,
        ),
{
    let mut response = Response {
        status: new_response_status(),
        content_type: None,
        body: Vec::new(),
    };
    if is_get(req.method.as_str()) && req.path == "/metrics".to_string() {
        response.body = expose(default_namespace, buckets, quantiles, metrics, now);
        response.content_type = Some("text/plain; version=0.0.4");
    } else {
        response.status = not_found_status();
        assert(step_views(response.body@) =~= seq![]);
    }
    response
}

/// The text about `metrics` at `now`.
fn expose<'a>(
    default_namespace: Option<&'a str>,
    buckets: &'a [u64],
    quantiles: &'a [u64],
    metrics: &'a IndexSet<ExpiringMetric>,
    now: u128,
) -> (body: Vec<Step<'a>>)
    ensures
        step_views(body@) == exposition(
            Encoding {
                namespace: str_text(default_namespace),
                buckets: buckets@,
                quantiles: quantiles@,
            },
            stored(*metrics),
            now as int,
        ),
{
    let ghost encoding = Encoding {
        namespace: str_text(default_namespace),
        buckets: buckets@,
        quantiles: quantiles@,
    };
    let ghost entries = stored(*metrics);
    let mut body: Vec<Step<'a>> = Vec::new();
    // output headers only once
    let mut processed_headers = StringHashSet::new();
    let count: usize = crate::store::len(metrics);
    assert(step_views(body@) =~= exposition(encoding, entries.take(0), now as int));
    for i in 0..count
        invariant
            entries == stored(*metrics),
            count == entries.len(),
            encoding == (Encoding {
                namespace: str_text(default_namespace),
                buckets: buckets@,
                quantiles: quantiles@,
            }),
            step_views(body@) == exposition(encoding, entries.take(i as int), now as int),
            forall|name: Seq<char>|
                processed_headers@.contains(name) <==> has_name(entries.take(i as int), name),
    {
        let ghost before = body@;
        let ghost known = entries.take(i as int);
        let ghost entry = entries[i as int];
        if let Some(item) = crate::store::get_index(metrics, i) {
            let metric = item.get_ref();
            if !processed_headers.contains(metric.name.as_str()) {
                body.push(Step::Header { namespace: default_namespace, metric });
                processed_headers.insert(metric.name.clone());
            }
            let ghost with_header = body@;
            body.push(
                Step::Sample {
                    namespace: default_namespace,
                    buckets,
                    quantiles,
                    expired: item.is_expired(now),
                    metric,
                },
            );
            proof {
                assert(entries.take(i + 1).drop_last() =~= known);
                assert(step_views(body@) =~= step_views(with_header).push(
                    encoding.sample(entry, now as int),
                ));
                if !has_name(known, entry.metric.name) {
                    assert(step_views(with_header) =~= step_views(before).push(
                        encoding.header(entry),
                    ));
                }
                assert forall|name: Seq<char>|
                    processed_headers@.contains(name) <==> has_name(entries.take(i + 1), name) by {
                    lemma_has_name_push(known, entry, name);
                    assert(entries.take(i + 1) =~= known.push(entry));
                }
            }
        }
    }
    assert(entries.take(count as int) =~= entries);
    body
}

/// A name is among more entries if it was before or is that of the entry that was added.
pub(crate) proof fn lemma_has_name_push(
    entries: Seq<ExpiringView>,
    entry: ExpiringView,
    name: Seq<char>,
)
    ensures
        has_name(entries.push(entry), name) <==> has_name(entries, name) || entry.metric.name
            == name,
{
    let more = entries.push(entry);
    if has_name(entries, name) {
        let i = choose|i: int|
            0 <= i < entries.len() && (#[trigger] entries[i]).metric.name == name;
        assert(more[i].metric.name == name);
    }
    if entry.metric.name == name {
        assert(more[entries.len() as int].metric.name == name);
    }
    if has_name(more, name) {
        let i = choose|i: int| 0 <= i < more.len() && (#[trigger] more[i]).metric.name == name;
        if i < entries.len() {
            assert(entries[i].metric.name == name);
        }
    }
}

} // verus!
