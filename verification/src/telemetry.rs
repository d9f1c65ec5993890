//! The `/metrics` endpoint: rendering the Prometheus recorder's snapshot and
//! the response that carries it. The recorder itself is process-wide and is
//! installed by the caller.

use vstd::prelude::*;
use metrics_exporter_prometheus::PrometheusHandle;

verus! {

#[verifier::external_type_specification]
#[verifier::external_body]
pub struct ExPrometheusHandle(PrometheusHandle);

/// `PrometheusHandle::render`: a snapshot of the recorded metrics in the
/// Prometheus exposition format. What it holds depends on what was recorded
/// so far, so nothing is stated of it.
#[verifier::external_body]
fn render_snapshot(handle: &PrometheusHandle) -> (r: String) {
    handle.render()
}

/// The current snapshot of the installed recorder (`None` before one is
/// installed).
pub fn render_metrics(handle: Option<&PrometheusHandle>) -> (r: Option<String>)
    ensures
        r is Some <==> handle is Some,
{
    match handle {
        Some(h) => Some(render_snapshot(h)),
        None => None,
    }
}

/// Content type of the exposition format.
pub const METRICS_CONTENT_TYPE: &'static str = "text/plain; version=0.0.4; charset=utf-8";

/// The answer of `GET /metrics`.
#[derive(Debug, Clone, PartialEq, Eq)]
pub struct MetricsResponse {
    pub status: u16,
    pub content_type: Option<&'static str>,
    pub body: String,
}

/// `200` with the snapshot in the exposition format, or `503` with no body
/// when no recorder is installed.
pub fn metrics_response(rendered: Option<String>) -> (r: MetricsResponse)
    ensures
        match rendered {
            Some(b) => r.status == 200 && r.content_type == Some(METRICS_CONTENT_TYPE) && r.body == b,
            None => r.status == 503 && r.content_type is None && r.body@ == Seq::<char>::empty(),
        },
{
    match rendered {
        Some(b) => MetricsResponse { status: 200, content_type: Some(METRICS_CONTENT_TYPE), body: b },
        None => MetricsResponse { status: 503, content_type: None, body: String::new() },
    }
}

} // verus!
