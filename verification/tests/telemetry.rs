use vanyline_sandbox::telemetry::{metrics_response, render_metrics, METRICS_CONTENT_TYPE};

#[test]
fn render_metrics_without_recorder_is_none() {
    assert_eq!(render_metrics(None), None);
}

#[test]
fn render_metrics_with_a_handle_renders() {
    let recorder = metrics_exporter_prometheus::PrometheusBuilder::new().build_recorder();
    let handle = recorder.handle();
    assert!(render_metrics(Some(&handle)).is_some());
}

#[test]
fn metrics_response_ok_and_unavailable() {
    let ok = metrics_response(Some("x 1\n".to_string()));
    assert_eq!(ok.status, 200);
    assert_eq!(ok.content_type, Some("text/plain; version=0.0.4; charset=utf-8"));
    assert_eq!(ok.content_type, Some(METRICS_CONTENT_TYPE));
    assert_eq!(ok.body, "x 1\n");
    let none = metrics_response(None);
    assert_eq!(none.status, 503);
    assert_eq!(none.content_type, None);
    assert_eq!(none.body, "");
}
