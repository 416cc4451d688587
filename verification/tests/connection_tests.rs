use tonic_debug::connection::{format_connections, ConnectionMetrics, ConnectionTrackerLayer};

#[test]
fn test_connection_metrics() {
    let metrics = ConnectionMetrics::new();
    assert_eq!(metrics.total_connections(), 0);
    assert_eq!(metrics.active_connections(), 0);
    assert_eq!(metrics.connection_errors(), 0);

    metrics.on_connect();
    assert_eq!(metrics.total_connections(), 1);
    assert_eq!(metrics.active_connections(), 1);

    metrics.on_connect();
    assert_eq!(metrics.total_connections(), 2);
    assert_eq!(metrics.active_connections(), 2);

    metrics.on_disconnect();
    assert_eq!(metrics.active_connections(), 1);

    metrics.on_error();
    assert_eq!(metrics.connection_errors(), 1);
}

#[test]
fn test_connection_metrics_display() {
    let metrics = ConnectionMetrics::new();
    metrics.on_connect();
    let display = metrics.to_display_string();
    assert!(display.contains("total=1"));
    assert!(display.contains("active=1"));
    assert!(display.contains("errors=0"));
}

#[test]
fn test_metrics_shared_across_clones() {
    let metrics = ConnectionMetrics::new();
    let metrics2 = metrics.clone();

    metrics.on_connect();
    assert_eq!(metrics2.active_connections(), 1);

    metrics2.on_connect();
    assert_eq!(metrics.active_connections(), 2);
}

#[test]
fn test_connection_metrics_default() {
    let metrics = ConnectionMetrics::new();
    assert_eq!(metrics.active_connections(), 0);
    assert_eq!(metrics.total_connections(), 0);
    assert_eq!(metrics.connection_errors(), 0);
}

#[test]
fn connection_end_records_errors_and_disconnects() {
    let metrics = ConnectionMetrics::new();
    metrics.on_connect();
    metrics.on_connect();
    metrics.on_connection_end(false);
    assert_eq!(metrics.active_connections(), 1);
    assert_eq!(metrics.connection_errors(), 0);
    metrics.on_connection_end(true);
    assert_eq!(metrics.active_connections(), 0);
    assert_eq!(metrics.connection_errors(), 1);
    assert_eq!(metrics.total_connections(), 2);
}

#[test]
fn summary_text_is_exact() {
    assert_eq!(format_connections(12, 0, 3), "connections(total=12, active=0, errors=3)");
    let metrics = ConnectionMetrics::new();
    assert_eq!(metrics.to_display_string(), "connections(total=0, active=0, errors=0)");
}

#[test]
fn tracker_layer_shares_its_metrics() {
    let metrics = ConnectionMetrics::new();
    let layer = ConnectionTrackerLayer::with_metrics(metrics.clone());
    let service = layer.layer(());
    service.metrics().on_connect();
    assert_eq!(metrics.active_connections(), 1);
    assert_eq!(layer.metrics().total_connections(), 1);
    let fresh = ConnectionTrackerLayer::new();
    assert_eq!(fresh.metrics().total_connections(), 0);
}
