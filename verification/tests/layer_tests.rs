use tonic_debug::{ConnectionMetrics, DebugConfig, DebugLayer, DebugService};

#[test]
fn test_debug_layer_default() {
    let layer = DebugLayer::new();
    // Should compile and create without panicking.
    let _ = layer;
}

#[test]
fn test_debug_layer_builder() {
    let layer = DebugLayer::new()
        .log_headers(false)
        .log_bodies(true)
        .log_response_frames(false)
        .max_body_bytes(1024)
        .hex_dump(true);
    let _ = layer;
}

#[test]
fn test_debug_config_default() {
    let config = DebugConfig::default();
    assert!(config.log_headers);
    assert!(config.log_bodies);
    assert!(config.log_response_frames);
    assert_eq!(config.max_body_bytes, 4096);
    assert!(!config.hex_dump);
}

#[test]
fn builder_sets_each_option() {
    let layer = DebugLayer::new()
        .log_headers(false)
        .log_bodies(true)
        .log_response_frames(false)
        .max_body_bytes(1024)
        .hex_dump(true);
    let c = layer.config();
    assert!(!c.log_headers);
    assert!(c.log_bodies);
    assert!(!c.log_response_frames);
    assert_eq!(c.max_body_bytes, 1024);
    assert!(c.hex_dump);
    let d = DebugLayer::default();
    assert_eq!(d.config().max_body_bytes, 4096);
}

#[test]
fn layer_passes_its_config_to_the_service() {
    let layer = DebugLayer::with_config(DebugConfig {
        log_headers: true,
        log_bodies: false,
        log_response_frames: true,
        max_body_bytes: 8192,
        hex_dump: false,
    });
    let service: DebugService<u8> = layer.layer(7u8);
    assert_eq!(service.config().max_body_bytes, 8192);
    let (inner, config) = service.into_parts();
    assert_eq!(inner, 7);
    assert!(!config.log_bodies);
    let _ = ConnectionMetrics::new();
}
