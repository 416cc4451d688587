//! Configuration of the gRPC debug middleware.
//!
//! [`DebugLayer`] is the primary entry point: it carries a [`DebugConfig`] and
//! wraps a service in a [`DebugService`] that inspects and logs its traffic.
use vstd::prelude::*;
use crate::service::DebugService;

verus! {

/// Controls what the debug middleware captures and logs.
#[derive(Debug, Clone)]
pub struct DebugConfig {
    /// Log request headers.
    pub log_headers: bool,
    /// Log request and response bodies (protobuf inspection).
    pub log_bodies: bool,
    /// Log individual response body frames as they stream.
    pub log_response_frames: bool,
    /// Maximum number of bytes to capture for body inspection.
    pub max_body_bytes: usize,
    /// Include a hex dump of raw bytes in logs.
    pub hex_dump: bool,
}

impl DebugConfig {
    /// The default configuration: headers, bodies and frames logged, 4096 bytes
    /// captured, no hex dump.
    pub open spec fn is_default(self) -> bool {
        &&& self.log_headers
        &&& self.log_bodies
        &&& self.log_response_frames
        &&& self.max_body_bytes == 4096
        &&& !self.hex_dump
    }
}

impl Default for DebugConfig {
    fn default() -> (r: Self)
        ensures
            r.is_default(),
    {
        DebugConfig {
            log_headers: true,
            log_bodies: true,
            log_response_frames: true,
            max_body_bytes: 4096,
            hex_dump: false,
        }
    }
}

/// The gRPC debug middleware layer.
#[derive(Debug, Clone)]
pub struct DebugLayer {
    config: DebugConfig,
}

impl DebugLayer {
    /// The configuration that services made by this layer use.
    pub closed spec fn spec_config(self) -> DebugConfig {
        self.config
    }

    /// Creates a new `DebugLayer` with default configuration.
    ///
    /// By default, headers and bodies are logged, hex dumps are off.
    pub fn new() -> (r: Self)
        ensures
            r.spec_config().is_default(),
    {
        DebugLayer { config: DebugConfig::default() }
    }

    /// Creates a new `DebugLayer` with the given configuration.
    pub fn with_config(config: DebugConfig) -> (r: Self)
        ensures
            r.spec_config() == config,
    {
        DebugLayer { config }
    }

    /// Sets whether to log request/response headers.
    pub fn log_headers(self, enabled: bool) -> (r: Self)
        ensures
            r.spec_config() == (DebugConfig { log_headers: enabled, ..self.spec_config() }),
    {
        let mut layer = self;
        layer.config.log_headers = enabled;
        layer
    }

    /// Sets whether to log request/response bodies.
    pub fn log_bodies(self, enabled: bool) -> (r: Self)
        ensures
            r.spec_config() == (DebugConfig { log_bodies: enabled, ..self.spec_config() }),
    {
        let mut layer = self;
        layer.config.log_bodies = enabled;
        layer
    }

    /// Sets whether to log individual response body frames.
    pub fn log_response_frames(self, enabled: bool) -> (r: Self)
        ensures
            r.spec_config() == (DebugConfig { log_response_frames: enabled, ..self.spec_config() }),
    {
        let mut layer = self;
        layer.config.log_response_frames = enabled;
        layer
    }

    /// Sets the maximum number of bytes to capture for body inspection.
    pub fn max_body_bytes(self, max: usize) -> (r: Self)
        ensures
            r.spec_config() == (DebugConfig { max_body_bytes: max, ..self.spec_config() }),
    {
        let mut layer = self;
        layer.config.max_body_bytes = max;
        layer
    }

    /// Sets whether to include hex dumps in log output.
    pub fn hex_dump(self, enabled: bool) -> (r: Self)
        ensures
            r.spec_config() == (DebugConfig { hex_dump: enabled, ..self.spec_config() }),
    {
        let mut layer = self;
        layer.config.hex_dump = enabled;
        layer
    }

    /// The configuration that services made by this layer use.
    pub fn config(&self) -> (r: &DebugConfig)
        ensures
            *r == self.spec_config(),
    {
        &self.config
    }

    /// Wraps `inner` in a [`DebugService`] with this layer's configuration.
    pub fn layer<S>(&self, inner: S) -> (r: DebugService<S>)
        ensures
            r.spec_inner() == inner,
            r.spec_config() == self.spec_config(),
    {
        let config = DebugConfig {
            log_headers: self.config.log_headers,
            log_bodies: self.config.log_bodies,
            log_response_frames: self.config.log_response_frames,
            max_body_bytes: self.config.max_body_bytes,
            hex_dump: self.config.hex_dump,
        };
        DebugService::new(inner, config)
    }
}

impl Default for DebugLayer {
    fn default() -> (r: Self)
        ensures
            r.spec_config().is_default(),
    {
        DebugLayer::new()
    }
}

} // verus!
