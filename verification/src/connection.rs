//! Connection lifecycle counters: connections accepted, connections active and
//! connection errors, shared by every clone of a [`ConnectionMetrics`].
use vstd::prelude::*;
use std::sync::Arc;
use std::sync::atomic::{AtomicU64, Ordering};
use crate::text::{decimal, push_radix};

verus! {

#[derive(Debug)]
struct ConnectionMetricsInner {
    total_connections: AtomicU64,
    active_connections: AtomicU64,
    connection_errors: AtomicU64,
}

/// Shared connection metrics. Clones share the same counters.
#[derive(Debug)]
pub struct ConnectionMetrics {
    inner: Arc<ConnectionMetricsInner>,
}

/// Another handle on the same counters.
/// Trusted: `Arc::clone` makes another pointer to the same allocation, so the
/// handle it returns refers to the value that `counters` refers to.
#[verifier::external_body]
fn share_counters(counters: &Arc<ConnectionMetricsInner>) -> (r: Arc<ConnectionMetricsInner>)
    ensures
        r == *counters,
{
    Arc::clone(counters)
}

impl Clone for ConnectionMetrics {
    /// Another handle on the same counters.
    fn clone(&self) -> (r: Self)
        ensures
            r == *self,
    {
        ConnectionMetrics { inner: share_counters(&self.inner) }
    }
}

/// How a snapshot of the counters is written.
pub open spec fn connections_text(total: u64, active: u64, errors: u64) -> Seq<char> {
    "connections(total="@ + decimal(total as nat) + ", active="@ + decimal(active as nat)
        + ", errors="@ + decimal(errors as nat) + ")"@
}

/// Writes a snapshot of the counters.
pub fn format_connections(total: u64, active: u64, errors: u64) -> (r: String)
    ensures
        r@ == connections_text(total, active, errors),
{
    let mut s = String::new();
    s.append("connections(total=");
    push_radix(&mut s, total, 10, 1);
    s.append(", active=");
    push_radix(&mut s, active, 10, 1);
    s.append(", errors=");
    push_radix(&mut s, errors, 10, 1);
    s.append(")");
    s
}

impl ConnectionMetrics {
    /// Creates a new `ConnectionMetrics` instance with every counter at zero.
    pub fn new() -> Self {
        ConnectionMetrics {
            inner: Arc::new(
                ConnectionMetricsInner {
                    total_connections: AtomicU64::new(0),
                    active_connections: AtomicU64::new(0),
                    connection_errors: AtomicU64::new(0),
                },
            ),
        }
    }

    /// Gets the total number of connections ever accepted.
    pub fn total_connections(&self) -> u64 {
        self.inner.total_connections.load(Ordering::Relaxed)
    }

    /// Gets the number of currently active connections.
    pub fn active_connections(&self) -> u64 {
        self.inner.active_connections.load(Ordering::Relaxed)
    }

    /// Gets the total number of connection errors.
    pub fn connection_errors(&self) -> u64 {
        self.inner.connection_errors.load(Ordering::Relaxed)
    }

    /// Records a new connection: one more accepted, one more active.
    pub fn on_connect(&self) {
        self.inner.total_connections.fetch_add(1, Ordering::Relaxed);
        self.inner.active_connections.fetch_add(1, Ordering::Relaxed);
    }

    /// Records a closed connection: one fewer active.
    pub fn on_disconnect(&self) {
        self.inner.active_connections.fetch_sub(1, Ordering::Relaxed);
    }

    /// Records a connection error.
    pub fn on_error(&self) {
        self.inner.connection_errors.fetch_add(1, Ordering::Relaxed);
    }

    /// Records the end of a connection's service: an error first when it
    /// failed, then the disconnection.
    pub fn on_connection_end(&self, failed: bool) {
        if failed {
            self.on_error();
        }
        self.on_disconnect();
    }

    /// The counters as text, as `connections(total=…, active=…, errors=…)`.
    pub fn to_display_string(&self) -> (r: String)
        ensures
            exists|total: u64, active: u64, errors: u64| r@ == connections_text(total, active, errors),
    {
        let total = self.total_connections();
        let active = self.active_connections();
        let errors = self.connection_errors();
        format_connections(total, active, errors)
    }
}

impl Default for ConnectionMetrics {
    fn default() -> Self {
        ConnectionMetrics::new()
    }
}

/// A layer that tracks connection lifecycle events in shared metrics.
#[derive(Debug, Clone)]
pub struct ConnectionTrackerLayer {
    metrics: ConnectionMetrics,
}

impl ConnectionTrackerLayer {
    pub closed spec fn spec_metrics(self) -> ConnectionMetrics {
        self.metrics
    }

    /// Creates a new `ConnectionTrackerLayer` with metrics of its own.
    pub fn new() -> Self {
        ConnectionTrackerLayer { metrics: ConnectionMetrics::new() }
    }

    /// Creates a new `ConnectionTrackerLayer` with shared metrics.
    pub fn with_metrics(metrics: ConnectionMetrics) -> (r: Self)
        ensures
            r.spec_metrics() == metrics,
    {
        ConnectionTrackerLayer { metrics }
    }

    /// Gets a reference to the connection metrics.
    pub fn metrics(&self) -> (r: &ConnectionMetrics)
        ensures
            *r == self.spec_metrics(),
    {
        &self.metrics
    }

    /// Wraps `inner` in a service that records its connections in this layer's metrics.
    pub fn layer<S>(&self, inner: S) -> (r: ConnectionTrackerService<S>)
        ensures
            r.spec_inner() == inner,
            r.spec_metrics() == self.spec_metrics(),
    {
        ConnectionTrackerService { inner, metrics: self.metrics.clone() }
    }
}

impl Default for ConnectionTrackerLayer {
    fn default() -> Self {
        ConnectionTrackerLayer::new()
    }
}

/// A service that tracks connection lifecycle events.
///
/// When used as the outer service in a server, each call represents a new
/// connection being established.
#[derive(Debug, Clone)]
pub struct ConnectionTrackerService<S> {
    inner: S,
    metrics: ConnectionMetrics,
}

impl<S> ConnectionTrackerService<S> {
    pub closed spec fn spec_inner(self) -> S {
        self.inner
    }

    pub closed spec fn spec_metrics(self) -> ConnectionMetrics {
        self.metrics
    }

    /// Gets a reference to the connection metrics.
    pub fn metrics(&self) -> (r: &ConnectionMetrics)
        ensures
            *r == self.spec_metrics(),
    {
        &self.metrics
    }

    /// Takes the service apart into the wrapped service and its metrics.
    pub fn into_parts(self) -> (r: (S, ConnectionMetrics))
        ensures
            r == (self.spec_inner(), self.spec_metrics()),
    {
        (self.inner, self.metrics)
    }
}

} // verus!
