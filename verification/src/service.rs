//! The service that intercepts gRPC requests and responses, and the rules it
//! applies to what it logs.
use vstd::prelude::*;
use crate::layer::DebugConfig;

verus! {

/// A service that intercepts and logs gRPC requests and responses.
#[derive(Debug, Clone)]
pub struct DebugService<S> {
    inner: S,
    config: DebugConfig,
}

impl<S> DebugService<S> {
    /// The wrapped service.
    pub closed spec fn spec_inner(self) -> S {
        self.inner
    }

    /// The configuration in use.
    pub closed spec fn spec_config(self) -> DebugConfig {
        self.config
    }

    /// Creates a new `DebugService` wrapping the given service.
    pub fn new(inner: S, config: DebugConfig) -> (r: Self)
        ensures
            r.spec_inner() == inner,
            r.spec_config() == config,
    {
        DebugService { inner, config }
    }

    /// The configuration in use.
    pub fn config(&self) -> (r: &DebugConfig)
        ensures
            *r == self.spec_config(),
    {
        &self.config
    }

    /// Takes the service apart into the wrapped service and the configuration.
    pub fn into_parts(self) -> (r: (S, DebugConfig))
        ensures
            r == (self.spec_inner(), self.spec_config()),
    {
        (self.inner, self.config)
    }
}

/// Request headers that the middleware reports on their own, or that carry
/// transport details rather than custom metadata.
pub open spec fn is_standard_header(name: Seq<char>) -> bool {
    ||| name == "content-type"@
    ||| name == "user-agent"@
    ||| name == "te"@
    ||| name == "grpc-timeout"@
    ||| name == "grpc-encoding"@
    ||| name == "grpc-accept-encoding"@
}

/// A header is custom metadata unless it is a pseudo-header (starting with `:`)
/// or a standard header.
pub open spec fn is_custom_metadata(name: Seq<char>) -> bool {
    &&& !(name.len() > 0 && name[0] == ':')
    &&& !is_standard_header(name)
}

/// Whether the request header `name` is custom metadata, which is logged as such.
pub fn is_custom_metadata_header(name: &str) -> (r: bool)
    ensures
        r == is_custom_metadata(name@),
{
    if name.unicode_len() > 0 && name.get_char(0) == ':' {
        return false;
    }
    let standard = str_eq(name, "content-type") || str_eq(name, "user-agent") || str_eq(name, "te")
        || str_eq(name, "grpc-timeout") || str_eq(name, "grpc-encoding") || str_eq(name,
        "grpc-accept-encoding");
    !standard
}

/// A `grpc-status` value reports an error unless it is exactly `0`.
pub open spec fn is_error_status(status: Seq<char>) -> bool {
    status != "0"@
}

/// Whether a `grpc-status` value reports an error.
pub fn grpc_status_is_error(status: &str) -> (r: bool)
    ensures
        r == is_error_status(status@),
{
    !str_eq(status, "0")
}

/// String equality.
fn str_eq(a: &str, b: &str) -> (r: bool)
    ensures
        r == (a@ == b@),
{
    let n = a.unicode_len();
    if n != b.unicode_len() {
        return false;
    }
    let mut i: usize = 0;
    while i < n
        invariant
            n == a@.len(),
            n == b@.len(),
            i <= n,
            forall|j: int| 0 <= j < i ==> a@[j] == b@[j],
        decreases n - i,
    {
        if a.get_char(i) != b.get_char(i) {
            return false;
        }
        i = i + 1;
    }
    assert(a@ =~= b@);
    true
}

} // verus!
