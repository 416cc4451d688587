//! gRPC method paths, as recorded on OpenTelemetry spans.
use vstd::prelude::*;

verus! {

/// `path` is `/`, then `service`, then `/`, then `method`, where the service is a
/// non-empty name without `/` and the method is non-empty.
pub open spec fn is_method_path(path: Seq<char>, service: Seq<char>, method: Seq<char>) -> bool {
    &&& path == seq!['/'] + service + seq!['/'] + method
    &&& service.len() > 0
    &&& method.len() > 0
    &&& !service.contains('/')
}

/// Parses a gRPC method path into (service, method) components.
///
/// For example, `/mypackage.MyService/MyMethod` returns
/// `Some(("mypackage.MyService", "MyMethod"))`.
pub fn parse_grpc_method(path: &str) -> (r: Option<(&str, &str)>)
    ensures
        match r {
            Some((service, method)) => is_method_path(path@, service@, method@),
            None => forall|service: Seq<char>, method: Seq<char>|
                !is_method_path(path@, service, method),
        },
{
    let n = path.unicode_len();
    if n == 0 || path.get_char(0) != '/' {
        return None;
    }
    let mut k: usize = 1;
    while k < n && path.get_char(k) != '/'
        invariant
            1 <= k <= n,
            n == path@.len(),
            path@[0] == '/',
            forall|j: int| 1 <= j < k ==> path@[j] != '/',
        decreases n - k,
    {
        k = k + 1;
    }
    if k == n || k == 1 || k + 1 == n {
        proof {
            assert forall|service: Seq<char>, method: Seq<char>|
                !is_method_path(path@, service, method) by {
                if is_method_path(path@, service, method) {
                    let slash: int = service.len() as int + 1;
                    assert(path@[slash] == '/');
                    assert forall|j: int| 1 <= j < slash implies path@[j] != '/' by {
                        assert(path@[j] == service[j - 1]);
                    }
                    if k < slash {
                        assert(path@[k as int] == service[k - 1]);
                    }
                }
            }
        }
        return None;
    }
    let service = path.substring_char(1, k);
    let method = path.substring_char(k + 1, n);
    proof {
        assert(path@ =~= seq!['/'] + service@ + seq!['/'] + method@);
        assert(!service@.contains('/')) by {
            if service@.contains('/') {
                let j = choose|j: int| 0 <= j < service@.len() && service@[j] == '/';
                assert(path@[j + 1] == '/');
            }
        }
    }
    Some((service, method))
}


/// A method path splits in one way only: the service ends at the first `/`
/// after the leading one, so parsing a path built from a service and a method
/// gives back that service and that method.
pub proof fn lemma_method_path_unique(
    path: Seq<char>,
    service1: Seq<char>,
    method1: Seq<char>,
    service2: Seq<char>,
    method2: Seq<char>,
)
    requires
        is_method_path(path, service1, method1),
        is_method_path(path, service2, method2),
    ensures
        service1 == service2,
        method1 == method2,
{
    let k1 = service1.len() as int;
    let k2 = service2.len() as int;
    assert(path[k1 + 1] == '/');
    assert(path[k2 + 1] == '/');
    if k1 < k2 {
        assert(path[k1 + 1] == service2[k1]);
    }
    if k2 < k1 {
        assert(path[k2 + 1] == service1[k2]);
    }
    assert(service1 =~= path.subrange(1, k1 + 1));
    assert(service2 =~= path.subrange(1, k2 + 1));
    assert(method1 =~= path.skip(k1 + 2));
    assert(method2 =~= path.skip(k2 + 2));
}

} // verus!
