use tonic_debug::otel::parse_grpc_method;

#[test]
fn test_parse_grpc_method() {
    let result = parse_grpc_method("/mypackage.MyService/MyMethod");
    assert_eq!(result, Some(("mypackage.MyService", "MyMethod")));
}

#[test]
fn test_parse_grpc_method_no_package() {
    let result = parse_grpc_method("/MyService/MyMethod");
    assert_eq!(result, Some(("MyService", "MyMethod")));
}

#[test]
fn test_parse_grpc_method_invalid() {
    assert_eq!(parse_grpc_method(""), None);
    assert_eq!(parse_grpc_method("/"), None);
    assert_eq!(parse_grpc_method("no-leading-slash"), None);
    assert_eq!(parse_grpc_method("//EmptyService"), None);
    assert_eq!(parse_grpc_method("/Service/"), None);
}

#[test]
fn method_keeps_later_slashes() {
    assert_eq!(parse_grpc_method("/a.B/C/D"), Some(("a.B", "C/D")));
    assert_eq!(parse_grpc_method("/Service"), None);
    assert_eq!(parse_grpc_method("/é.Svc/Mé"), Some(("é.Svc", "Mé")));
}
