use socks_forward::config::AppConfig;
use socks_forward::engine::{client_chunk_action, plan_without_forward, select_route, Destination, FallbackPlan};
use socks_forward::http::{
    host_of_head, is_http, modify_http_data, parse_path, request_host_path, rewrite_request, service_unavailable,
    RequestHead,
};
use socks_forward::route::{RouteEngine, RouteRule};
use socks_forward::socks::{
    connect_reply, greeting_len, negotiate, parse_connect_request, request_len, AuthMethod, Command, SocksError,
};

const SCENARIO_REQUEST: &[u8] = b"GET /api/x HTTP/1.1\r\nHost: 192.168.120.177:81\r\n\r\n";

fn scenario_rule() -> RouteRule {
    RouteRule::new("192.168.120.177:81", "/api", "127.0.0.1:8686", "")
}

#[test]
fn rule_new_sets_defaults() {
    let r = scenario_rule();
    assert_eq!(r.match_.host, "192.168.120.177:81");
    assert_eq!(r.match_.prefix, "/api");
    assert_eq!(r.forward.host, "127.0.0.1:8686");
    assert_eq!(r.forward.prefix, "");
    assert!(r.forward.rewrite);
    assert!(!r.forward.connect_fail_use_original_host);
}

#[test]
fn rule_matches_host_and_prefix() {
    let r = scenario_rule();
    assert!(r.matches("192.168.120.177:81", "/api/x"));
    assert!(!r.matches("192.168.120.177:81", "/other"));
    assert!(!r.matches("example.com:80", "/api/x"));
    assert!(r.match_host("192.168.120.177:81"));
    assert!(!r.match_host("192.168.120.177:8"));
}

#[test]
fn wildcard_host_admits_any_host() {
    let r = RouteRule::new("*", "/v1", "127.0.0.1:9000", "/w");
    assert!(r.match_host("anything"));
    assert!(r.matches("example.com:443", "/v1/z"));
}

#[test]
fn resolve_by_host_takes_first_admitting_rule() {
    let engine = RouteEngine {
        rules: vec![
            RouteRule::new("a:1", "/x", "f:1", ""),
            RouteRule::new("*", "/y", "f:2", ""),
            RouteRule::new("b:2", "/z", "f:3", ""),
        ],
    };
    let r = engine.resolve_target_by_host("b:2").unwrap();
    assert_eq!(r.forward.host, "f:2");
    let r = engine.resolve_target_by_host("a:1").unwrap();
    assert_eq!(r.forward.host, "f:1");
    let empty = RouteEngine { rules: vec![] };
    assert!(empty.resolve_target_by_host("a:1").is_none());
}

#[test]
fn resolve_by_host_and_path() {
    let mut engine = RouteEngine { rules: vec![scenario_rule()] };
    assert!(engine.resolve_target("192.168.120.177:81", "/api/v").is_some());
    assert!(engine.resolve_target("192.168.120.177:81", "/ap").is_none());
    engine.update_rules(vec![]);
    assert!(engine.resolve_target("192.168.120.177:81", "/api/v").is_none());
    assert!(engine.resolve_target_by_host("192.168.120.177:81").is_none());
}

#[test]
fn classify_http_prefixes() {
    assert!(is_http(b"GET / HTTP/1.1", 14));
    assert!(is_http(b"POST /a", 7));
    assert!(is_http(b"PUT /a", 6));
    assert!(is_http(b"PATCH /a", 8));
    assert!(is_http(b"DELETE /a", 9));
    assert!(is_http(b"HTTP/1.1 200 OK", 15));
    assert!(!is_http(b"GET / HTTP/1.1", 3));
    assert!(!is_http(b"SSH-2.0-foo\r\n", 13));
    assert!(!is_http(b"GETX", 4));
}

#[test]
fn request_line_path_fields() {
    assert_eq!(parse_path(b"GET /a/b HTTP/1.1\r\nHost: x\r\n\r\n"), Some("/a/b"));
    assert_eq!(parse_path(b"GET   /sp   HTTP/1.1\r\n"), Some("/sp"));
    assert_eq!(parse_path(b"GET /a/b HTTP/1.1"), None);
    assert_eq!(parse_path(b"GET /a/b\r\n"), None);
    assert_eq!(parse_path(b"GET \xff\xfe HTTP/1.1\r\n"), None);
    assert_eq!(parse_path(b"A B C D\r\n"), None);
    assert_eq!(parse_path(b"GET /a HTTP/1.1   \r\n"), Some("/a"));
    assert_eq!(parse_path(b"GET /a HTTP/1.1 extra\r\nHost: x\r\n\r\n"), None);
}

#[test]
fn unavailable_response_bytes() {
    let expected: &[u8] = b"HTTP/1.1 503 Service Unavailable\r\nContent-Type: text/plain\r\nContent-Length: 17\r\nConnection: close\r\n\r\nService Unavailable";
    assert_eq!(service_unavailable(), expected.to_vec());
}

#[test]
fn rewrite_strips_match_prefix() {
    let out = modify_http_data(SCENARIO_REQUEST, &scenario_rule()).unwrap();
    assert_eq!(out, b"GET /x HTTP/1.1\r\nHost: 192.168.120.177:81\r\n\r\n".to_vec());
}

#[test]
fn rewrite_with_wildcard_rule() {
    let r = RouteRule::new("*", "/v1", "127.0.0.1:9000", "/w");
    let out = modify_http_data(b"GET /v1/z HTTP/1.1\r\nHost: anything\r\n\r\n", &r).unwrap();
    assert_eq!(out, b"GET /w/z HTTP/1.1\r\nHost: anything\r\n\r\n".to_vec());
}

#[test]
fn path_outside_prefix_not_rewritten() {
    let req = b"GET /other HTTP/1.1\r\nHost: 192.168.120.177:81\r\n\r\n";
    assert!(modify_http_data(req, &scenario_rule()).is_none());
}

#[test]
fn empty_or_slash_prefix_never_rewrites() {
    let r = RouteRule::new("*", "", "f:1", "/w");
    assert!(modify_http_data(SCENARIO_REQUEST, &r).is_none());
    let r = RouteRule::new("*", "/", "f:1", "/w");
    assert!(modify_http_data(SCENARIO_REQUEST, &r).is_none());
}

#[test]
fn path_equal_to_prefix_is_rewritten() {
    let r = RouteRule::new("*", "/api", "f:1", "/v2");
    let out = modify_http_data(b"GET /api HTTP/1.1\r\nHost: h\r\n\r\n", &r).unwrap();
    assert_eq!(out, b"GET /v2 HTTP/1.1\r\nHost: h\r\n\r\n".to_vec());
}

#[test]
fn response_never_rewritten() {
    let r = RouteRule::new("*", "/api", "f:1", "/v2");
    assert!(modify_http_data(b"HTTP/1.1 200 OK\r\nContent-Length: 4\r\n\r\n/api", &r).is_none());
}

#[test]
fn incomplete_head_not_rewritten() {
    assert!(modify_http_data(b"GET /api/x HTTP/1.1\r\nHost: 192.168", &scenario_rule()).is_none());
}

#[test]
fn rewrite_disabled_passes_through() {
    let mut r = scenario_rule();
    r.forward.rewrite = false;
    assert!(modify_http_data(SCENARIO_REQUEST, &r).is_none());
}

#[test]
fn refusal_is_repeatable() {
    let req = b"GET /other HTTP/1.1\r\nHost: h\r\n\r\n";
    let r = scenario_rule();
    assert!(modify_http_data(req, &r).is_none());
    assert!(modify_http_data(req, &r).is_none());
}

#[test]
fn host_and_path_of_request() {
    let (host, path) = request_host_path(SCENARIO_REQUEST).unwrap();
    assert_eq!(host, "192.168.120.177:81");
    assert_eq!(path, "/api/x");
    let (host, _) = request_host_path(b"GET / HTTP/1.1\r\nAccept: */*\r\nhOsT: e.com\r\n\r\n").unwrap();
    assert_eq!(host, "e.com");
    assert!(request_host_path(b"GET / HTTP/1.1\r\nAccept: */*\r\n\r\n").is_none());
    assert!(request_host_path(b"SSH-2.0-foo\r\n").is_none());
    assert!(request_host_path(b"GET / HTTP/1.1\r\nHost: e.com\r\n").is_none());
}

#[test]
fn greeting_replies_no_auth() {
    assert_eq!(negotiate(&[5, 1, 0]), Ok(vec![5, 0]));
    assert_eq!(negotiate(&[5, 2, 0, 2]), Ok(vec![5, 0]));
}

#[test]
fn greeting_without_methods() {
    assert_eq!(negotiate(&[5, 0]), Ok(vec![5, 0]));
}

#[test]
fn greeting_errors() {
    assert_eq!(negotiate(&[4, 1, 0]), Err(SocksError::BadVersion));
    assert_eq!(negotiate(&[]), Err(SocksError::MalformedRequest));
    assert_eq!(negotiate(&[5]), Err(SocksError::MalformedRequest));
    assert_eq!(negotiate(&[5, 3, 0]), Err(SocksError::MalformedRequest));
}

#[test]
fn connect_ipv4_target() {
    let req = [5, 1, 0, 1, 192, 168, 120, 177, 0, 81];
    assert_eq!(parse_connect_request(&req).unwrap(), "192.168.120.177:81");
    let req = [5, 1, 0, 1, 127, 0, 0, 1, 0x1f, 0x90];
    assert_eq!(parse_connect_request(&req).unwrap(), "127.0.0.1:8080");
}

#[test]
fn connect_domain_target() {
    let mut req = vec![5, 1, 0, 3, 11];
    req.extend_from_slice(b"example.com");
    req.extend_from_slice(&[0, 22]);
    assert_eq!(parse_connect_request(&req).unwrap(), "example.com:22");
}

#[test]
fn connect_domain_of_255_bytes() {
    let name = "a".repeat(255);
    let mut req = vec![5, 1, 0, 3, 255];
    req.extend_from_slice(name.as_bytes());
    req.extend_from_slice(&[0xff, 0xff]);
    assert_eq!(parse_connect_request(&req).unwrap(), format!("{}:65535", name));
}

#[test]
fn connect_invalid_utf8_domain_is_lossy() {
    let req = [5, 1, 0, 3, 2, b'a', 0xff, 0, 80];
    assert_eq!(parse_connect_request(&req).unwrap(), "a\u{fffd}:80");
}

#[test]
fn connect_request_errors() {
    assert_eq!(parse_connect_request(&[4, 1, 0, 1, 1, 2, 3, 4, 0, 80]), Err(SocksError::BadVersion));
    assert_eq!(parse_connect_request(&[5, 2, 0, 1, 1, 2, 3, 4, 0, 80]), Err(SocksError::UnsupportedCommand));
    let mut v6 = vec![5, 1, 0, 4];
    v6.extend_from_slice(&[0; 18]);
    assert_eq!(parse_connect_request(&v6), Err(SocksError::UnsupportedAddressType));
    assert_eq!(parse_connect_request(&[5, 1, 0, 1, 1, 2]), Err(SocksError::MalformedRequest));
    assert_eq!(parse_connect_request(&[5, 1, 0, 3, 5, b'a', b'b']), Err(SocksError::MalformedRequest));
}

#[test]
fn connect_success_reply() {
    assert_eq!(connect_reply(), vec![5, 0, 0, 1, 0, 0, 0, 0, 0, 0]);
}

#[test]
fn method_and_command_codes() {
    assert_eq!(AuthMethod::from_u8(0), Some(AuthMethod::NoAuth));
    assert_eq!(AuthMethod::from_u8(2), None);
    assert_eq!(AuthMethod::NoAuth.to_u8(), 0);
    assert_eq!(Command::from_u8(1), Some(Command::Connect));
    assert_eq!(Command::from_u8(3), None);
}

#[test]
fn chunk_goes_to_forward_when_rewritten() {
    let a = client_chunk_action(SCENARIO_REQUEST, true, &scenario_rule(), true);
    assert_eq!(a.dest, Destination::Forward);
    assert_eq!(a.bytes, b"GET /x HTTP/1.1\r\nHost: 192.168.120.177:81\r\n\r\n".to_vec());
}

#[test]
fn chunk_rejected_without_forward() {
    let a = client_chunk_action(SCENARIO_REQUEST, true, &scenario_rule(), false);
    assert_eq!(a.dest, Destination::Client);
    assert_eq!(a.bytes, service_unavailable());
}

#[test]
fn chunk_to_server_unchanged() {
    let req = b"GET /other HTTP/1.1\r\nHost: 192.168.120.177:81\r\n\r\n";
    let a = client_chunk_action(req, true, &scenario_rule(), true);
    assert_eq!(a.dest, Destination::Server);
    assert_eq!(a.bytes, req.to_vec());
    let a = client_chunk_action(SCENARIO_REQUEST, false, &scenario_rule(), true);
    assert_eq!(a.dest, Destination::Server);
    assert_eq!(a.bytes, SCENARIO_REQUEST.to_vec());
    let a = client_chunk_action(b"SSH-2.0-foo\r\n", false, &scenario_rule(), true);
    assert_eq!(a.bytes, b"SSH-2.0-foo\r\n".to_vec());
}

#[test]
fn fallback_plans() {
    let r = scenario_rule();
    assert_eq!(plan_without_forward(&r, SCENARIO_REQUEST), FallbackPlan::Refuse);
    assert_eq!(plan_without_forward(&r, b"GET /other HTTP/1.1\r\n"), FallbackPlan::ServerOnly);
    assert_eq!(plan_without_forward(&r, b"GET /api/x"), FallbackPlan::ServerOnly);
    assert_eq!(plan_without_forward(&r, b"GET /api/x HTTP/1.1 x\r\n"), FallbackPlan::ServerOnly);
    let mut r2 = scenario_rule();
    r2.forward.connect_fail_use_original_host = true;
    assert_eq!(plan_without_forward(&r2, SCENARIO_REQUEST), FallbackPlan::RelayOriginal);
}

#[test]
fn route_selection_by_host_header() {
    let engine = RouteEngine { rules: vec![scenario_rule()] };
    assert!(select_route(&engine, SCENARIO_REQUEST).is_some());
    assert!(select_route(&engine, b"GET / HTTP/1.1\r\nHost: example.com:22\r\n\r\n").is_none());
    assert!(select_route(&engine, b"SSH-2.0-foo\r\n").is_none());
}

#[test]
fn default_config_and_rules() {
    let c = AppConfig::default();
    assert_eq!(c.listen_addr, "127.0.0.1:1080");
    assert_eq!(c.rules.len(), 1);
    let rules = c.route_rules();
    assert_eq!(rules.len(), 1);
    assert_eq!(rules[0].match_.host, "192.168.120.177:81");
    assert_eq!(rules[0].match_.prefix, "/api");
    assert_eq!(rules[0].forward.host, "127.0.0.1:8686");
    assert_eq!(rules[0].forward.prefix, "");
    assert!(rules[0].forward.rewrite);
}

#[test]
fn rewrite_request_given_path() {
    let r = scenario_rule();
    let out = rewrite_request(b"GET /api/x HTTP/1.1\r\n\r\n", "/api/x", &r).unwrap();
    assert_eq!(out, b"GET /x HTTP/1.1\r\n\r\n".to_vec());
    let out = rewrite_request(b"POST /api/x/api/x HTTP/1.1\r\n\r\n", "/api/x/api/x", &r).unwrap();
    assert_eq!(out, b"POST /x/api/x HTTP/1.1\r\n\r\n".to_vec());
    assert!(rewrite_request(b"GET /x HTTP/1.1\r\n\r\n", "/x", &r).is_none());
    assert!(rewrite_request(b"GET /api/\xff HTTP/1.1\r\n\r\n", "/api/", &r).is_none());
}

#[test]
fn host_of_parsed_head() {
    let head = RequestHead {
        path: "/p".to_string(),
        headers: vec![
            ("Accept".to_string(), b"*/*".to_vec()),
            ("HOST".to_string(), b"a.b:80".to_vec()),
            ("Host".to_string(), b"c.d:80".to_vec()),
        ],
    };
    assert_eq!(host_of_head(head), Some(("a.b:80".to_string(), "/p".to_string())));
    let head = RequestHead { path: "/p".to_string(), headers: vec![("Host".to_string(), vec![0xff])] };
    assert_eq!(host_of_head(head), None);
    let head = RequestHead { path: "/p".to_string(), headers: vec![("Hosts".to_string(), b"x".to_vec())] };
    assert_eq!(host_of_head(head), None);
}

#[test]
fn socks_message_lengths() {
    assert_eq!(greeting_len(&[]), None);
    assert_eq!(greeting_len(&[5]), None);
    assert_eq!(greeting_len(&[4]), Some(1));
    assert_eq!(greeting_len(&[5, 0]), Some(2));
    assert_eq!(greeting_len(&[5, 3]), Some(5));
    assert_eq!(request_len(&[5, 1, 0]), None);
    assert_eq!(request_len(&[4]), Some(1));
    assert_eq!(request_len(&[5, 2]), Some(2));
    assert_eq!(request_len(&[5, 1, 0, 1]), Some(10));
    assert_eq!(request_len(&[5, 1, 0, 3]), None);
    assert_eq!(request_len(&[5, 1, 0, 3, 255]), Some(262));
    assert_eq!(request_len(&[5, 1, 0, 4]), Some(4));
    assert_eq!(parse_connect_request(&[5, 1, 0, 4]), Err(SocksError::UnsupportedAddressType));
}
