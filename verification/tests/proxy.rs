use pubcal::config::{BaseUri, Calendar, Config, Server};
use pubcal::proxy::{
    is_hop_header, plan_request, relay_response, remove_hop_headers, request, response, Header,
    Plan, RequestBuildError, Response,
};

fn header(name: &str, value: &str) -> Header {
    Header { name: name.to_string(), value: value.to_string() }
}

fn base() -> BaseUri {
    BaseUri {
        scheme: "http".to_string(),
        authority: "upstream.example".to_string(),
        path: "".to_string(),
    }
}

fn config() -> Config {
    Config {
        server: Server {
            bind_addr: "127.0.0.1".to_string(),
            bind_port: 8080,
            upstream_base_url: base(),
        },
        credentials: vec![("alice".to_string(), "QWxpY2U6cGFzcw==".to_string())],
        calendars: vec![Calendar {
            urlpath: "/cal1".to_string(),
            upstream_user: "alice".to_string(),
            collection_id: "11111111-1111-1111-1111-111111111111".to_string(),
        }],
    }
}

fn cal() -> Calendar {
    Calendar {
        urlpath: "/cal1".to_string(),
        upstream_user: "alice".to_string(),
        collection_id: "11111111-1111-1111-1111-111111111111".to_string(),
    }
}

fn names_and_values(headers: &[Header]) -> Vec<(String, String)> {
    headers.iter().map(|h| (h.name.clone(), h.value.clone())).collect()
}

#[test]
fn hop_header_names_are_case_insensitive() {
    assert!(is_hop_header("Connection"));
    assert!(is_hop_header("CONNECTION"));
    assert!(is_hop_header("connection"));
    assert!(is_hop_header("te"));
    assert!(is_hop_header("Te"));
    assert!(is_hop_header("keep-alive"));
    assert!(is_hop_header("transfer-encoding"));
    assert!(is_hop_header("proxy-authorization"));
    assert!(is_hop_header("proxy-authentication"));
    assert!(is_hop_header("trailers"));
    assert!(is_hop_header("upgrade"));
    assert!(!is_hop_header("Content-Type"));
    assert!(!is_hop_header("Authorization"));
    assert!(!is_hop_header("X-Forwarded-For"));
    assert!(!is_hop_header("Trailer"));
}

#[test]
fn filter_strips_hop_headers_and_is_idempotent() {
    let headers = vec![header("Connection", "keep-alive"), header("Content-Type", "text/calendar")];
    let once = remove_hop_headers(&headers);
    assert_eq!(
        names_and_values(&once),
        vec![("Content-Type".to_string(), "text/calendar".to_string())]
    );
    let twice = remove_hop_headers(&once);
    assert_eq!(names_and_values(&twice), names_and_values(&once));
}

#[test]
fn filter_preserves_order_and_multiplicity() {
    let headers = vec![
        header("Accept", "text/calendar"),
        header("Keep-Alive", "timeout=5"),
        header("Cookie", "a=1"),
        header("Cookie", "b=2"),
        header("Upgrade", "h2c"),
        header("Cookie", "a=1"),
    ];
    let kept = remove_hop_headers(&headers);
    assert_eq!(
        names_and_values(&kept),
        vec![
            ("Accept".to_string(), "text/calendar".to_string()),
            ("Cookie".to_string(), "a=1".to_string()),
            ("Cookie".to_string(), "b=2".to_string()),
            ("Cookie".to_string(), "a=1".to_string()),
        ]
    );
}

#[test]
fn request_builds_target_and_authorization() {
    let headers = vec![header("Accept", "text/calendar")];
    let client = "198.51.100.7".to_string();
    let cred = "QWxpY2U6cGFzcw==".to_string();
    let out = request(&headers, &client, &cal(), &base(), &cred).expect("buildable");
    assert_eq!(out.uri, "http://upstream.example/11111111-1111-1111-1111-111111111111/");
    let pairs = names_and_values(&out.headers);
    assert!(pairs.contains(&("Authorization".to_string(), "Basic QWxpY2U6cGFzcw==".to_string())));
    assert_eq!(pairs[0], ("Accept".to_string(), "text/calendar".to_string()));
}

#[test]
fn request_overwrites_inbound_authorization() {
    let headers = vec![header("Authorization", "Basic aW50cnVkZXI6eA==")];
    let client = "198.51.100.7".to_string();
    let cred = "QWxpY2U6cGFzcw==".to_string();
    let out = request(&headers, &client, &cal(), &base(), &cred).expect("buildable");
    let auths: Vec<_> = out
        .headers
        .iter()
        .filter(|h| h.name.eq_ignore_ascii_case("authorization"))
        .map(|h| h.value.clone())
        .collect();
    assert_eq!(auths, vec!["Basic QWxpY2U6cGFzcw==".to_string()]);
}

#[test]
fn request_inserts_forwarding_header_when_absent() {
    let headers = vec![header("Accept", "text/calendar")];
    let client = "198.51.100.7".to_string();
    let cred = "QWxpY2U6cGFzcw==".to_string();
    let out = request(&headers, &client, &cal(), &base(), &cred).expect("buildable");
    let fwd: Vec<_> = out
        .headers
        .iter()
        .filter(|h| h.name.eq_ignore_ascii_case("x-forwarded-for"))
        .map(|h| h.value.clone())
        .collect();
    assert_eq!(fwd, vec!["198.51.100.7".to_string()]);
}

#[test]
fn request_preserves_existing_forwarding_header() {
    let headers = vec![header("X-Forwarded-For", "203.0.113.5")];
    let client = "198.51.100.7".to_string();
    let cred = "QWxpY2U6cGFzcw==".to_string();
    let out = request(&headers, &client, &cal(), &base(), &cred).expect("buildable");
    let fwd: Vec<_> = out
        .headers
        .iter()
        .filter(|h| h.name.eq_ignore_ascii_case("x-forwarded-for"))
        .map(|h| h.value.clone())
        .collect();
    assert_eq!(fwd, vec!["203.0.113.5".to_string()]);
}

#[test]
fn request_rejects_credential_illegal_in_header_value() {
    let headers = vec![header("Accept", "text/calendar")];
    let client = "198.51.100.7".to_string();
    let cred = "bad\ncred".to_string();
    match request(&headers, &client, &cal(), &base(), &cred) {
        Err(RequestBuildError::InvalidHeaderValue) => {}
        _ => panic!("expected an invalid header value error"),
    }
}

#[test]
fn request_rejects_structurally_invalid_target() {
    let headers = vec![header("Accept", "text/calendar")];
    let client = "198.51.100.7".to_string();
    let cred = "QWxpY2U6cGFzcw==".to_string();
    let bad_base = BaseUri {
        scheme: "http".to_string(),
        authority: "up stream.example".to_string(),
        path: "".to_string(),
    };
    match request(&headers, &client, &cal(), &bad_base, &cred) {
        Err(RequestBuildError::InvalidUri) => {}
        _ => panic!("expected an invalid URI error"),
    }
}

#[test]
fn response_sanitizes_hop_headers_and_keeps_status() {
    let upstream = Response {
        status: 207,
        headers: vec![
            header("Content-Type", "text/calendar"),
            header("Transfer-Encoding", "chunked"),
        ],
    };
    let client_resp = response(upstream);
    assert_eq!(client_resp.status, 207);
    assert_eq!(
        names_and_values(&client_resp.headers),
        vec![("Content-Type".to_string(), "text/calendar".to_string())]
    );
}

#[test]
fn plan_rejects_non_get_with_405_even_on_configured_path() {
    let config = config();
    let headers = vec![header("Accept", "text/calendar")];
    let client = "198.51.100.7".to_string();
    match plan_request(&config, "POST", "/cal1", &headers, &client) {
        Plan::Respond(resp) => {
            assert_eq!(resp.status, 405);
            assert!(resp.headers.is_empty());
        }
        Plan::Forward(_) => panic!("a non-GET request must not be forwarded"),
    }
    match plan_request(&config, "PUT", "/cal1", &headers, &client) {
        Plan::Respond(resp) => assert_eq!(resp.status, 405),
        Plan::Forward(_) => panic!("a non-GET request must not be forwarded"),
    }
}

#[test]
fn plan_rejects_unconfigured_path_with_404() {
    let config = config();
    let headers = vec![header("Accept", "text/calendar")];
    let client = "198.51.100.7".to_string();
    match plan_request(&config, "GET", "/unknown", &headers, &client) {
        Plan::Respond(resp) => {
            assert_eq!(resp.status, 404);
            assert!(resp.headers.is_empty());
        }
        Plan::Forward(_) => panic!("an unmatched request must not be forwarded"),
    }
}

#[test]
fn plan_forwards_matched_get_with_credentials() {
    let config = config();
    let headers = vec![header("Accept", "text/calendar"), header("Connection", "keep-alive")];
    let client = "198.51.100.7".to_string();
    match plan_request(&config, "GET", "/cal1", &headers, &client) {
        Plan::Forward(out) => {
            assert_eq!(out.uri, "http://upstream.example/11111111-1111-1111-1111-111111111111/");
            let pairs = names_and_values(&out.headers);
            assert!(pairs
                .contains(&("Authorization".to_string(), "Basic QWxpY2U6cGFzcw==".to_string())));
            assert!(!pairs.iter().any(|(n, _)| n.eq_ignore_ascii_case("connection")));
        }
        Plan::Respond(_) => panic!("a matched GET must be forwarded"),
    }
}

#[test]
fn transport_failure_maps_to_500_and_leaves_later_requests_alone() {
    let failed = relay_response(None);
    assert_eq!(failed.status, 500);
    assert!(failed.headers.is_empty());
    let config = config();
    let headers = vec![header("Accept", "text/calendar")];
    let client = "198.51.100.7".to_string();
    match plan_request(&config, "GET", "/cal1", &headers, &client) {
        Plan::Forward(_) => {}
        Plan::Respond(_) => panic!("an unrelated later request must still be forwarded"),
    }
    let delivered = relay_response(Some(Response {
        status: 200,
        headers: vec![header("Content-Type", "text/calendar")],
    }));
    assert_eq!(delivered.status, 200);
    assert_eq!(
        names_and_values(&delivered.headers),
        vec![("Content-Type".to_string(), "text/calendar".to_string())]
    );
}
