use localtoglobal::proxy::access::{
    access_line, refuse_unreachable, refuse_unsent, refuse_unstreamed, refuse_upstream, refused,
    served, summarize_access, LogEntry,
};
use localtoglobal::proxy::guard::{ClientEvent, Forward, Guard, Intake, IntakeStep, Rejection};
use localtoglobal::proxy::relay::{RelayNext, RelayState, UpstreamEvent};
use localtoglobal::proxy::request::parse_head;
use localtoglobal::proxy::response::{
    error_response, inject_auth_cookie, parse_chunk_size, parse_response_metadata,
    parse_status_code,
};
use localtoglobal::proxy::tokens::{cookie_value, strip_token_from_query, token_from_referer};
use localtoglobal::routes::{format_routes, parse_routes, select_route, ShareRoute};
use localtoglobal::share::worker::extract_public_url;

#[test]
fn strips_token_from_query() {
    let (query, token) = strip_token_from_query("foo=bar&ltg_token=abc&x=1");
    assert_eq!(query, "foo=bar&x=1");
    assert_eq!(token.as_deref(), Some("abc"));
}

#[test]
fn chooses_longest_matching_route() {
    let routes = vec![
        ShareRoute {
            path: "/".to_string(),
            upstream_port: 3000,
        },
        ShareRoute {
            path: "/api".to_string(),
            upstream_port: 8000,
        },
    ];
    let route = select_route("/api/users", &routes).unwrap();
    assert_eq!(route.upstream_port, 8000);
}

#[test]
fn extracts_quick_tunnel_url() {
    let log = "INF Requesting new quick Tunnel on trycloudflare.com https://soft-meadow.trycloudflare.com";
    assert_eq!(
        extract_public_url(log).as_deref(),
        Some("https://soft-meadow.trycloudflare.com")
    );
}

#[test]
fn parses_cookie_value() {
    assert_eq!(
        cookie_value("foo=bar; ltg_auth=secret-token; theme=dark", "ltg_auth").as_deref(),
        Some("secret-token")
    );
}

#[test]
fn extracts_token_from_referer_query() {
    assert_eq!(
        token_from_referer("https://example.com/app?foo=bar&ltg_token=secret&x=1").as_deref(),
        Some("secret")
    );
    assert_eq!(token_from_referer("https://example.com/app").as_deref(), None);
}

#[test]
fn injects_auth_cookie_into_response_headers() {
    let head = b"HTTP/1.1 200 OK\r\nContent-Type: text/html\r\n\r\n";
    let injected = String::from_utf8(inject_auth_cookie(head, "abc123")).unwrap();
    assert!(injected.contains("Set-Cookie: ltg_auth=abc123; Path=/; HttpOnly; SameSite=Lax"));
    assert!(injected.starts_with("HTTP/1.1 200 OK\r\n"));
}

fn route(path: &str, upstream_port: u16) -> ShareRoute {
    ShareRoute { path: path.to_string(), upstream_port }
}

fn token_guard(token: &str) -> Guard {
    Guard {
        routes: vec![route("/", 3000), route("/api", 8000)],
        access_mode: "token".to_string(),
        share_token: Some(token.to_string()),
        expires_at: Some(1000),
    }
}

fn public_guard() -> Guard {
    Guard {
        routes: vec![route("/app", 3000)],
        access_mode: "public".to_string(),
        share_token: None,
        expires_at: None,
    }
}

fn one_read(request: &str, now: u64, guard: &Guard) -> IntakeStep {
    Intake::start().advance(ClientEvent::Bytes(request.as_bytes().to_vec()), now, guard)
}

fn forwarded(step: IntakeStep) -> (Forward, Vec<u8>) {
    match step {
        IntakeStep::Forward(forward, body) => (forward, body),
        _ => panic!("the request was not forwarded"),
    }
}

fn rejected(step: IntakeStep) -> Rejection {
    match step {
        IntakeStep::Reject(rejection) => rejection,
        _ => panic!("the request was not rejected"),
    }
}

fn waiting(step: IntakeStep) -> Intake {
    match step {
        IntakeStep::Read(intake) => intake,
        _ => panic!("the request was settled"),
    }
}

#[test]
fn forwards_an_admitted_request() {
    let request = "POST /api/users?page=2&ltg_token=abc HTTP/1.1\r\nHost: share.example\r\nConnection: keep-alive\r\nUser-Agent: curl/8\r\nContent-Length: 4\r\n\r\nbody";
    let (forward, body) = forwarded(one_read(request, 999, &token_guard("abc")));
    assert_eq!(forward.upstream_port, 8000);
    assert_eq!(
        forward.request,
        "POST /api/users?page=2 HTTP/1.1\r\nHost: localhost:8000\r\nConnection: close\r\nUser-Agent: curl/8\r\nContent-Length: 4\r\n\r\n"
    );
    assert_eq!(forward.path, "/api/users");
    assert_eq!(forward.uri, "/api/users?page=2&ltg_token=abc");
    assert_eq!(forward.method, "POST");
    assert_eq!(forward.user_agent.as_deref(), Some("curl/8"));
    assert!(forward.set_cookie);
    assert_eq!(body, b"body");
}

#[test]
fn adds_host_and_connection_where_they_are_missing() {
    let (forward, body) = forwarded(one_read("GET /app HTTP/1.0\r\nAccept: */*\r\n\r\n", 5, &public_guard()));
    assert_eq!(
        forward.request,
        "GET /app HTTP/1.0\r\nAccept: */*\r\nHost: localhost:3000\r\nConnection: close\r\n\r\n"
    );
    assert!(!forward.set_cookie);
    assert!(body.is_empty());
}

#[test]
fn drops_a_query_that_held_only_the_token() {
    let (forward, _) = forwarded(one_read("GET /x?ltg_token=abc HTTP/1.1\r\n\r\n", 5, &token_guard("abc")));
    assert_eq!(forward.request, "GET /x HTTP/1.1\r\nHost: localhost:3000\r\nConnection: close\r\n\r\n");
}

#[test]
fn takes_the_token_from_each_place() {
    let guard = token_guard("abc");
    let header = "GET / HTTP/1.1\r\nx-ltg-token: abc\r\n\r\n";
    let (forward, _) = forwarded(one_read(header, 5, &guard));
    assert!(forward.set_cookie);
    assert!(!forward.request.to_lowercase().contains("x-ltg-token"));
    let cookie = "GET / HTTP/1.1\r\nCookie: a=b; ltg_auth=abc\r\n\r\n";
    let (forward, _) = forwarded(one_read(cookie, 5, &guard));
    assert!(!forward.set_cookie);
    assert!(forward.request.contains("Cookie: a=b; ltg_auth=abc\r\n"));
    let referer = "GET / HTTP/1.1\r\nReferer: https://s.example/?ltg_token=abc#top\r\n\r\n";
    let (forward, _) = forwarded(one_read(referer, 5, &guard));
    assert!(forward.set_cookie);
}

#[test]
fn hands_the_relay_the_token_of_the_cookie() {
    let mut guard = token_guard("abc");
    let (forward, _) = forwarded(one_read("GET /?ltg_token=abc HTTP/1.1\r\n\r\n", 5, &guard));
    assert_eq!(forward.cookie(&guard).as_deref(), Some("abc"));
    let (forward, _) = forwarded(one_read("GET / HTTP/1.1\r\nCookie: ltg_auth=abc\r\n\r\n", 5, &guard));
    assert_eq!(forward.cookie(&guard), None);
    guard.share_token = None;
    let (forward, _) = forwarded(one_read("GET /?ltg_token= HTTP/1.1\r\n\r\n", 5, &guard));
    assert_eq!(forward.cookie(&guard).as_deref(), Some(""));
    let public = public_guard();
    let (forward, _) = forwarded(one_read("GET /app?ltg_token=abc HTTP/1.1\r\n\r\n", 5, &public));
    assert_eq!(forward.cookie(&public), None);
}

#[test]
fn the_header_token_outweighs_the_others() {
    let guard = token_guard("abc");
    let request = "GET /?ltg_token=abc HTTP/1.1\r\nX-LTG-Token: wrong\r\n\r\n";
    assert_eq!(rejected(one_read(request, 5, &guard)).status, 401);
}

#[test]
fn refuses_a_request_without_the_token() {
    let request = "GET /api?x=1 HTTP/1.1\r\nUser-Agent: curl/8\r\n\r\n";
    let rejection = rejected(one_read(request, 5, &token_guard("abc")));
    assert_eq!(rejection.status, 401);
    assert_eq!(rejection.path, "/api?x=1");
    assert_eq!(rejection.method, "GET");
    assert_eq!(
        rejection.message,
        "missing or invalid share token. Pass ?ltg_token=... or X-LTG-Token."
    );
    assert_eq!(rejection.user_agent.as_deref(), Some("curl/8"));
}

#[test]
fn a_token_share_without_a_token_asks_for_an_empty_one() {
    let mut guard = token_guard("abc");
    guard.share_token = None;
    assert_eq!(rejected(one_read("GET / HTTP/1.1\r\n\r\n", 5, &guard)).status, 401);
    let (forward, _) = forwarded(one_read("GET /?ltg_token HTTP/1.1\r\n\r\n", 5, &guard));
    assert_eq!(forward.upstream_port, 3000);
}

#[test]
fn refuses_everything_once_the_share_has_run_out() {
    let request = "GET /?ltg_token=abc HTTP/1.1\r\nUser-Agent: curl/8\r\n\r\n";
    let rejection = rejected(one_read(request, 1000, &token_guard("abc")));
    assert_eq!(rejection.status, 410);
    assert_eq!(rejection.message, "this share has expired");
    assert_eq!(rejection.path, "/?ltg_token=abc");
    assert_eq!(rejection.user_agent, None);
}

#[test]
fn refuses_a_path_without_a_route() {
    let rejection = rejected(one_read("GET /apple HTTP/1.1\r\n\r\n", 5, &public_guard()));
    assert_eq!(rejection.status, 404);
    assert_eq!(rejection.message, "no route matched this request");
}

#[test]
fn a_request_may_come_in_pieces() {
    let guard = token_guard("abc");
    let text = "POST /api?ltg_token=abc HTTP/1.1\r\nContent-Length: 3\r\n\r\nxyz";
    let (whole, whole_body) = forwarded(one_read(text, 5, &guard));
    let mut intake = Intake::start();
    let bytes = text.as_bytes();
    for byte in &bytes[..bytes.len() - 1] {
        intake = waiting(intake.advance(ClientEvent::Bytes(vec![*byte]), 5, &guard));
    }
    let last = vec![bytes[bytes.len() - 1]];
    let (pieces, body) = forwarded(intake.advance(ClientEvent::Bytes(last), 5, &guard));
    assert_eq!(pieces.request, whole.request);
    assert_eq!(body, whole_body);
}

#[test]
fn a_head_that_came_in_time_is_forwarded_later() {
    let guard = token_guard("abc");
    let head = "PUT /api?ltg_token=abc HTTP/1.1\r\nContent-Length: 2\r\n\r\na";
    let intake = waiting(one_read(head, 999, &guard));
    let (_, body) = forwarded(intake.advance(ClientEvent::Bytes(b"b".to_vec()), 2000, &guard));
    assert_eq!(body, b"ab");
    assert_eq!(rejected(one_read(head, 1000, &guard)).status, 410);
}

#[test]
fn a_short_body_is_forwarded_when_the_client_closes() {
    let guard = public_guard();
    let intake = waiting(one_read("PUT /app HTTP/1.1\r\nContent-Length: 10\r\n\r\nab", 5, &guard));
    let (_, body) = forwarded(intake.advance(ClientEvent::Closed, 5, &guard));
    assert_eq!(body, b"ab");
}

#[test]
fn a_broken_request_is_answered() {
    let guard = public_guard();
    let closed = rejected(Intake::start().advance(ClientEvent::Closed, 5, &guard));
    assert_eq!((closed.status, closed.message.as_str()), (400, "malformed request"));
    assert_eq!((closed.path.as_str(), closed.method.as_str()), ("/", "GET"));
    let failed = rejected(Intake::start().advance(ClientEvent::Failed("reset".to_string()), 5, &guard));
    assert_eq!(failed.message, "failed to read request: reset");
    let intake = waiting(one_read("PUT /app HTTP/1.1\r\nContent-Length: 10\r\n\r\n", 5, &guard));
    let body = rejected(intake.advance(ClientEvent::Failed("reset".to_string()), 5, &guard));
    assert_eq!(body.status, 400);
    assert_eq!(body.message, "failed to read request body: reset");
    assert_eq!(body.path, "/app");
}

#[test]
fn a_head_is_read_with_its_defaults() {
    let head = parse_head(b"\r\n\r\n");
    assert_eq!((head.method.as_str(), head.uri.as_str(), head.version.as_str()), ("GET", "/", "HTTP/1.1"));
    let head = parse_head(b"DELETE\r\nContent-Length: x\r\nno colon\r\n A : b \r\n\r\n");
    assert_eq!(head.method, "DELETE");
    assert_eq!(head.uri, "/");
    assert_eq!(head.fields.content_length, 0);
    assert_eq!(head.fields.headers.len(), 2);
    assert_eq!(head.fields.headers[1].name, "A");
    assert_eq!(head.fields.headers[1].value, "b");
}

#[test]
fn a_cookie_without_a_value_ends_the_search() {
    assert_eq!(cookie_value("a=1; broken; ltg_auth=x", "ltg_auth"), None);
    assert_eq!(cookie_value("", "ltg_auth"), None);
    assert_eq!(cookie_value("ltg_auth= x ", "ltg_auth").as_deref(), Some("x"));
}

#[test]
fn the_last_token_of_a_query_counts() {
    let (query, token) = strip_token_from_query("ltg_token=a&&ltg_token=b=c&k");
    assert_eq!(query, "k");
    assert_eq!(token.as_deref(), Some("b=c"));
    let (query, token) = strip_token_from_query(&query);
    assert_eq!((query.as_str(), token), ("k", None));
    assert_eq!(strip_token_from_query(""), (String::new(), None));
}

#[test]
fn a_returned_cookie_presents_the_token() {
    let token = "ltg-1f";
    let header = format!("ltg_auth={}", token);
    assert_eq!(cookie_value(&header, "ltg_auth").as_deref(), Some(token));
    let header = format!("a=1; b=x=y;  ltg_auth={} ;hidden; ltg_auth=other", token);
    assert_eq!(cookie_value(&header, "ltg_auth").as_deref(), Some(token));
}

fn relayed(reads: &[&[u8]], cookie: Option<&str>) -> (Vec<u8>, RelayNext, &'static str) {
    let cookie = cookie.map(|token| token.to_string());
    let mut state = RelayState::start();
    let mut sent = Vec::new();
    for read in reads {
        let step = state.advance(UpstreamEvent::Bytes(read.to_vec()), &cookie);
        sent.extend_from_slice(&step.head);
        sent.extend_from_slice(&step.body);
        if step.next != RelayNext::Continue {
            return (sent, step.next, step.failure);
        }
        state = step.state;
    }
    let step = state.advance(UpstreamEvent::Closed, &cookie);
    sent.extend_from_slice(&step.head);
    sent.extend_from_slice(&step.body);
    (sent, step.next, step.failure)
}

#[test]
fn relays_a_body_of_announced_length() {
    let (sent, next, _) = relayed(
        &[b"HTTP/1.1 201 Created\r\nContent-Length: 5\r\n\r\nhe", b"lloXX"],
        None,
    );
    assert_eq!(sent, b"HTTP/1.1 201 Created\r\nContent-Length: 5\r\n\r\nhello");
    assert_eq!(next, RelayNext::Done(201));
}

#[test]
fn a_body_that_breaks_off_is_a_failure() {
    let (sent, next, failure) = relayed(&[b"HTTP/1.1 200 OK\r\nContent-Length: 5\r\n\r\nhe"], None);
    assert_eq!(sent, b"HTTP/1.1 200 OK\r\nContent-Length: 5\r\n\r\nhe");
    assert_eq!(next, RelayNext::Fail);
    assert_eq!(failure, "failed to stream upstream response body");
}

#[test]
fn relays_whole_chunks() {
    let response = b"HTTP/1.1 200 OK\r\nTransfer-Encoding: Chunked\r\n\r\n5\r\nhello\r\n3;x=y\r\nabc\r\n0\r\n\r\nrest";
    let expected = b"HTTP/1.1 200 OK\r\nTransfer-Encoding: Chunked\r\n\r\n5\r\nhello\r\n3;x=y\r\nabc\r\n0\r\n\r\n";
    let (sent, next, _) = relayed(&[response], None);
    assert_eq!(sent, expected);
    assert_eq!(next, RelayNext::Done(200));
    for cut in 1..response.len() {
        let (sent, next, _) = relayed(&[&response[..cut], &response[cut..]], None);
        assert_eq!(sent, expected);
        assert_eq!(next, RelayNext::Done(200));
    }
}

#[test]
fn a_bad_chunk_is_a_failure() {
    let (sent, next, failure) = relayed(
        &[b"HTTP/1.1 200 OK\r\nTransfer-Encoding: chunked\r\n\r\n1\r\na\r\nzz\r\n"],
        None,
    );
    assert!(sent.ends_with(b"1\r\na\r\n"));
    assert_eq!(next, RelayNext::Fail);
    assert_eq!(failure, "failed to stream chunked upstream response");
    let (_, next, _) = relayed(
        &[b"HTTP/1.1 200 OK\r\nTransfer-Encoding: chunked\r\n\r\nffffffffffffffff\r\n"],
        None,
    );
    assert_eq!(next, RelayNext::TooLarge);
    let (_, next, failure) = relayed(
        &[b"HTTP/1.1 200 OK\r\nTransfer-Encoding: chunked\r\n\r\n5\r\nhe"],
        None,
    );
    assert_eq!(next, RelayNext::Fail);
    assert_eq!(failure, "failed to stream chunked upstream response");
}

#[test]
fn relays_an_undelimited_body_until_the_end() {
    let (sent, next, _) = relayed(&[b"HTTP/1.1 404 Not Found\r\n\r\na", b"b", b"c"], None);
    assert_eq!(sent, b"HTTP/1.1 404 Not Found\r\n\r\nabc");
    assert_eq!(next, RelayNext::Done(404));
}

#[test]
fn relays_what_came_of_a_response_without_a_head() {
    let (sent, next, _) = relayed(&[b"HTTP/1.1 503"], None);
    assert_eq!(sent, b"HTTP/1.1 503");
    assert_eq!(next, RelayNext::Done(503));
    let (sent, next, _) = relayed(&[], None);
    assert!(sent.is_empty());
    assert_eq!(next, RelayNext::Done(200));
}

#[test]
fn an_upstream_that_cannot_be_read_is_a_failure() {
    let step = RelayState::start().advance(UpstreamEvent::Failed, &None);
    assert_eq!(step.next, RelayNext::Fail);
    assert_eq!(step.failure, "failed to read upstream response");
    let step = RelayState::Sized(200, 3).advance(UpstreamEvent::Failed, &None);
    assert_eq!(step.failure, "failed to stream upstream response body");
    let step = RelayState::Chunked(200, Vec::new()).advance(UpstreamEvent::Failed, &None);
    assert_eq!(step.failure, "failed to stream chunked upstream response");
}

#[test]
fn hands_out_the_cookie_with_the_head() {
    let (sent, _, _) = relayed(&[b"HTTP/1.1 200 OK\r\nContent-Length: 1\r\n\r\nx"], Some("abc"));
    assert_eq!(
        sent,
        b"HTTP/1.1 200 OK\r\nContent-Length: 1\r\nSet-Cookie: ltg_auth=abc; Path=/; HttpOnly; SameSite=Lax\r\n\r\nx".to_vec()
    );
}

#[test]
fn a_head_without_an_empty_line_gets_no_cookie() {
    assert_eq!(inject_auth_cookie(b"HTTP/1.1 200 OK\r\n", "abc"), b"HTTP/1.1 200 OK\r\n");
}

#[test]
fn reads_the_metadata_of_a_response() {
    assert_eq!(
        parse_response_metadata(b"HTTP/1.1 206 Partial\r\ncontent-length: 12\r\nTransfer-Encoding: gzip, CHUNKED\r\n\r\n"),
        (206, Some(12), true)
    );
    assert_eq!(parse_response_metadata(b"nonsense\r\nContent-Length: many\r\n\r\n"), (200, None, false));
}

#[test]
fn reads_the_status_of_a_response() {
    assert_eq!(parse_status_code(b"HTTP/1.1 302 Found\r\n"), Some(302));
    assert_eq!(parse_status_code(b"HTTP/1.1 99999 Odd\r\n"), None);
    assert_eq!(parse_status_code(b"HTTP/1.1"), None);
    assert_eq!(parse_status_code(b""), None);
    assert_eq!(parse_status_code(b"\xff\xfe 204 x"), Some(204));
}

#[test]
fn reads_the_size_of_a_chunk() {
    assert_eq!(parse_chunk_size(b"1A"), Some(26));
    assert_eq!(parse_chunk_size(b" ff ;name=value"), Some(255));
    assert_eq!(parse_chunk_size(b"+a"), Some(10));
    assert_eq!(parse_chunk_size(b""), None);
    assert_eq!(parse_chunk_size(b"12x"), None);
    assert_eq!(parse_chunk_size(b"1\xff"), None);
}

#[test]
fn answers_with_an_error() {
    assert_eq!(
        error_response(401, "gr\u{fc}n"),
        "HTTP/1.1 401 ERROR\r\nContent-Type: text/plain; charset=utf-8\r\nContent-Length: 6\r\nConnection: close\r\n\r\ngr\u{fc}n\n"
    );
}

#[test]
fn logs_a_request() {
    let (forward, _) = forwarded(one_read("GET /app?q=1 HTTP/1.1\r\nUser-Agent: curl/8\r\n\r\n", 5, &public_guard()));
    assert_eq!(
        access_line(17, "10.0.0.1", &served(&forward, 200)),
        "17\t10.0.0.1\tGET\t/app\t200\tcurl/8\n"
    );
    let rejection = rejected(one_read("GET /x?q=1 HTTP/1.1\r\n\r\n", 5, &public_guard()));
    assert_eq!(
        access_line(18, "10.0.0.2", &refused(&rejection)),
        "18\t10.0.0.2\tGET\t/x?q=1\t404\t-\n"
    );
    let unreachable = refuse_unreachable(&forward, "refused");
    assert_eq!(unreachable.status, 502);
    assert_eq!(unreachable.message, "failed to connect to upstream 3000: refused");
    assert_eq!(unreachable.path, "/app?q=1");
    let broken = refuse_upstream(&forward, "why".to_string());
    assert_eq!((broken.status, broken.message.as_str()), (502, "why"));
    let unsent = refuse_unsent(&forward);
    assert_eq!((unsent.status, unsent.message.as_str()), (502, "failed to forward request to upstream"));
    let unstreamed = refuse_unstreamed(&forward);
    assert_eq!((unstreamed.status, unstreamed.message.as_str()), (502, "failed to stream upstream response"));
}

#[test]
fn sums_up_a_log() {
    let log = "1\ta\tGET\t/\t200\t-\n2\tb\tGET\t/\t200\t-\nbroken\n3\ta\tGET\t/\t401\t-\n";
    let (count, visitors) = summarize_access(Some(log));
    assert_eq!(count, 4);
    assert_eq!(visitors, vec!["a".to_string(), "b".to_string()]);
    assert_eq!(summarize_access(None), (0, Vec::new()));
}

#[test]
fn a_line_feed_in_an_agent_breaks_a_log_line() {
    let entry = LogEntry {
        status: 200,
        path: "/".to_string(),
        method: "GET".to_string(),
        user_agent: Some("a\nb".to_string()),
    };
    let log = access_line(1, "ip", &entry);
    assert_eq!(summarize_access(Some(&log)).0, 2);
}

#[test]
fn a_request_is_logged_on_one_line() {
    let entry = LogEntry {
        status: 200,
        path: "/p".to_string(),
        method: "GET".to_string(),
        user_agent: None,
    };
    let log = format!("{}{}", access_line(1, "x", &entry), access_line(2, "y", &entry));
    assert_eq!(summarize_access(Some(&log)), (2, vec!["x".to_string(), "y".to_string()]));
}

#[test]
fn routes_match_whole_segments() {
    let routes = vec![route("/api/", 1), route("/apix", 2), route("//", 3)];
    assert_eq!(select_route("/api/users", &routes).unwrap().upstream_port, 1);
    assert_eq!(select_route("/api/", &routes).unwrap().upstream_port, 1);
    assert_eq!(select_route("/apix", &routes).unwrap().upstream_port, 2);
    assert_eq!(select_route("/api", &routes).unwrap().upstream_port, 3);
    assert!(select_route("elsewhere", &routes).is_none());
}

#[test]
fn the_first_of_two_equal_routes_answers() {
    let routes = vec![route("/a", 1), route("/a", 2)];
    assert_eq!(select_route("/a", &routes).unwrap().upstream_port, 1);
    assert_eq!(select_route("/a", &parse_routes("/a=1,/a=2").unwrap()).unwrap().upstream_port, 1);
}

#[test]
fn reads_a_route_specification() {
    let routes = parse_routes("/=3000, ,/api=8000,/api/v2=+9000").unwrap();
    let listed: Vec<(&str, u16)> = routes.iter().map(|r| (r.path.as_str(), r.upstream_port)).collect();
    assert_eq!(listed, vec![("/api/v2", 9000), ("/api", 8000), ("/", 3000)]);
    assert!(parse_routes("").unwrap().is_empty());
    assert_eq!(parse_routes("/api").unwrap_err(), "invalid route '/api'");
    assert_eq!(
        parse_routes("/api=x").unwrap_err(),
        "invalid route port 'x': invalid digit found in string"
    );
    assert_eq!(
        parse_routes("/api=70000").unwrap_err(),
        "invalid route port '70000': number too large to fit in target type"
    );
}

#[test]
fn a_route_specification_reads_back() {
    let routes = vec![route("/", 80), route("/long/path", 81), route("/mid", 82)];
    let text = format_routes(&routes);
    assert_eq!(text, "/=80,/long/path=81,/mid=82");
    let read = parse_routes(&text).unwrap();
    let listed: Vec<(&str, u16)> = read.iter().map(|r| (r.path.as_str(), r.upstream_port)).collect();
    assert_eq!(listed, vec![("/long/path", 81), ("/mid", 82), ("/", 80)]);
    for path in ["/", "/mid/x", "/long/path", "/other"] {
        assert_eq!(
            select_route(path, &routes).unwrap().upstream_port,
            select_route(path, &read).unwrap().upstream_port
        );
    }
}

#[test]
fn finds_the_url_among_punctuation() {
    assert_eq!(
        extract_public_url("see (\"https://a.trycloudflare.com\"), or not").as_deref(),
        None
    );
    assert_eq!(
        extract_public_url("url='https://x' \"https://a.trycloudflare.com\",").as_deref(),
        Some("https://a.trycloudflare.com")
    );
    assert_eq!(extract_public_url("http://a.trycloudflare.com https://b.example"), None);
}
