use server::config::ServerConfig;
use server::dispatch::{
    cgi_response, handle_delete, handle_post, handle_request, not_found_page_path,
    not_found_response, ok_file_response, DispatchStep,
};
use server::response::{compose_response, error_response};

fn config() -> ServerConfig {
    ServerConfig {
        hostname: b"localhost".to_vec(),
        port: 8080,
        root_dir: b"src".to_vec(),
        error_pages: vec![
            (404, b"404.html".to_vec()),
            (500, b"500.html".to_vec()),
            (405, b"405.html".to_vec()),
        ],
        max_body_size: 1024 * 1024,
        allowed_methods: vec![b"GET".to_vec(), b"POST".to_vec(), b"DELETE".to_vec()],
        default_file: b"index.html".to_vec(),
    }
}

fn reply(step: DispatchStep) -> Vec<u8> {
    match step {
        DispatchStep::Reply(r) => r,
        _ => panic!("expected a finished reply"),
    }
}

#[test]
fn host_mismatch_gets_404_whatever_the_method() {
    let c = config();
    let input = b"GET /index.html HTTP/1.1\r\nHost: elsewhere\r\n\r\n".to_vec();
    let r = reply(handle_request(&input, &c));
    assert_eq!(r, b"HTTP/1.1 404 Not Found\r\nContent-Length: 8\r\n\r\n404.html".to_vec());
    let input2 = b"DELETE /x HTTP/1.1\r\nHost: elsewhere\r\n\r\n".to_vec();
    assert_eq!(reply(handle_request(&input2, &c)), r);
}

#[test]
fn missing_host_header_gets_404() {
    let c = config();
    let input = b"GET / HTTP/1.1\r\n\r\n".to_vec();
    let r = reply(handle_request(&input, &c));
    assert_eq!(r, error_response(404, &c));
}

#[test]
fn host_prefix_match_is_enough() {
    let c = config();
    let input = b"DELETE /x HTTP/1.1\r\nHost: localhost:8080\r\n\r\n".to_vec();
    let r = reply(handle_request(&input, &c));
    assert!(r.starts_with(b"HTTP/1.1 200 OK"));
}

#[test]
fn method_outside_allowed_set_gets_405() {
    let c = config();
    let input = b"PATCH /x HTTP/1.1\r\nHost: localhost\r\n\r\n".to_vec();
    let r = reply(handle_request(&input, &c));
    assert_eq!(r, b"HTTP/1.1 405 Method Not Allowed\r\nContent-Length: 8\r\n\r\n405.html".to_vec());
}

#[test]
fn allowed_but_unrouted_method_gets_405_notice() {
    let mut c = config();
    c.allowed_methods.push(b"PUT".to_vec());
    let input = b"PUT /x HTTP/1.1\r\nHost: localhost\r\n\r\n".to_vec();
    let r = reply(handle_request(&input, &c));
    assert_eq!(
        r,
        b"HTTP/1.1 405 Method Not Allowed\r\nContent-Length: 18\r\n\r\nMethod not allowed".to_vec()
    );
}

#[test]
fn get_root_serves_default_file_as_html() {
    let c = config();
    let input = b"GET / HTTP/1.1\r\nHost: localhost\r\n\r\n".to_vec();
    match handle_request(&input, &c) {
        DispatchStep::FetchFile { filename, content_type } => {
            assert_eq!(filename, b"src/index.html".to_vec());
            assert_eq!(content_type, b"text/html".to_vec());
        }
        _ => panic!("expected a file fetch"),
    }
    let body = b"<html>hi</html>".to_vec();
    let r = ok_file_response(&body, &b"text/html".to_vec());
    assert_eq!(
        r,
        b"HTTP/1.1 200 OK\r\nContent-Type: text/html\r\nContent-Length: 15\r\n\r\n<html>hi</html>"
            .to_vec()
    );
}

#[test]
fn get_missing_css_resolves_under_root_with_css_type() {
    let c = config();
    let input = b"GET /missing.css HTTP/1.1\r\nHost: localhost\r\n\r\n".to_vec();
    match handle_request(&input, &c) {
        DispatchStep::FetchFile { filename, content_type } => {
            assert_eq!(filename, b"src/missing.css".to_vec());
            assert_eq!(content_type, b"text/css".to_vec());
        }
        _ => panic!("expected a file fetch"),
    }
    assert_eq!(not_found_page_path(&c), b"src/404.html".to_vec());
    let page = b"gone".to_vec();
    assert_eq!(
        not_found_response(Some(&page)),
        b"HTTP/1.1 404 Not Found\r\nContent-Length: 4\r\n\r\ngone".to_vec()
    );
    assert_eq!(
        not_found_response(None),
        b"HTTP/1.1 404 Not Found\r\nContent-Length: 0\r\n\r\n".to_vec()
    );
}

#[test]
fn content_type_follows_extension() {
    let c = config();
    let cases: Vec<(&[u8], &[u8])> = vec![
        (b"/a.css", b"text/css"),
        (b"/a.js", b"application/javascript"),
        (b"/a.png", b"image/png"),
        (b"/a.jpg", b"image/jpeg"),
        (b"/a.jpeg", b"image/jpeg"),
        (b"/a.webp", b"image/webp"),
        (b"/a.html", b"text/plain"),
        (b"/noext", b"text/plain"),
    ];
    for (path, expected) in cases {
        let mut input = b"GET ".to_vec();
        input.extend_from_slice(path);
        input.extend_from_slice(b" HTTP/1.1\r\nHost: localhost\r\n\r\n");
        match handle_request(&input, &c) {
            DispatchStep::FetchFile { content_type, .. } => {
                assert_eq!(content_type, expected.to_vec());
            }
            _ => panic!("expected a file fetch"),
        }
    }
}

#[test]
fn cgi_path_goes_to_script_runner() {
    let c = config();
    let input = b"GET /cgi-bin/test.py HTTP/1.1\r\nHost: localhost\r\n\r\n".to_vec();
    match handle_request(&input, &c) {
        DispatchStep::RunCgi { script_path } => {
            assert_eq!(script_path, b"src/cgi-bin/test.py".to_vec());
        }
        _ => panic!("expected a CGI run"),
    }
    let out = b"cgi says hi".to_vec();
    assert_eq!(
        cgi_response(Some(&out)),
        b"HTTP/1.1 200 OK\r\nContent-Type: text/plain\r\nContent-Length: 11\r\n\r\ncgi says hi"
            .to_vec()
    );
    assert_eq!(
        cgi_response(None),
        b"HTTP/1.1 500 Internal Server Error\r\nContent-Length: 17\r\n\r\nCGI script failed"
            .to_vec()
    );
}

#[test]
fn post_echoes_received_body() {
    let c = config();
    let input = b"POST /anything HTTP/1.1\r\nHost: localhost\r\nContent-Length: 5\r\n\r\nhello"
        .to_vec();
    let r = reply(handle_request(&input, &c));
    assert_eq!(
        r,
        b"HTTP/1.1 200 OK\r\nContent-Length: 20\r\n\r\nReceived data: hello".to_vec()
    );
}

#[test]
fn post_handler_refuses_oversized_body() {
    let mut c = config();
    c.max_body_size = 3;
    let (status, body) = handle_post(&b"/x".to_vec(), &b"toolong".to_vec(), &c);
    assert_eq!(status, b"HTTP/1.1 413 Payload Too Large".to_vec());
    assert_eq!(body, b"Request body too large".to_vec());
    let r = compose_response(&status, &body);
    assert_eq!(
        r,
        b"HTTP/1.1 413 Payload Too Large\r\nContent-Length: 22\r\n\r\nRequest body too large"
            .to_vec()
    );
}

#[test]
fn delete_acknowledged_whatever_the_path() {
    let c = config();
    let input = b"DELETE /x HTTP/1.1\r\nHost: localhost\r\n\r\n".to_vec();
    let r = reply(handle_request(&input, &c));
    assert_eq!(
        r,
        b"HTTP/1.1 200 OK\r\nContent-Length: 23\r\n\r\nDelete request received".to_vec()
    );
    let other = b"DELETE /another/path HTTP/1.1\r\nHost: localhost\r\n\r\n".to_vec();
    assert_eq!(reply(handle_request(&other, &c)), r);
    let (status, body) = handle_delete(&b"/whatever".to_vec(), &c);
    assert_eq!(status, b"HTTP/1.1 200 OK".to_vec());
    assert_eq!(body, b"Delete request received".to_vec());
}

#[test]
fn malformed_request_line_gets_400() {
    let c = config();
    let input = b"GET /\r\nHost: localhost\r\n\r\n".to_vec();
    let r = reply(handle_request(&input, &c));
    assert_eq!(r, error_response(400, &c));
    assert_eq!(r, b"HTTP/1.1 400 Bad Request\r\nContent-Length: 9\r\n\r\nError 400".to_vec());
}

#[test]
fn oversized_declaration_gets_413_before_the_body() {
    let mut c = config();
    c.max_body_size = 4;
    let input = b"POST /x HTTP/1.1\r\nHost: localhost\r\nContent-Length: 100\r\n\r\n".to_vec();
    let r = reply(handle_request(&input, &c));
    assert_eq!(r, error_response(413, &c));
    assert_eq!(
        r,
        b"HTTP/1.1 413 Payload Too Large\r\nContent-Length: 9\r\n\r\nError 413".to_vec()
    );
}

#[test]
fn truncated_body_abandons_the_connection() {
    let c = config();
    let input = b"POST /x HTTP/1.1\r\nHost: localhost\r\nContent-Length: 9\r\n\r\nabc".to_vec();
    assert!(matches!(handle_request(&input, &c), DispatchStep::Abandon));
}

#[test]
fn replaying_a_request_is_idempotent() {
    let c = config();
    let input = b"GET /index.html HTTP/1.1\r\nHost: localhost\r\n\r\n".to_vec();
    let first = handle_request(&input, &c);
    let second = handle_request(&input, &c);
    match (first, second) {
        (
            DispatchStep::FetchFile { filename: f1, content_type: t1 },
            DispatchStep::FetchFile { filename: f2, content_type: t2 },
        ) => {
            assert_eq!(f1, f2);
            assert_eq!(t1, t2);
            let contents = b"stable file".to_vec();
            assert_eq!(ok_file_response(&contents, &t1), ok_file_response(&contents, &t2));
        }
        _ => panic!("expected two file fetches"),
    }
}

#[test]
fn error_response_without_configured_page_says_error_code() {
    let mut c = config();
    c.error_pages.clear();
    assert_eq!(
        error_response(404, &c),
        b"HTTP/1.1 404 Not Found\r\nContent-Length: 9\r\n\r\nError 404".to_vec()
    );
}

#[test]
fn unknown_status_code_reads_as_internal_error() {
    let c = config();
    assert_eq!(
        error_response(500, &c),
        b"HTTP/1.1 500 Internal Server Error\r\nContent-Length: 8\r\n\r\n500.html".to_vec()
    );
    let mut bare = config();
    bare.error_pages.clear();
    assert_eq!(
        error_response(418, &bare),
        b"HTTP/1.1 418 Internal Server Error\r\nContent-Length: 9\r\n\r\nError 418".to_vec()
    );
}

#[test]
fn duplicate_error_page_last_entry_wins() {
    let mut c = config();
    c.error_pages.push((404, b"newer.html".to_vec()));
    assert_eq!(
        error_response(404, &c),
        b"HTTP/1.1 404 Not Found\r\nContent-Length: 10\r\n\r\nnewer.html".to_vec()
    );
}

#[test]
fn empty_hostname_accepts_any_host() {
    let mut c = config();
    c.hostname.clear();
    let input = b"DELETE /x HTTP/1.1\r\nHost: anyone\r\n\r\n".to_vec();
    let r = reply(handle_request(&input, &c));
    assert!(r.starts_with(b"HTTP/1.1 200 OK"));
    let bare = b"DELETE /x HTTP/1.1\r\n\r\n".to_vec();
    let r2 = reply(handle_request(&bare, &c));
    assert_eq!(r, r2);
}

#[test]
fn duplicated_config_answers_like_the_original() {
    let c = config();
    let d = c.duplicate();
    assert_eq!(d.hostname, c.hostname);
    assert_eq!(d.port, c.port);
    assert_eq!(d.root_dir, c.root_dir);
    assert_eq!(d.error_pages, c.error_pages);
    assert_eq!(d.max_body_size, c.max_body_size);
    assert_eq!(d.allowed_methods, c.allowed_methods);
    assert_eq!(d.default_file, c.default_file);
    let input = b"GET /a.css HTTP/1.1\r\nHost: localhost\r\n\r\n".to_vec();
    match (handle_request(&input, &c), handle_request(&input, &d)) {
        (
            DispatchStep::FetchFile { filename: f1, content_type: t1 },
            DispatchStep::FetchFile { filename: f2, content_type: t2 },
        ) => {
            assert_eq!(f1, f2);
            assert_eq!(t1, t2);
        }
        _ => panic!("expected two file fetches"),
    }
}
