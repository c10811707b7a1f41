//! The per-connection dispatcher: parse, validate host and method, route by
//! method, and compose the response.  Everything that touches a socket, the
//! filesystem or a child process stays outside; the dispatcher returns what
//! to do, and small composer functions turn each outside outcome into the
//! exact response bytes.

use vstd::prelude::*;
use crate::config::{spec_method_allowed, ServerConfig, ConfigModel};
use crate::parser::{
    head_complete, lemma_oversized_declaration_rejected, spec_content_length, spec_find_nl,
    spec_head, spec_parse, spec_tokens, MessageParser, ParseError,
};
use crate::request::{spec_header_value, ReqModel};
use crate::response::{compose_response, error_response, spec_compose, spec_error_response};
use crate::text::{append_bytes, ascii_bytes, ascii_seq, bytes_eq, bytes_start_with, sub_vec};

verus! {

/// What the worker must do for a connection once the request bytes are in
/// hand: send a finished reply, fetch a file and reply with it, run a CGI
/// script and reply with its output, or close without replying (a stream
/// that died mid-body deserves no answer).
pub enum DispatchStep {
    Reply(Vec<u8>),
    FetchFile { filename: Vec<u8>, content_type: Vec<u8> },
    RunCgi { script_path: Vec<u8> },
    Abandon,
}

/// The mathematical shadow of a [`DispatchStep`].
pub ghost enum StepModel {
    Reply(Seq<u8>),
    FetchFile { filename: Seq<u8>, content_type: Seq<u8> },
    RunCgi { script_path: Seq<u8> },
    Abandon,
}

impl View for DispatchStep {
    type V = StepModel;

    open spec fn view(&self) -> StepModel {
        match self {
            DispatchStep::Reply(r) => StepModel::Reply(r@),
            DispatchStep::FetchFile { filename, content_type } => StepModel::FetchFile {
                filename: filename@,
                content_type: content_type@,
            },
            DispatchStep::RunCgi { script_path } => StepModel::RunCgi {
                script_path: script_path@,
            },
            DispatchStep::Abandon => StepModel::Abandon,
        }
    }
}

/// The extension of a path: what follows the last dot, or the whole path
/// when it has no dot.
pub open spec fn spec_ext(s: Seq<u8>) -> Seq<u8>
    decreases s.len(),
{
    if s.len() == 0 {
        Seq::empty()
    } else if s.last() == 46 {
        Seq::empty()
    } else {
        spec_ext(s.drop_last()).push(s.last())
    }
}

/// The content type inferred from a path's extension.
pub open spec fn spec_content_type(path: Seq<u8>) -> Seq<u8> {
    let e = spec_ext(path);
    if e == ascii_seq("css") {
        ascii_seq("text/css")
    } else if e == ascii_seq("js") {
        ascii_seq("application/javascript")
    } else if e == ascii_seq("png") {
        ascii_seq("image/png")
    } else if e == ascii_seq("jpg") || e == ascii_seq("jpeg") {
        ascii_seq("image/jpeg")
    } else if e == ascii_seq("webp") {
        ascii_seq("image/webp")
    } else {
        ascii_seq("text/plain")
    }
}

/// The request's `Host` header, or empty when it sent none.
pub open spec fn spec_host(m: ReqModel) -> Seq<u8> {
    match spec_header_value(m.headers, ascii_seq("Host")) {
        Some(h) => h,
        None => Seq::empty(),
    }
}

/// Where a GET goes: a CGI path is handed to the script runner, the root
/// path maps to the default file under the root directory, and every other
/// path maps to the same path under the root directory.
pub open spec fn spec_get_plan(path: Seq<u8>, c: ConfigModel) -> StepModel {
    if ascii_seq("/cgi-bin/").is_prefix_of(path) {
        StepModel::RunCgi { script_path: c.root_dir + path }
    } else if path == ascii_seq("/") {
        StepModel::FetchFile {
            filename: c.root_dir + seq![47u8] + c.default_file,
            content_type: ascii_seq("text/html"),
        }
    } else {
        StepModel::FetchFile { filename: c.root_dir + path, content_type: spec_content_type(path) }
    }
}

/// The status line a POST gets: too large a body is refused, anything else
/// acknowledged.
pub open spec fn spec_post_status(body: Seq<u8>, c: ConfigModel) -> Seq<u8> {
    if body.len() > c.max_body_size {
        ascii_seq("HTTP/1.1 413 Payload Too Large")
    } else {
        ascii_seq("HTTP/1.1 200 OK")
    }
}

/// The body a POST gets back: a refusal notice, or an acknowledgement that
/// echoes the received body.
pub open spec fn spec_post_body(body: Seq<u8>, c: ConfigModel) -> Seq<u8> {
    if body.len() > c.max_body_size {
        ascii_seq("Request body too large")
    } else {
        ascii_seq("Received data: ") + body
    }
}

/// The fixed acknowledgement every DELETE gets, whatever its path.
pub open spec fn spec_delete_reply() -> Seq<u8> {
    spec_compose(ascii_seq("HTTP/1.1 200 OK"), ascii_seq("Delete request received"))
}

/// What the dispatcher does with the raw bytes of one connection under a
/// configuration: the whole decision, as a function of the two alone.
pub open spec fn spec_handle_request(s: Seq<u8>, c: ConfigModel) -> StepModel {
    match spec_parse(s, c.max_body_size) {
        Err(ParseError::Io) => StepModel::Abandon,
        Err(ParseError::MalformedRequestLine) => StepModel::Reply(spec_error_response(c, 400)),
        Err(ParseError::PayloadTooLarge) => StepModel::Reply(spec_error_response(c, 413)),
        Ok(m) => {
            if !c.hostname.is_prefix_of(spec_host(m)) {
                StepModel::Reply(spec_error_response(c, 404))
            } else if !spec_method_allowed(c.allowed_methods, m.method) {
                StepModel::Reply(spec_error_response(c, 405))
            } else if m.method == ascii_seq("GET") {
                spec_get_plan(m.path, c)
            } else if m.method == ascii_seq("POST") {
                StepModel::Reply(
                    spec_compose(spec_post_status(m.body, c), spec_post_body(m.body, c)),
                )
            } else if m.method == ascii_seq("DELETE") {
                StepModel::Reply(spec_delete_reply())
            } else {
                StepModel::Reply(
                    spec_compose(
                        ascii_seq("HTTP/1.1 405 Method Not Allowed"),
                        ascii_seq("Method not allowed"),
                    ),
                )
            }
        },
    }
}

/// The response to a GET whose file was read: `200 OK` with the inferred
/// content type on the status line and the file bytes as the body.
pub open spec fn spec_ok_file_reply(contents: Seq<u8>, content_type: Seq<u8>) -> Seq<u8> {
    spec_compose(ascii_seq("HTTP/1.1 200 OK\r\nContent-Type: ") + content_type, contents)
}

/// The response to a GET whose file could not be read: `404 Not Found`,
/// with the root's own error page when it was readable and empty otherwise.
pub open spec fn spec_not_found_reply(page: Option<Seq<u8>>) -> Seq<u8> {
    spec_compose(
        ascii_seq("HTTP/1.1 404 Not Found"),
        match page {
            Some(p) => p,
            None => Seq::empty(),
        },
    )
}

/// The response to a CGI run: the captured output as a plain-text `200`,
/// or a fixed `500` when the script could not be run.
pub open spec fn spec_cgi_reply(output: Option<Seq<u8>>) -> Seq<u8> {
    match output {
        Some(out) => spec_compose(
            ascii_seq("HTTP/1.1 200 OK\r\nContent-Type: text/plain"),
            out,
        ),
        None => spec_compose(
            ascii_seq("HTTP/1.1 500 Internal Server Error"),
            ascii_seq("CGI script failed"),
        ),
    }
}

/// The extension of `path`: the bytes after the last dot, or all of `path`
/// when it has no dot.
fn extension(path: &Vec<u8>) -> (r: Vec<u8>)
    ensures
        r@ == spec_ext(path@),
{
    let mut j: usize = path.len();
    proof {
        assert(path@.take(j as int) =~= path@);
        assert(path@.skip(j as int) =~= Seq::<u8>::empty());
        assert(spec_ext(path@) =~= spec_ext(path@.take(j as int)) + path@.skip(j as int));
    }
    while j > 0
        invariant
            j <= path.len(),
            spec_ext(path@) == spec_ext(path@.take(j as int)) + path@.skip(j as int),
        decreases j,
    {
        proof {
            assert(path@.take(j as int).drop_last() =~= path@.take(j - 1));
            assert(path@.take(j as int).last() == path@[j - 1]);
        }
        if path[j - 1] == 46 {
            proof {
                assert(spec_ext(path@) =~= path@.skip(j as int));
            }
            return sub_vec(path, j, path.len());
        }
        proof {
            assert(spec_ext(path@.take(j - 1)) + path@.skip(j - 1) =~= spec_ext(
                path@.take(j as int),
            ) + path@.skip(j as int));
        }
        j = j - 1;
    }
    proof {
        assert(path@.take(0) =~= Seq::<u8>::empty());
        assert(spec_ext(path@) =~= path@);
    }
    sub_vec(path, 0, path.len())
}

/// The content type for a path, by its extension.
fn content_type_for(path: &Vec<u8>) -> (r: Vec<u8>)
    ensures
        r@ == spec_content_type(path@),
{
    proof {
        reveal_strlit("css");
        reveal_strlit("js");
        reveal_strlit("png");
        reveal_strlit("jpg");
        reveal_strlit("jpeg");
        reveal_strlit("webp");
        reveal_strlit("text/css");
        reveal_strlit("application/javascript");
        reveal_strlit("image/png");
        reveal_strlit("image/jpeg");
        reveal_strlit("image/webp");
        reveal_strlit("text/plain");
    }
    let e = extension(path);
    if bytes_eq(&e, &ascii_bytes("css")) {
        ascii_bytes("text/css")
    } else if bytes_eq(&e, &ascii_bytes("js")) {
        ascii_bytes("application/javascript")
    } else if bytes_eq(&e, &ascii_bytes("png")) {
        ascii_bytes("image/png")
    } else if bytes_eq(&e, &ascii_bytes("jpg")) || bytes_eq(&e, &ascii_bytes("jpeg")) {
        ascii_bytes("image/jpeg")
    } else if bytes_eq(&e, &ascii_bytes("webp")) {
        ascii_bytes("image/webp")
    } else {
        ascii_bytes("text/plain")
    }
}

/// Routes a GET: CGI paths go to the script runner, everything else to the
/// file under the root directory.
pub fn plan_get(path: &Vec<u8>, config: &ServerConfig) -> (r: DispatchStep)
    ensures
        r@ == spec_get_plan(path@, config@),
{
    proof {
        reveal_strlit("/cgi-bin/");
        reveal_strlit("/");
        reveal_strlit("text/html");
    }
    let cgi_prefix = ascii_bytes("/cgi-bin/");
    if bytes_start_with(path, &cgi_prefix) {
        let mut script_path = sub_vec(&config.root_dir, 0, config.root_dir.len());
        proof {
            assert(script_path@ =~= config@.root_dir);
        }
        append_bytes(&mut script_path, path);
        return DispatchStep::RunCgi { script_path };
    }
    let root = ascii_bytes("/");
    if bytes_eq(path, &root) {
        let mut filename = sub_vec(&config.root_dir, 0, config.root_dir.len());
        proof {
            assert(filename@ =~= config@.root_dir);
        }
        filename.push(47);
        append_bytes(&mut filename, &config.default_file);
        proof {
            assert(filename@ =~= config@.root_dir + seq![47u8] + config@.default_file);
        }
        return DispatchStep::FetchFile { filename, content_type: ascii_bytes("text/html") };
    }
    let mut filename = sub_vec(&config.root_dir, 0, config.root_dir.len());
    proof {
        assert(filename@ =~= config@.root_dir);
    }
    append_bytes(&mut filename, path);
    let content_type = content_type_for(path);
    DispatchStep::FetchFile { filename, content_type }
}

/// Acknowledges a POST, refusing a body over the configured limit.
pub fn handle_post(_path: &Vec<u8>, body: &Vec<u8>, config: &ServerConfig) -> (r: (Vec<u8>, Vec<
    u8,
>))
    ensures
        r.0@ == spec_post_status(body@, config@),
        r.1@ == spec_post_body(body@, config@),
{
    if body.len() > config.max_body_size {
        proof {
            reveal_strlit("HTTP/1.1 413 Payload Too Large");
            reveal_strlit("Request body too large");
        }
        (ascii_bytes("HTTP/1.1 413 Payload Too Large"), ascii_bytes("Request body too large"))
    } else {
        proof {
            reveal_strlit("HTTP/1.1 200 OK");
            reveal_strlit("Received data: ");
        }
        let mut echo = ascii_bytes("Received data: ");
        append_bytes(&mut echo, body);
        (ascii_bytes("HTTP/1.1 200 OK"), echo)
    }
}

/// Acknowledges a DELETE with a fixed body, whatever the path; nothing is
/// deleted.
pub fn handle_delete(_path: &Vec<u8>, _config: &ServerConfig) -> (r: (Vec<u8>, Vec<u8>))
    ensures
        r.0@ == ascii_seq("HTTP/1.1 200 OK"),
        r.1@ == ascii_seq("Delete request received"),
{
    proof {
        reveal_strlit("HTTP/1.1 200 OK");
        reveal_strlit("Delete request received");
    }
    (ascii_bytes("HTTP/1.1 200 OK"), ascii_bytes("Delete request received"))
}

/// Decides a whole connection: parses the request bytes, validates the host
/// and the method, routes by method, and returns either the finished reply
/// or the one outside step still needed.
pub fn handle_request(input: &Vec<u8>, config: &ServerConfig) -> (r: DispatchStep)
    ensures
        r@ == spec_handle_request(input@, config@),
{
    proof {
        reveal_strlit("Host");
        reveal_strlit("GET");
        reveal_strlit("POST");
        reveal_strlit("DELETE");
        reveal_strlit("HTTP/1.1 405 Method Not Allowed");
        reveal_strlit("Method not allowed");
    }
    let req = match MessageParser::parse_request(input, config.max_body_size) {
        Err(ParseError::Io) => {
            return DispatchStep::Abandon;
        },
        Err(ParseError::MalformedRequestLine) => {
            return DispatchStep::Reply(error_response(400, config));
        },
        Err(ParseError::PayloadTooLarge) => {
            return DispatchStep::Reply(error_response(413, config));
        },
        Ok(req) => req,
    };
    let host_key = ascii_bytes("Host");
    let host_ok = match req.header_value(&host_key) {
        Some(h) => bytes_start_with(h, &config.hostname),
        None => {
            proof {
                assert(config@.hostname.is_prefix_of(Seq::<u8>::empty()) <==> config@.hostname.len()
                    == 0);
            }
            config.hostname.len() == 0
        },
    };
    if !host_ok {
        return DispatchStep::Reply(error_response(404, config));
    }
    if !config.method_allowed(&req.method) {
        return DispatchStep::Reply(error_response(405, config));
    }
    if bytes_eq(&req.method, &ascii_bytes("GET")) {
        plan_get(&req.path, config)
    } else if bytes_eq(&req.method, &ascii_bytes("POST")) {
        let (status, body) = handle_post(&req.path, &req.body, config);
        DispatchStep::Reply(compose_response(&status, &body))
    } else if bytes_eq(&req.method, &ascii_bytes("DELETE")) {
        let (status, body) = handle_delete(&req.path, config);
        DispatchStep::Reply(compose_response(&status, &body))
    } else {
        let status = ascii_bytes("HTTP/1.1 405 Method Not Allowed");
        let body = ascii_bytes("Method not allowed");
        DispatchStep::Reply(compose_response(&status, &body))
    }
}

/// Finishes a GET whose file was read.
pub fn ok_file_response(contents: &Vec<u8>, content_type: &Vec<u8>) -> (r: Vec<u8>)
    ensures
        r@ == spec_ok_file_reply(contents@, content_type@),
{
    proof {
        reveal_strlit("HTTP/1.1 200 OK\r\nContent-Type: ");
    }
    let mut status = ascii_bytes("HTTP/1.1 200 OK\r\nContent-Type: ");
    append_bytes(&mut status, content_type);
    compose_response(&status, contents)
}

/// Finishes a GET whose file could not be read: a 404 whose body is the
/// root's own error page when that was readable, empty otherwise.
pub fn not_found_response(page: Option<&Vec<u8>>) -> (r: Vec<u8>)
    ensures
        r@ == spec_not_found_reply(
            match page {
                Some(p) => Some(p@),
                None => None,
            },
        ),
{
    proof {
        reveal_strlit("HTTP/1.1 404 Not Found");
    }
    let status = ascii_bytes("HTTP/1.1 404 Not Found");
    match page {
        Some(p) => compose_response(&status, p),
        None => {
            let empty: Vec<u8> = Vec::new();
            compose_response(&status, &empty)
        },
    }
}

/// Where the root's own error page lives: `<root>/404.html`.
pub fn not_found_page_path(config: &ServerConfig) -> (r: Vec<u8>)
    ensures
        r@ == config@.root_dir + ascii_seq("/404.html"),
{
    proof {
        reveal_strlit("/404.html");
    }
    let mut r = sub_vec(&config.root_dir, 0, config.root_dir.len());
    proof {
        assert(r@ =~= config@.root_dir);
    }
    let tail = ascii_bytes("/404.html");
    append_bytes(&mut r, &tail);
    r
}

/// Finishes a GET that went to the script runner.
pub fn cgi_response(output: Option<&Vec<u8>>) -> (r: Vec<u8>)
    ensures
        r@ == spec_cgi_reply(
            match output {
                Some(out) => Some(out@),
                None => None,
            },
        ),
{
    match output {
        Some(out) => {
            proof {
                reveal_strlit("HTTP/1.1 200 OK\r\nContent-Type: text/plain");
            }
            let status = ascii_bytes("HTTP/1.1 200 OK\r\nContent-Type: text/plain");
            compose_response(&status, out)
        },
        None => {
            proof {
                reveal_strlit("HTTP/1.1 500 Internal Server Error");
                reveal_strlit("CGI script failed");
            }
            let status = ascii_bytes("HTTP/1.1 500 Internal Server Error");
            let body = ascii_bytes("CGI script failed");
            compose_response(&status, &body)
        },
    }
}

/// A request whose `Host` header does not start with the configured
/// hostname is answered 404, whatever its method or path.
pub proof fn lemma_host_mismatch_rejected(s: Seq<u8>, c: ConfigModel)
    requires
        spec_parse(s, c.max_body_size) matches Ok(m) && !c.hostname.is_prefix_of(spec_host(m)),
    ensures
        spec_handle_request(s, c) == StepModel::Reply(spec_error_response(c, 404)),
{
}

/// A request whose method is outside the allowed set, from a matching host,
/// is answered 405.
pub proof fn lemma_method_not_allowed_rejected(s: Seq<u8>, c: ConfigModel)
    requires
        spec_parse(s, c.max_body_size) matches Ok(m) && c.hostname.is_prefix_of(spec_host(m))
            && !spec_method_allowed(c.allowed_methods, m.method),
    ensures
        spec_handle_request(s, c) == StepModel::Reply(spec_error_response(c, 405)),
{
}

/// A request line with fewer than three whitespace-separated tokens fails
/// the parse, and the dispatcher answers 400.
pub proof fn lemma_short_request_line_rejected(s: Seq<u8>, c: ConfigModel)
    requires
        spec_tokens(s.take(spec_find_nl(s, 0))).len() < 3,
    ensures
        spec_parse(s, c.max_body_size) == Err::<ReqModel, ParseError>(
            ParseError::MalformedRequestLine,
        ),
        spec_handle_request(s, c) == StepModel::Reply(spec_error_response(c, 400)),
{
}

/// A request whose head declares a Content-Length over the configured
/// limit is answered 413, before and so regardless of whatever bytes follow
/// the head.
pub proof fn lemma_oversized_declaration_answered(h: Seq<u8>, b: Seq<u8>, c: ConfigModel)
    requires
        spec_find_nl(h, 0) < h.len(),
        spec_tokens(h.take(spec_find_nl(h, 0))).len() >= 3,
        head_complete(h.skip(spec_find_nl(h, 0) + 1)),
        spec_content_length(spec_head(h.skip(spec_find_nl(h, 0) + 1)).0) > c.max_body_size,
    ensures
        spec_handle_request(h + b, c) == StepModel::Reply(spec_error_response(c, 413)),
{
    lemma_oversized_declaration_rejected(h, b, c.max_body_size);
}

/// Replaying a request is idempotent: the same bytes under the same
/// configuration decide the same step, and serving the same file contents
/// with the same content type yields byte-identical responses.
pub proof fn lemma_replay_identical(
    s1: Seq<u8>,
    s2: Seq<u8>,
    c1: ConfigModel,
    c2: ConfigModel,
    f1: Seq<u8>,
    f2: Seq<u8>,
    t1: Seq<u8>,
    t2: Seq<u8>,
)
    requires
        s1 == s2,
        c1 == c2,
        f1 == f2,
        t1 == t2,
    ensures
        spec_handle_request(s1, c1) == spec_handle_request(s2, c2),
        spec_ok_file_reply(f1, t1) == spec_ok_file_reply(f2, t2),
{
}

} // verus!
