//! Response composition: the status line, the `Content-Length` header and
//! the body, laid out exactly as they go onto the wire.

use vstd::prelude::*;
use crate::config::{spec_error_page, ServerConfig, ConfigModel};
use crate::text::{append_bytes, ascii_bytes, ascii_seq, dec_bytes, spec_dec, sub_vec};

verus! {

/// The reason phrase that goes with a status code; every code outside the
/// explicit set reads as an internal error.
pub open spec fn spec_status_text(code: u16) -> Seq<u8> {
    if code == 400 {
        ascii_seq("Bad Request")
    } else if code == 404 {
        ascii_seq("Not Found")
    } else if code == 405 {
        ascii_seq("Method Not Allowed")
    } else if code == 413 {
        ascii_seq("Payload Too Large")
    } else {
        ascii_seq("Internal Server Error")
    }
}

/// The status line for an error response: `HTTP/1.1 <code> <reason>`.
pub open spec fn spec_status_line(code: u16) -> Seq<u8> {
    ascii_seq("HTTP/1.1 ") + spec_dec(code as nat) + seq![32u8] + spec_status_text(code)
}

/// A whole response: status line, the `Content-Length` header counting the
/// body bytes, a blank line, and the body.
pub open spec fn spec_compose(status_line: Seq<u8>, body: Seq<u8>) -> Seq<u8> {
    status_line + ascii_seq("\r\nContent-Length: ") + spec_dec(body.len()) + ascii_seq("\r\n\r\n")
        + body
}

/// The body of an error response: the configured page for the code, or
/// `Error <code>` when none is configured.
pub open spec fn spec_error_body(c: ConfigModel, code: u16) -> Seq<u8> {
    match spec_error_page(c.error_pages, code) {
        Some(p) => p,
        None => ascii_seq("Error ") + spec_dec(code as nat),
    }
}

/// The full error response for a status code under a configuration.
pub open spec fn spec_error_response(c: ConfigModel, code: u16) -> Seq<u8> {
    spec_compose(spec_status_line(code), spec_error_body(c, code))
}

/// The reason phrase for `code`.
pub fn status_text(code: u16) -> (r: Vec<u8>)
    ensures
        r@ == spec_status_text(code),
{
    if code == 400 {
        proof {
            reveal_strlit("Bad Request");
        }
        ascii_bytes("Bad Request")
    } else if code == 404 {
        proof {
            reveal_strlit("Not Found");
        }
        ascii_bytes("Not Found")
    } else if code == 405 {
        proof {
            reveal_strlit("Method Not Allowed");
        }
        ascii_bytes("Method Not Allowed")
    } else if code == 413 {
        proof {
            reveal_strlit("Payload Too Large");
        }
        ascii_bytes("Payload Too Large")
    } else {
        proof {
            reveal_strlit("Internal Server Error");
        }
        ascii_bytes("Internal Server Error")
    }
}

/// The status line for an error response.
pub fn status_line(code: u16) -> (r: Vec<u8>)
    ensures
        r@ == spec_status_line(code),
{
    proof {
        reveal_strlit("HTTP/1.1 ");
    }
    let mut r = ascii_bytes("HTTP/1.1 ");
    let digits = dec_bytes(code as usize);
    append_bytes(&mut r, &digits);
    r.push(32);
    let reason = status_text(code);
    append_bytes(&mut r, &reason);
    proof {
        assert(r@ =~= spec_status_line(code));
    }
    r
}

/// Lays a response out on the wire: status line, `Content-Length`, blank
/// line, body.
pub fn compose_response(status: &Vec<u8>, body: &Vec<u8>) -> (r: Vec<u8>)
    ensures
        r@ == spec_compose(status@, body@),
{
    proof {
        reveal_strlit("\r\nContent-Length: ");
        reveal_strlit("\r\n\r\n");
    }
    let mut r = sub_vec(status, 0, status.len());
    proof {
        assert(r@ =~= status@);
    }
    let header = ascii_bytes("\r\nContent-Length: ");
    append_bytes(&mut r, &header);
    let digits = dec_bytes(body.len());
    append_bytes(&mut r, &digits);
    let sep = ascii_bytes("\r\n\r\n");
    append_bytes(&mut r, &sep);
    append_bytes(&mut r, body);
    proof {
        assert(r@ =~= spec_compose(status@, body@));
    }
    r
}

/// The complete response the server sends for an error status: the
/// configured page, or `Error <code>`, under the matching status line.
pub fn error_response(code: u16, config: &ServerConfig) -> (r: Vec<u8>)
    ensures
        r@ == spec_error_response(config@, code),
{
    let body: Vec<u8> = match config.error_page(code) {
        Some(p) => sub_vec(p, 0, p.len()),
        None => {
            proof {
                reveal_strlit("Error ");
            }
            let mut b = ascii_bytes("Error ");
            let digits = dec_bytes(code as usize);
            append_bytes(&mut b, &digits);
            b
        },
    };
    proof {
        assert(body@ =~= spec_error_body(config@, code));
    }
    let line = status_line(code);
    compose_response(&line, &body)
}

} // verus!
