//! The request value and its parser.
//!
//! A request is parsed from the bytes one buffer fill returned: the buffer
//! is decoded as UTF-8 text, the text is split on the `\r\n` line
//! terminator, and the pieces are read at fixed positions — the request
//! line first, the header value of interest on the third line, the body on
//! the seventh. Missing header or body lines default to the empty string;
//! an undecodable buffer or a request line with fewer than three tokens is
//! a parse failure, and no request value is produced for it.

use vstd::prelude::*;
use vstd::utf8::{decode_utf8, valid_utf8};

use crate::strutil::{split_crlf, split_lines, split_whitespace, tokens};

verus! {

/// A request, constructed only by a successful parse.
#[derive(Debug)]
pub struct Request {
    pub method: String,
    pub path: String,
    pub version: String,
    pub user_agent: String,
    pub body: String,
}

/// The mathematical content of a [`Request`].
#[verifier::ext_equal]
pub struct RequestView {
    pub method: Seq<char>,
    pub path: Seq<char>,
    pub version: Seq<char>,
    pub user_agent: Seq<char>,
    pub body: Seq<char>,
}

impl View for Request {
    type V = RequestView;

    open spec fn view(&self) -> RequestView {
        RequestView {
            method: self.method@,
            path: self.path@,
            version: self.version@,
            user_agent: self.user_agent@,
            body: self.body@,
        }
    }
}

/// Why a buffer failed to parse as a request.
#[derive(Clone, Copy, Debug, PartialEq, Eq, Structural)]
pub enum ParseError {
    /// The buffer is not valid UTF-8.
    InvalidEncoding,
    /// The request line has fewer than three whitespace-separated tokens.
    MalformedRequestLine,
}

/// The header value of interest: the second token of the third line; the
/// empty string when that line is missing or has fewer than two tokens.
pub open spec fn spec_user_agent(lines: Seq<Seq<char>>) -> Seq<char> {
    if lines.len() < 3 {
        Seq::empty()
    } else if tokens(lines[2]).len() < 2 {
        Seq::empty()
    } else {
        tokens(lines[2])[1]
    }
}

/// The body: the seventh line verbatim; the empty string when the split
/// yields fewer lines.
pub open spec fn spec_body(lines: Seq<Seq<char>>) -> Seq<char> {
    if lines.len() < 7 {
        Seq::empty()
    } else {
        lines[6]
    }
}

/// What parsing decoded request text yields: the three request line tokens,
/// the header value and the body at their fixed line positions, or a
/// failure when the request line is short.
pub open spec fn spec_parse_text(text: Seq<char>) -> Result<RequestView, ParseError> {
    let lines = split_crlf(text);
    let req_line = tokens(lines[0]);
    if req_line.len() < 3 {
        Err(ParseError::MalformedRequestLine)
    } else {
        Ok(
            RequestView {
                method: req_line[0],
                path: req_line[1],
                version: req_line[2],
                user_agent: spec_user_agent(lines),
                body: spec_body(lines),
            },
        )
    }
}

/// Relies on `core::str::from_utf8`: it returns `Ok` exactly when the bytes
/// are valid UTF-8, and the string it returns is their UTF-8 decoding.
#[verifier::external_body]
fn decode_text(input: &[u8]) -> (r: Option<String>)
    ensures
        r is Some <==> valid_utf8(input@),
        r matches Some(s) ==> s@ == decode_utf8(input@),
{
    match core::str::from_utf8(input) {
        Ok(s) => Some(s.to_string()),
        Err(_) => None,
    }
}

impl Request {
    /// Parses decoded request text.
    pub fn parse_text(text: &str) -> (r: Result<Request, ParseError>)
        ensures
            (spec_parse_text(text@) matches Ok(rv) ==> r matches Ok(req) && req@ == rv),
            (spec_parse_text(text@) matches Err(e) ==> r matches Err(e2) && e2 == e),
    {
        let lines = split_lines(text);
        let ghost linesv = split_crlf(text@);
        proof {
            assert(lines.deep_view()[0] == lines@[0]@);
        }
        let req_line = split_whitespace(lines[0].as_str());
        proof {
            assert(req_line.deep_view() == tokens(linesv[0]));
        }
        if req_line.len() < 3 {
            return Err(ParseError::MalformedRequestLine);
        }
        let user_agent: String = if lines.len() >= 3 {
            proof {
                assert(lines.deep_view()[2] == lines@[2]@);
            }
            let ua_toks = split_whitespace(lines[2].as_str());
            if ua_toks.len() < 2 {
                String::new()
            } else {
                proof {
                    assert(ua_toks.deep_view()[1] == ua_toks@[1]@);
                }
                ua_toks[1].clone()
            }
        } else {
            String::new()
        };
        let body: String = if lines.len() >= 7 {
            proof {
                assert(lines.deep_view()[6] == lines@[6]@);
            }
            lines[6].clone()
        } else {
            String::new()
        };
        proof {
            assert(req_line.deep_view()[0] == req_line@[0]@);
            assert(req_line.deep_view()[1] == req_line@[1]@);
            assert(req_line.deep_view()[2] == req_line@[2]@);
        }
        let req = Request {
            method: req_line[0].clone(),
            path: req_line[1].clone(),
            version: req_line[2].clone(),
            user_agent,
            body,
        };
        proof {
            let rv = spec_parse_text(text@)->Ok_0;
            assert(req@ =~= rv);
        }
        Ok(req)
    }

    /// Parses the raw bytes one buffer fill returned from a connection.
    pub fn parse(input: &[u8]) -> (r: Result<Request, ParseError>)
        ensures
            (r matches Err(e) && e == ParseError::InvalidEncoding) <==> !valid_utf8(input@),
            valid_utf8(input@) ==> (match spec_parse_text(decode_utf8(input@)) {
                Ok(rv) => r matches Ok(req) && req@ == rv,
                Err(e) => r matches Err(e2) && e2 == e,
            }),
    {
        match decode_text(input) {
            None => Err(ParseError::InvalidEncoding),
            Some(text) => {
                let r = Self::parse_text(text.as_str());
                proof {
                    if spec_parse_text(text@) is Err {
                        assert(spec_parse_text(text@)->Err_0 == ParseError::MalformedRequestLine);
                    }
                }
                r
            },
        }
    }
}

} // verus!
