//! Response values, the router, and the response formatter.
//!
//! The router maps a request to a finished response for every route that
//! needs nothing from the outside world. The two `files` routes need one
//! filesystem operation each; for those the router returns the operation to
//! perform, and [`Response::after_file_read`] and
//! [`Response::after_file_write`] turn the operation's result into the
//! response, whatever that result was.

use vstd::prelude::*;
use vstd::string::*;
use vstd::utf8::encode_utf8;

use crate::request::{Request, RequestView};
use crate::strutil::{byte_length, crlf, dec_str, dec_string, find_slash, first_slash, str_eq};

verus! {

/// The closed set of statuses a response can carry, each mapped to a fixed
/// status line text.
#[derive(Clone, Copy, Debug)]
pub enum ResponseHeader {
    HttpOk,
    HttpNotFound,
    HttpBad,
    HttpMethodNotAllowed,
    HttpCreated,
}

/// The fixed status line text of each status.
pub open spec fn status_text(response: ResponseHeader) -> Seq<char> {
    match response {
        ResponseHeader::HttpOk => "200 OK"@,
        ResponseHeader::HttpNotFound => "404 Not Found"@,
        ResponseHeader::HttpBad => "500 Bad"@,
        ResponseHeader::HttpMethodNotAllowed => "405 Method Not Allowed"@,
        ResponseHeader::HttpCreated => "201 Created"@,
    }
}

impl ResponseHeader {
    /// The status line text that follows the version on the wire.
    pub fn get(response: ResponseHeader) -> (text: String)
        ensures
            text@ == status_text(response),
    {
        match response {
            ResponseHeader::HttpOk => "200 OK".to_owned(),
            ResponseHeader::HttpNotFound => "404 Not Found".to_owned(),
            ResponseHeader::HttpBad => "500 Bad".to_owned(),
            ResponseHeader::HttpMethodNotAllowed => "405 Method Not Allowed".to_owned(),
            ResponseHeader::HttpCreated => "201 Created".to_owned(),
        }
    }
}

/// A response, built once by the router and consumed once by the formatter.
#[derive(Debug)]
pub struct Response {
    pub version: String,
    pub header: String,
    pub content_type: String,
    pub content_length: usize,
    pub body: String,
}

/// The mathematical content of a [`Response`].
#[verifier::ext_equal]
pub struct ResponseView {
    pub version: Seq<char>,
    pub header: Seq<char>,
    pub content_type: Seq<char>,
    pub content_length: nat,
    pub body: Seq<char>,
}

impl View for Response {
    type V = ResponseView;

    open spec fn view(&self) -> ResponseView {
        ResponseView {
            version: self.version@,
            header: self.header@,
            content_type: self.content_type@,
            content_length: self.content_length as nat,
            body: self.body@,
        }
    }
}

/// Well-formed: the declared content length is the byte length of the body.
pub open spec fn resp_wf(r: ResponseView) -> bool {
    r.content_length == encode_utf8(r.body).len()
}

/// A response with the given status and no body.
pub open spec fn empty_response(version: Seq<char>, status: Seq<char>) -> ResponseView {
    ResponseView {
        version: version,
        header: status,
        content_type: Seq::empty(),
        content_length: 0,
        body: Seq::empty(),
    }
}

/// A 200 response carrying `body` under the given content type.
pub open spec fn ok_response(
    version: Seq<char>,
    content_type: Seq<char>,
    body: Seq<char>,
) -> ResponseView {
    ResponseView {
        version: version,
        header: status_text(ResponseHeader::HttpOk),
        content_type: content_type,
        content_length: encode_utf8(body).len(),
        body: body,
    }
}

/// What the router decides for a request: a finished response, or the one
/// filesystem operation the response still needs.
pub enum RouteOutcome {
    Done(Response),
    ReadFile { version: String, file_name: String },
    WriteFile { version: String, file_name: String, contents: String },
}

/// The mathematical content of a [`RouteOutcome`].
#[verifier::ext_equal]
pub enum RouteOutcomeView {
    Done(ResponseView),
    ReadFile { version: Seq<char>, file_name: Seq<char> },
    WriteFile { version: Seq<char>, file_name: Seq<char>, contents: Seq<char> },
}

impl View for RouteOutcome {
    type V = RouteOutcomeView;

    open spec fn view(&self) -> RouteOutcomeView {
        match self {
            RouteOutcome::Done(resp) => RouteOutcomeView::Done(resp@),
            RouteOutcome::ReadFile { version, file_name } => RouteOutcomeView::ReadFile {
                version: version@,
                file_name: file_name@,
            },
            RouteOutcome::WriteFile { version, file_name, contents } => RouteOutcomeView::WriteFile {
                version: version@,
                file_name: file_name@,
                contents: contents@,
            },
        }
    }
}

/// The path with its leading slash stripped.
pub open spec fn path_rest(path: Seq<char>) -> Seq<char> {
    path.skip(1)
}

/// The first path segment: everything before the first further slash.
pub open spec fn segment(rest: Seq<char>) -> Seq<char> {
    rest.take(first_slash(rest))
}

/// Everything after the first further slash, later slashes preserved; the
/// empty string when there is no further slash.
pub open spec fn remainder(rest: Seq<char>) -> Seq<char> {
    if first_slash(rest) < rest.len() {
        rest.skip(first_slash(rest) + 1)
    } else {
        Seq::empty()
    }
}

/// The complete dispatch table, by method and then by first path segment.
pub open spec fn spec_route(req: RequestView) -> RouteOutcomeView {
    let rest = path_rest(req.path);
    let seg = segment(rest);
    let rem = remainder(rest);
    if req.method == "GET"@ {
        if rest.len() == 0 {
            RouteOutcomeView::Done(empty_response(req.version, status_text(ResponseHeader::HttpOk)))
        } else if seg == "echo"@ {
            RouteOutcomeView::Done(ok_response(req.version, "text/plain"@, rem))
        } else if seg == "user-agent"@ {
            RouteOutcomeView::Done(ok_response(req.version, "text/plain"@, req.user_agent))
        } else if seg == "files"@ {
            RouteOutcomeView::ReadFile { version: req.version, file_name: rem }
        } else {
            RouteOutcomeView::Done(
                empty_response(req.version, status_text(ResponseHeader::HttpNotFound)),
            )
        }
    } else if req.method == "POST"@ {
        if seg == "files"@ {
            RouteOutcomeView::WriteFile { version: req.version, file_name: rem, contents: req.body }
        } else {
            RouteOutcomeView::Done(
                empty_response(req.version, status_text(ResponseHeader::HttpNotFound)),
            )
        }
    } else {
        RouteOutcomeView::Done(
            empty_response(req.version, status_text(ResponseHeader::HttpMethodNotAllowed)),
        )
    }
}

/// What a `ReadFile` outcome turns into, for either result of the read.
pub open spec fn spec_file_read(version: Seq<char>, contents: Option<Seq<char>>) -> ResponseView {
    match contents {
        Some(c) => ok_response(version, "application/octet-stream"@, c),
        None => empty_response(version, status_text(ResponseHeader::HttpNotFound)),
    }
}

impl Response {
    /// Well-formed: the declared content length is the byte length of the
    /// body.
    pub open spec fn wf(&self) -> bool {
        resp_wf(self@)
    }

    /// Decides the route for `request`. The path of a parsed request is a
    /// non-empty token, and the wire protocol makes it begin with a slash,
    /// which the router strips.
    pub fn new(request: Request) -> (out: RouteOutcome)
        requires
            request.path@.len() >= 1,
            request.path@[0] == '/',
        ensures
            out@ == spec_route(request@),
    {
        let Request { method, path, version, user_agent, body } = request;
        let n = path.as_str().unicode_len();
        let rest = path.as_str().substring_char(1, n).to_owned();
        proof {
            assert(rest@ =~= path_rest(request@.path));
        }
        let rlen = rest.as_str().unicode_len();
        let fs_idx = find_slash(rest.as_str());
        let seg = rest.as_str().substring_char(0, fs_idx).to_owned();
        proof {
            assert(seg@ =~= segment(rest@));
        }
        let rem: String = if fs_idx < rlen {
            rest.as_str().substring_char(fs_idx + 1, rlen).to_owned()
        } else {
            String::new()
        };
        proof {
            assert(rem@ =~= remainder(rest@));
        }
        if str_eq(method.as_str(), "GET") {
            if rest.as_str().is_empty() {
                let out = RouteOutcome::Done(
                    Response {
                        version,
                        header: ResponseHeader::get(ResponseHeader::HttpOk),
                        content_type: String::new(),
                        content_length: 0,
                        body: String::new(),
                    },
                );
                proof {
                    assert(out@ =~~= spec_route(request@));
                }
                out
            } else if str_eq(seg.as_str(), "echo") {
                let len = byte_length(rem.as_str());
                let out = RouteOutcome::Done(
                    Response {
                        version,
                        header: ResponseHeader::get(ResponseHeader::HttpOk),
                        content_type: "text/plain".to_owned(),
                        content_length: len,
                        body: rem,
                    },
                );
                proof {
                    assert(out@ =~~= spec_route(request@));
                }
                out
            } else if str_eq(seg.as_str(), "user-agent") {
                let len = byte_length(user_agent.as_str());
                let out = RouteOutcome::Done(
                    Response {
                        version,
                        header: ResponseHeader::get(ResponseHeader::HttpOk),
                        content_type: "text/plain".to_owned(),
                        content_length: len,
                        body: user_agent,
                    },
                );
                proof {
                    assert(out@ =~~= spec_route(request@));
                }
                out
            } else if str_eq(seg.as_str(), "files") {
                let out = RouteOutcome::ReadFile { version, file_name: rem };
                proof {
                    assert(out@ =~~= spec_route(request@));
                }
                out
            } else {
                let out = RouteOutcome::Done(
                    Response {
                        version,
                        header: ResponseHeader::get(ResponseHeader::HttpNotFound),
                        content_type: String::new(),
                        content_length: 0,
                        body: String::new(),
                    },
                );
                proof {
                    assert(out@ =~~= spec_route(request@));
                }
                out
            }
        } else if str_eq(method.as_str(), "POST") {
            if str_eq(seg.as_str(), "files") {
                let out = RouteOutcome::WriteFile { version, file_name: rem, contents: body };
                proof {
                    assert(out@ =~~= spec_route(request@));
                }
                out
            } else {
                let out = RouteOutcome::Done(
                    Response {
                        version,
                        header: ResponseHeader::get(ResponseHeader::HttpNotFound),
                        content_type: String::new(),
                        content_length: 0,
                        body: String::new(),
                    },
                );
                proof {
                    assert(out@ =~~= spec_route(request@));
                }
                out
            }
        } else {
            let out = RouteOutcome::Done(
                Response {
                    version,
                    header: ResponseHeader::get(ResponseHeader::HttpMethodNotAllowed),
                    content_type: String::new(),
                    content_length: 0,
                    body: String::new(),
                },
            );
            proof {
                assert(out@ =~~= spec_route(request@));
            }
            out
        }
    }

    /// Finishes a `ReadFile` outcome: the file's contents on a successful
    /// read, a 404 with no body on a failed one.
    pub fn after_file_read(version: String, contents: Option<String>) -> (resp: Response)
        ensures
            resp@ == spec_file_read(version@, contents.deep_view()),
            resp.wf(),
    {
        match contents {
            Some(c) => {
                let len = byte_length(c.as_str());
                let resp = Response {
                    version,
                    header: ResponseHeader::get(ResponseHeader::HttpOk),
                    content_type: "application/octet-stream".to_owned(),
                    content_length: len,
                    body: c,
                };
                proof {
                    assert(resp@ =~~= spec_file_read(resp@.version, Some(resp@.body)));
                }
                resp
            },
            None => {
                let resp = Response {
                    version,
                    header: ResponseHeader::get(ResponseHeader::HttpNotFound),
                    content_type: String::new(),
                    content_length: 0,
                    body: String::new(),
                };
                proof {
                    assert(encode_utf8(Seq::<char>::empty()) =~= Seq::<u8>::empty());
                    assert(resp@ =~~= spec_file_read(resp@.version, None::<Seq<char>>));
                }
                resp
            },
        }
    }

    /// Finishes a `WriteFile` outcome after the write succeeded: a 201 with
    /// no body.
    pub fn after_file_write(version: String) -> (resp: Response)
        ensures
            resp@ == empty_response(version@, status_text(ResponseHeader::HttpCreated)),
            resp.wf(),
    {
        let resp = Response {
            version,
            header: ResponseHeader::get(ResponseHeader::HttpCreated),
            content_type: String::new(),
            content_length: 0,
            body: String::new(),
        };
        proof {
            assert(encode_utf8(Seq::<char>::empty()) =~= Seq::<u8>::empty());
            assert(resp@ =~~= empty_response(resp@.version, status_text(ResponseHeader::HttpCreated)));
        }
        resp
    }
}

/// The wire text of a response: the status line, the two headers, the blank
/// line, and the body.
pub open spec fn spec_format(r: ResponseView) -> Seq<char> {
    r.version + seq![' '] + r.header + crlf() + "Content-Type: "@ + r.content_type + crlf()
        + "Content-Length: "@ + dec_str(r.content_length) + crlf() + crlf() + r.body
}

impl Response {
    /// Serializes the response into its wire text.
    pub fn format_response(&self) -> (out: String)
        ensures
            out@ == spec_format(self@),
    {
        let mut out = String::new();
        out.append(self.version.as_str());
        out.append(" ");
        out.append(self.header.as_str());
        out.append("\r\n");
        out.append("Content-Type: ");
        out.append(self.content_type.as_str());
        out.append("\r\n");
        out.append("Content-Length: ");
        let digits = dec_string(self.content_length);
        out.append(digits.as_str());
        out.append("\r\n");
        out.append("\r\n");
        out.append(self.body.as_str());
        proof {
            reveal_strlit(" ");
            reveal_strlit("\r\n");
            assert(" "@ =~= seq![' ']);
            assert("\r\n"@ =~= crlf());
            assert(out@ =~= spec_format(self@));
        }
        out
    }
}

} // verus!
