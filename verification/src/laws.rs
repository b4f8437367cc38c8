//! The laws this library states of itself: what each route yields, that a
//! declared content length is exact, when parsing rejects a buffer, and
//! that formatting a response is undone by splitting on the line
//! terminator.

use vstd::prelude::*;
use vstd::utf8::encode_utf8;

use crate::request::{spec_parse_text, ParseError, RequestView};
use crate::response::{
    empty_response, ok_response, path_rest, resp_wf, spec_file_read, spec_format, spec_route,
    status_text, ResponseHeader, ResponseView, RouteOutcomeView,
};
use crate::strutil::{
    contains_crlf, crlf, dec_str, dec_val, is_ws, lemma_dec_str_no_crlf, lemma_dec_str_val,
    lemma_first_slash_is, lemma_split_crlf_concat, lemma_split_crlf_whole,
    lemma_tokens_append_run, lemma_tokens_append_ws, lemma_tokens_nonempty, split_crlf, tokens,
};

verus! {

/// Concatenation keeps the terminator out when neither side holds it and
/// none arises at the boundary.
proof fn lemma_no_crlf_concat(a: Seq<char>, b: Seq<char>)
    requires
        !contains_crlf(a),
        !contains_crlf(b),
        !(a.len() > 0 && b.len() > 0 && a.last() == '\r' && b[0] == '\n'),
    ensures
        !contains_crlf(a + b),
{
    if contains_crlf(a + b) {
        let s = a + b;
        let i = choose|i: int|
            0 <= i && i + 2 <= s.len() && #[trigger] s[i] == '\r' && s[i + 1] == '\n';
        if i + 1 < a.len() {
            assert(a[i] == '\r' && a[i + 1] == '\n');
            assert(contains_crlf(a));
        } else if i + 1 == a.len() {
            assert(a.last() == '\r' && b[0] == '\n');
        } else {
            assert(b[i - a.len()] == '\r' && b[i + 1 - a.len()] == '\n');
            assert(contains_crlf(b));
        }
        assert(false);
    }
}

/// A string without a carriage return cannot hold the terminator.
proof fn lemma_no_cr_no_crlf(s: Seq<char>)
    requires
        forall|i: int| 0 <= i < s.len() ==> s[i] != '\r',
    ensures
        !contains_crlf(s),
{
    if contains_crlf(s) {
        let i = choose|i: int|
            0 <= i && i + 2 <= s.len() && #[trigger] s[i] == '\r' && s[i + 1] == '\n';
        assert(false);
    }
}

/// No status line text holds the line terminator.
pub proof fn lemma_status_text_no_crlf(h: ResponseHeader)
    ensures
        !contains_crlf(status_text(h)),
{
    reveal_strlit("200 OK");
    reveal_strlit("404 Not Found");
    reveal_strlit("500 Bad");
    reveal_strlit("405 Method Not Allowed");
    reveal_strlit("201 Created");
    match h {
        ResponseHeader::HttpOk => {
            assert(forall|i: int| 0 <= i < "200 OK"@.len() ==> "200 OK"@[i] != '\r');
            lemma_no_cr_no_crlf("200 OK"@);
        },
        ResponseHeader::HttpNotFound => {
            assert(forall|i: int| 0 <= i < "404 Not Found"@.len() ==> "404 Not Found"@[i] != '\r');
            lemma_no_cr_no_crlf("404 Not Found"@);
        },
        ResponseHeader::HttpBad => {
            assert(forall|i: int| 0 <= i < "500 Bad"@.len() ==> "500 Bad"@[i] != '\r');
            lemma_no_cr_no_crlf("500 Bad"@);
        },
        ResponseHeader::HttpMethodNotAllowed => {
            assert(forall|i: int|
                0 <= i < "405 Method Not Allowed"@.len() ==> "405 Method Not Allowed"@[i] != '\r');
            lemma_no_cr_no_crlf("405 Method Not Allowed"@);
        },
        ResponseHeader::HttpCreated => {
            assert(forall|i: int| 0 <= i < "201 Created"@.len() ==> "201 Created"@[i] != '\r');
            lemma_no_cr_no_crlf("201 Created"@);
        },
    }
}

/// The first four lines of a formatted response, whatever the body holds.
proof fn lemma_format_lines(r: ResponseView)
    requires
        !contains_crlf(r.version),
        !contains_crlf(r.header),
        !contains_crlf(r.content_type),
    ensures
        split_crlf(spec_format(r)) == seq![
            r.version + seq![' '] + r.header,
            "Content-Type: "@ + r.content_type,
            "Content-Length: "@ + dec_str(r.content_length),
            Seq::<char>::empty(),
        ] + split_crlf(r.body),
{
    let l0 = r.version + seq![' '] + r.header;
    let l1 = "Content-Type: "@ + r.content_type;
    let l2 = "Content-Length: "@ + dec_str(r.content_length);
    let le = Seq::<char>::empty();
    reveal_strlit("Content-Type: ");
    reveal_strlit("Content-Length: ");

    assert(!contains_crlf(l0)) by {
        assert(!contains_crlf(seq![' ']));
        lemma_no_crlf_concat(r.version, seq![' ']);
        assert((r.version + seq![' ']).last() == ' ');
        lemma_no_crlf_concat(r.version + seq![' '], r.header);
    }
    assert(!contains_crlf(l1)) by {
        assert(forall|i: int| 0 <= i < "Content-Type: "@.len() ==> "Content-Type: "@[i] != '\r');
        lemma_no_cr_no_crlf("Content-Type: "@);
        assert("Content-Type: "@.last() == ' ');
        lemma_no_crlf_concat("Content-Type: "@, r.content_type);
    }
    assert(!contains_crlf(l2)) by {
        assert(forall|i: int|
            0 <= i < "Content-Length: "@.len() ==> "Content-Length: "@[i] != '\r');
        lemma_no_cr_no_crlf("Content-Length: "@);
        lemma_dec_str_no_crlf(r.content_length);
        assert("Content-Length: "@.last() == ' ');
        lemma_no_crlf_concat("Content-Length: "@, dec_str(r.content_length));
    }
    assert(!contains_crlf(le));

    let t3 = le + crlf() + r.body;
    let t2 = l2 + crlf() + t3;
    let t1 = l1 + crlf() + t2;
    assert(spec_format(r) =~= l0 + crlf() + t1);
    lemma_split_crlf_concat(l0, t1);
    lemma_split_crlf_concat(l1, t2);
    lemma_split_crlf_concat(l2, t3);
    lemma_split_crlf_concat(le, r.body);
    lemma_split_crlf_whole(l0);
    lemma_split_crlf_whole(l1);
    lemma_split_crlf_whole(l2);
    lemma_split_crlf_whole(le);
    assert(split_crlf(spec_format(r)) =~~= seq![l0, l1, l2, le] + split_crlf(r.body));
}

/// Formatting a response and splitting the result on the line terminator
/// recovers the status line, the content type line, the content length
/// line, the blank line, and the body, unchanged.
pub proof fn lemma_format_round_trip(r: ResponseView)
    requires
        !contains_crlf(r.version),
        !contains_crlf(r.header),
        !contains_crlf(r.content_type),
        !contains_crlf(r.body),
    ensures
        split_crlf(spec_format(r)).len() == 5,
        split_crlf(spec_format(r))[0] == r.version + seq![' '] + r.header,
        split_crlf(spec_format(r))[1] == "Content-Type: "@ + r.content_type,
        split_crlf(spec_format(r))[2] == "Content-Length: "@ + dec_str(r.content_length),
        split_crlf(spec_format(r))[3] == Seq::<char>::empty(),
        split_crlf(spec_format(r))[4] == r.body,
{
    lemma_format_lines(r);
    lemma_split_crlf_whole(r.body);
}

/// The content length line of a formatted well-formed response carries
/// exactly the byte length of the body: its digits read back as that
/// length, whatever the body holds.
pub proof fn lemma_content_length_exact(r: ResponseView)
    requires
        resp_wf(r),
        !contains_crlf(r.version),
        !contains_crlf(r.header),
        !contains_crlf(r.content_type),
    ensures
        split_crlf(spec_format(r)).len() >= 4,
        split_crlf(spec_format(r))[2] == "Content-Length: "@ + dec_str(
            encode_utf8(r.body).len() as nat,
        ),
        dec_val(dec_str(r.content_length)) == encode_utf8(r.body).len(),
{
    lemma_format_lines(r);
    lemma_dec_str_val(r.content_length);
}

/// Every finished response the router produces declares the exact byte
/// length of its body.
pub proof fn lemma_route_wf(req: RequestView)
    ensures
        (spec_route(req) matches RouteOutcomeView::Done(r) ==> resp_wf(r)),
{
    assert(encode_utf8(Seq::<char>::empty()) =~= Seq::<u8>::empty());
}

/// Both results of a file read turn into a response that declares the
/// exact byte length of its body.
pub proof fn lemma_file_read_wf(version: Seq<char>, contents: Option<Seq<char>>)
    ensures
        resp_wf(spec_file_read(version, contents)),
{
    assert(encode_utf8(Seq::<char>::empty()) =~= Seq::<u8>::empty());
}

/// GET of the root path yields 200 with empty body and empty content type,
/// whatever else the request holds.
pub proof fn lemma_get_root(req: RequestView)
    requires
        req.method == "GET"@,
        req.path == "/"@,
    ensures
        spec_route(req) == RouteOutcomeView::Done(
            empty_response(req.version, status_text(ResponseHeader::HttpOk)),
        ),
{
    reveal_strlit("/");
    assert(path_rest(req.path) =~= Seq::<char>::empty());
}

/// GET `/echo/{s}` yields 200, content type `text/plain`, and body exactly
/// `s`, for every string `s`.
pub proof fn lemma_get_echo(req: RequestView, s: Seq<char>)
    requires
        req.method == "GET"@,
        req.path == "/echo/"@ + s,
    ensures
        spec_route(req) == RouteOutcomeView::Done(ok_response(req.version, "text/plain"@, s)),
{
    reveal_strlit("/echo/");
    reveal_strlit("echo");
    let rest = path_rest(req.path);
    assert(rest.len() == 5 + s.len());
    assert(forall|j: int| 0 <= j < 4 ==> rest[j] != '/');
    assert(rest[4] == '/');
    lemma_first_slash_is(rest, 4);
    assert(rest.take(4) =~= "echo"@);
    assert(rest.skip(5) =~= s);
    assert(spec_route(req) =~~= RouteOutcomeView::Done(
        ok_response(req.version, "text/plain"@, s),
    ));
}

/// On the wire: a buffer whose request line is `GET /echo/{s} HTTP/1.1`
/// parses, and routes to 200, content type `text/plain`, body exactly `s`,
/// for every `s` free of whitespace, whatever follows the request line.
pub proof fn lemma_get_echo_wire(s: Seq<char>, rest_text: Seq<char>)
    requires
        forall|i: int| 0 <= i < s.len() ==> !is_ws(#[trigger] s[i]),
    ensures
        ({
            let text = "GET /echo/"@ + s + " HTTP/1.1"@ + crlf() + rest_text;
            &&& spec_parse_text(text) is Ok
            &&& spec_parse_text(text)->Ok_0.method == "GET"@
            &&& spec_parse_text(text)->Ok_0.path == "/echo/"@ + s
            &&& spec_parse_text(text)->Ok_0.version == "HTTP/1.1"@
            &&& spec_route(spec_parse_text(text)->Ok_0) == RouteOutcomeView::Done(
                ok_response(spec_parse_text(text)->Ok_0.version, "text/plain"@, s),
            )
        }),
{
    reveal_strlit("GET /echo/");
    reveal_strlit(" HTTP/1.1");
    reveal_strlit("GET");
    reveal_strlit("/echo/");
    reveal_strlit("HTTP/1.1");
    let g = "GET"@;
    let p = "/echo/"@ + s;
    let v = "HTTP/1.1"@;
    let line0 = "GET /echo/"@ + s + " HTTP/1.1"@;
    let text = line0 + crlf() + rest_text;

    // no character of the request line is a carriage return: the literal
    // pieces have none, and whitespace-free s has none either
    assert(!contains_crlf(line0)) by {
        assert forall|i: int| 0 <= i < line0.len() implies line0[i] != '\r' by {
            if i < "GET /echo/"@.len() {
                assert(line0[i] == "GET /echo/"@[i]);
            } else if i < "GET /echo/"@.len() + s.len() {
                assert(line0[i] == s[i - "GET /echo/"@.len()]);
                assert(!is_ws(line0[i]));
            } else {
                assert(line0[i] == " HTTP/1.1"@[i - "GET /echo/"@.len() - s.len()]);
            }
        }
        lemma_no_cr_no_crlf(line0);
    }
    lemma_split_crlf_whole(line0);
    lemma_split_crlf_concat(line0, rest_text);
    assert(split_crlf(text)[0] == line0);

    // the request line splits into exactly the three tokens
    assert(tokens(line0) =~~= seq![g, p, v]) by {
        assert(forall|i: int| 0 <= i < g.len() ==> !is_ws(#[trigger] g[i]));
        assert(forall|i: int| 0 <= i < v.len() ==> !is_ws(#[trigger] v[i]));
        assert forall|i: int| 0 <= i < p.len() implies !is_ws(#[trigger] p[i]) by {
            if i < "/echo/"@.len() {
                assert(p[i] == "/echo/"@[i]);
            } else {
                assert(p[i] == s[i - "/echo/"@.len()]);
            }
        }
        lemma_tokens_append_run(Seq::empty(), g);
        assert(Seq::<char>::empty() + g =~= g);
        assert(tokens(Seq::<char>::empty()) =~= Seq::<Seq<char>>::empty());
        assert(tokens(g) =~~= seq![g]);
        lemma_tokens_append_ws(g, ' ');
        let a2 = g.push(' ');
        assert(tokens(a2) =~~= seq![g]);
        lemma_tokens_append_run(a2, p);
        assert(a2.last() == ' ' && is_ws(' '));
        let a3 = a2 + p;
        assert(tokens(a3) =~~= seq![g, p]);
        lemma_tokens_append_ws(a3, ' ');
        let a4 = a3.push(' ');
        assert(tokens(a4) =~~= seq![g, p]);
        lemma_tokens_append_run(a4, v);
        assert(a4.last() == ' ');
        let a5 = a4 + v;
        assert(tokens(a5) =~~= seq![g, p, v]);
        assert(a5 =~= line0) by {
            assert("GET /echo/"@ =~= g + seq![' '] + "/echo/"@);
            assert(" HTTP/1.1"@ =~= seq![' '] + v);
        }
    }

    let rv = spec_parse_text(text)->Ok_0;
    assert(rv.method == g && rv.path == p && rv.version == v);
    lemma_get_echo(rv, s);
}

/// GET `/user-agent` yields 200 with body exactly the parsed header value.
pub proof fn lemma_get_user_agent(req: RequestView)
    requires
        req.method == "GET"@,
        req.path == "/user-agent"@,
    ensures
        spec_route(req) == RouteOutcomeView::Done(
            ok_response(req.version, "text/plain"@, req.user_agent),
        ),
{
    reveal_strlit("/user-agent");
    reveal_strlit("user-agent");
    reveal_strlit("echo");
    let rest = path_rest(req.path);
    assert(rest =~= "user-agent"@);
    assert(forall|j: int| 0 <= j < rest.len() ==> rest[j] != '/');
    lemma_first_slash_is(rest, rest.len() as int);
    assert(rest.take(rest.len() as int) =~= "user-agent"@);
    assert(spec_route(req) =~~= RouteOutcomeView::Done(
        ok_response(req.version, "text/plain"@, req.user_agent),
    ));
}

/// A missing or short header line parses to the empty header value rather
/// than to a failure.
pub proof fn lemma_user_agent_default(text: Seq<char>)
    requires
        ({
            let lines = split_crlf(text);
            lines.len() < 3 || tokens(lines[2]).len() < 2
        }),
    ensures
        (spec_parse_text(text) matches Ok(rv) ==> rv.user_agent == Seq::<char>::empty()),
{
}

/// Writing `/files/{name}` hands the filesystem exactly the request body,
/// reading `/files/{name}` asks for exactly that name, and reading back
/// what was written yields 200 with a byte-identical body.
pub proof fn lemma_files_round_trip(post: RequestView, get: RequestView, name: Seq<char>)
    requires
        post.method == "POST"@,
        post.path == "/files/"@ + name,
        get.method == "GET"@,
        get.path == "/files/"@ + name,
    ensures
        spec_route(post) == (RouteOutcomeView::WriteFile {
            version: post.version,
            file_name: name,
            contents: post.body,
        }),
        spec_route(get) == (RouteOutcomeView::ReadFile {
            version: get.version,
            file_name: name,
        }),
        spec_file_read(get.version, Some(post.body)) == ok_response(
            get.version,
            "application/octet-stream"@,
            post.body,
        ),
{
    reveal_strlit("/files/");
    reveal_strlit("files");
    reveal_strlit("echo");
    reveal_strlit("user-agent");
    reveal_strlit("GET");
    reveal_strlit("POST");
    assert("POST"@.len() == 4 && "GET"@.len() == 3);
    assert("POST"@ != "GET"@);
    let rest_p = path_rest(post.path);
    let rest_g = path_rest(get.path);
    assert(rest_p =~= rest_g);
    assert(rest_g.len() == 6 + name.len());
    assert(forall|j: int| 0 <= j < 5 ==> rest_g[j] != '/');
    assert(rest_g[5] == '/');
    lemma_first_slash_is(rest_g, 5);
    lemma_first_slash_is(rest_p, 5);
    assert(rest_g.take(5) =~= "files"@);
    assert(rest_g.skip(6) =~= name);
    assert(rest_p.take(5) =~= "files"@);
    assert(rest_p.skip(6) =~= name);
    assert(spec_route(post) =~~= RouteOutcomeView::WriteFile {
        version: post.version,
        file_name: name,
        contents: post.body,
    });
    assert(spec_route(get) =~~= RouteOutcomeView::ReadFile {
        version: get.version,
        file_name: name,
    });
}

/// Reading a file that was never written fails, and the failed read yields
/// 404 with an empty body.
pub proof fn lemma_files_missing(version: Seq<char>)
    ensures
        spec_file_read(version, None::<Seq<char>>) == empty_response(
            version,
            status_text(ResponseHeader::HttpNotFound),
        ),
        spec_file_read(version, None::<Seq<char>>).body == Seq::<char>::empty(),
{
}

/// Any method besides GET and POST yields 405 with an empty body.
pub proof fn lemma_method_not_allowed(req: RequestView)
    requires
        req.method != "GET"@,
        req.method != "POST"@,
    ensures
        spec_route(req) == RouteOutcomeView::Done(
            empty_response(req.version, status_text(ResponseHeader::HttpMethodNotAllowed)),
        ),
{
}

/// The three request line fields of a parsed request are non-empty tokens;
/// in particular the path a parsed request hands the router is never empty.
pub proof fn lemma_parse_tokens_nonempty(text: Seq<char>)
    ensures
        (spec_parse_text(text) matches Ok(rv) ==> rv.method.len() > 0 && rv.path.len() > 0
            && rv.version.len() > 0),
{
    lemma_tokens_nonempty(split_crlf(text)[0]);
}

/// Every response the router finishes formats with a content length line
/// whose digits read back as the exact byte length of its body, whatever
/// the body holds.
pub proof fn lemma_routed_response_content_length(req: RequestView)
    requires
        !contains_crlf(req.version),
    ensures
        (spec_route(req) matches RouteOutcomeView::Done(r) ==> dec_val(dec_str(r.content_length))
            == encode_utf8(r.body).len() && split_crlf(spec_format(r))[2] == "Content-Length: "@
            + dec_str(encode_utf8(r.body).len() as nat)),
{
    lemma_route_wf(req);
    if spec_route(req) is Done {
        let r = spec_route(req)->Done_0;
        assert(!contains_crlf(r.header)) by {
            lemma_status_text_no_crlf(ResponseHeader::HttpOk);
            lemma_status_text_no_crlf(ResponseHeader::HttpNotFound);
            lemma_status_text_no_crlf(ResponseHeader::HttpMethodNotAllowed);
        }
        assert(!contains_crlf(r.content_type)) by {
            reveal_strlit("text/plain");
            assert(forall|i: int| 0 <= i < "text/plain"@.len() ==> "text/plain"@[i] != '\r');
            lemma_no_cr_no_crlf("text/plain"@);
            assert(!contains_crlf(Seq::<char>::empty()));
        }
        lemma_content_length_exact(r);
    }
}

/// Parsing decoded text fails exactly when the request line has fewer than
/// three tokens, and such a failure carries no request value.
pub proof fn lemma_parse_rejects(text: Seq<char>)
    ensures
        spec_parse_text(text) is Err <==> tokens(split_crlf(text)[0]).len() < 3,
        spec_parse_text(text) is Err ==> spec_parse_text(text) == Err::<RequestView, ParseError>(
            ParseError::MalformedRequestLine,
        ),
{
}

} // verus!
