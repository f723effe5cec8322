//! HTTP/1.x sniffing, request-head inspection and path-prefix rewriting.
use vstd::prelude::*;
use vstd::utf8::{decode_utf8, encode_utf8, encode_utf8_decode_utf8, valid_utf8};
use crate::bytes_util::{bytes_eq, bytes_start_with, push_range, has_prefix, replace_first, replace_first_exec};
use crate::route::{utf8, RouteRule};

verus! {

/// Most header lines that a request head may carry to be parsed.
pub const MAX_HEADERS: usize = 16;

/// The fields of a complete request head.
pub struct RequestHead {
    /// The request target as written on the request line.
    pub path: String,
    /// Header names and raw values, in order.
    pub headers: Vec<(String, Vec<u8>)>,
}

/// Header fields as (name, value) views.
pub open spec fn fields_view(v: Seq<(String, Vec<u8>)>) -> Seq<(Seq<char>, Seq<u8>)> {
    v.map_values(|f: (String, Vec<u8>)| (f.0@, f.1@))
}

/// What httparse makes of `buf` with room for `max_headers` headers: the path
/// and the header fields when the head is complete, nothing otherwise.
pub uninterp spec fn request_head_of(buf: Seq<u8>, max_headers: usize) -> Option<(Seq<char>, Seq<(Seq<char>, Seq<u8>)>)>;

/// Relies on httparse::Request::parse: `Status::Complete` on a whole request
/// head, after which `path` and the parsed `headers` are read out.
#[verifier::external_body]
fn parse_request_head(buf: &[u8], max_headers: usize) -> (r: Option<RequestHead>)
    ensures
        match r {
            Some(h) => request_head_of(buf@, max_headers) == Some((h.path@, fields_view(h.headers@))),
            None => request_head_of(buf@, max_headers) is None,
        },
{
    let mut headers = vec![httparse::EMPTY_HEADER; max_headers];
    let mut req = httparse::Request::new(&mut headers);
    match req.parse(buf) {
        Ok(httparse::Status::Complete(_)) => match req.path {
            Some(p) => Some(RequestHead {
                path: p.to_string(),
                headers: req.headers.iter().map(|h| (h.name.to_string(), h.value.to_vec())).collect(),
            }),
            None => None,
        },
        _ => None,
    }
}

/// Relies on std::str::from_utf8: `Ok` exactly on valid UTF-8, borrowing the bytes.
#[verifier::external_body]
fn str_from_utf8<'a>(b: &'a [u8]) -> (r: Option<&'a str>)
    ensures
        r is Some <==> valid_utf8(b@),
        r matches Some(s) ==> encode_utf8(s@) == b@,
{
    std::str::from_utf8(b).ok()
}

/// `GET `
pub open spec fn tok_get() -> Seq<u8> { seq![71u8, 69, 84, 32] }
/// `POST`
pub open spec fn tok_post() -> Seq<u8> { seq![80u8, 79, 83, 84] }
/// `PUT `
pub open spec fn tok_put() -> Seq<u8> { seq![80u8, 85, 84, 32] }
/// `PATCH `
pub open spec fn tok_patch() -> Seq<u8> { seq![80u8, 65, 84, 67, 72, 32] }
/// `DELETE `
pub open spec fn tok_delete() -> Seq<u8> { seq![68u8, 69, 76, 69, 84, 69, 32] }
/// `HTTP/`, the start of a response.
pub open spec fn tok_response() -> Seq<u8> { seq![72u8, 84, 84, 80, 47] }

/// At least four bytes were read and the buffer starts with a request method
/// token or with `HTTP/`.
pub open spec fn spec_is_http(data: Seq<u8>, size: int) -> bool {
    size >= 4 && (has_prefix(data, tok_get()) || has_prefix(data, tok_post())
        || has_prefix(data, tok_put()) || has_prefix(data, tok_patch())
        || has_prefix(data, tok_delete()) || has_prefix(data, tok_response()))
}

fn starts_with_response(data: &[u8]) -> (r: bool)
    ensures
        r == has_prefix(data@, tok_response()),
{
    let t: [u8; 5] = [72, 84, 84, 80, 47];
    assert(t@ =~= tok_response());
    bytes_start_with(data, t.as_slice())
}

/// Classifies the first `size` bytes read into `data` as HTTP or not.
pub fn is_http(data: &[u8], size: usize) -> (r: bool)
    ensures
        r == spec_is_http(data@, size as int),
{
    if size < 4 {
        return false;
    }
    let get: [u8; 4] = [71, 69, 84, 32];
    let post: [u8; 4] = [80, 79, 83, 84];
    let put: [u8; 4] = [80, 85, 84, 32];
    let patch: [u8; 6] = [80, 65, 84, 67, 72, 32];
    let delete: [u8; 7] = [68, 69, 76, 69, 84, 69, 32];
    assert(get@ =~= tok_get());
    assert(post@ =~= tok_post());
    assert(put@ =~= tok_put());
    assert(patch@ =~= tok_patch());
    assert(delete@ =~= tok_delete());
    bytes_start_with(data, get.as_slice()) || bytes_start_with(data, post.as_slice())
        || bytes_start_with(data, put.as_slice()) || bytes_start_with(data, patch.as_slice())
        || bytes_start_with(data, delete.as_slice()) || starts_with_response(data)
}

/// Position of the first CRLF at or after `i`.
pub open spec fn crlf_from(d: Seq<u8>, i: int) -> Option<int>
    decreases d.len() - i,
{
    if i < 0 || i + 1 >= d.len() {
        None
    } else if d[i] == 13 && d[i + 1] == 10 {
        Some(i)
    } else {
        crlf_from(d, i + 1)
    }
}

/// First position at or after `i` that does not hold a space.
pub open spec fn skip_spaces(line: Seq<u8>, i: int) -> int
    decreases line.len() - i,
{
    if i < 0 || i >= line.len() || line[i] != 32 {
        i
    } else {
        skip_spaces(line, i + 1)
    }
}

/// First position at or after `i` that holds a space, or the end of `line`.
pub open spec fn field_end(line: Seq<u8>, i: int) -> int
    decreases line.len() - i,
{
    if i < 0 || i >= line.len() || line[i] == 32 {
        i
    } else {
        field_end(line, i + 1)
    }
}

/// The second of the space-separated non-empty fields of the first
/// CRLF-terminated line, when that line has exactly three of them.
pub open spec fn request_line_path(d: Seq<u8>) -> Option<Seq<u8>> {
    match crlf_from(d, 0) {
        None => None,
        Some(e) => {
            let line = d.subrange(0, e);
            let s1 = skip_spaces(line, 0);
            let s2 = skip_spaces(line, field_end(line, s1));
            let e2 = field_end(line, s2);
            let s3 = skip_spaces(line, e2);
            if s1 < line.len() && s2 < line.len() && s3 < line.len()
                && skip_spaces(line, field_end(line, s3)) == line.len() {
                Some(line.subrange(s2, e2))
            } else {
                None
            }
        },
    }
}

fn skip_spaces_exec(line: &[u8], i: usize) -> (r: usize)
    requires
        i <= line@.len(),
    ensures
        r as int == skip_spaces(line@, i as int),
        i <= r <= line@.len(),
{
    let mut j = i;
    while j < line.len() && line[j] == 32
        invariant
            i <= j <= line@.len(),
            skip_spaces(line@, j as int) == skip_spaces(line@, i as int),
        decreases line@.len() - j,
    {
        j = j + 1;
    }
    j
}

fn field_end_exec(line: &[u8], i: usize) -> (r: usize)
    requires
        i <= line@.len(),
    ensures
        r as int == field_end(line@, i as int),
        i <= r <= line@.len(),
{
    let mut j = i;
    while j < line.len() && line[j] != 32
        invariant
            i <= j <= line@.len(),
            field_end(line@, j as int) == field_end(line@, i as int),
        decreases line@.len() - j,
    {
        j = j + 1;
    }
    j
}

fn find_crlf(d: &[u8]) -> (r: Option<usize>)
    ensures
        match r {
            Some(e) => crlf_from(d@, 0) == Some(e as int) && e + 1 < d@.len(),
            None => crlf_from(d@, 0) is None,
        },
{
    let mut i: usize = 0;
    while i < d.len() && i + 1 < d.len()
        invariant
            i <= d@.len(),
            crlf_from(d@, 0) == crlf_from(d@, i as int),
        decreases d@.len() - i,
    {
        if d[i] == 13 && d[i + 1] == 10 {
            return Some(i);
        }
        i = i + 1;
    }
    None
}

/// The path field of the request line, when it is there and is valid UTF-8.
pub fn parse_path(data: &[u8]) -> (r: Option<&str>)
    ensures
        match request_line_path(data@) {
            Some(p) => if valid_utf8(p) {
                r matches Some(s) && encode_utf8(s@) == p
            } else {
                r is None
            },
            None => r is None,
        },
{
    let end = match find_crlf(data) {
        Some(e) => e,
        None => return None,
    };
    let line = data.split_at(end).0;
    assert(line@ =~= data@.subrange(0, end as int));
    let s1 = skip_spaces_exec(line, 0);
    if s1 >= line.len() {
        return None;
    }
    let e1 = field_end_exec(line, s1);
    let s2 = skip_spaces_exec(line, e1);
    if s2 >= line.len() {
        return None;
    }
    let e2 = field_end_exec(line, s2);
    let s3 = skip_spaces_exec(line, e2);
    if s3 >= line.len() {
        return None;
    }
    let e3 = field_end_exec(line, s3);
    if skip_spaces_exec(line, e3) != line.len() {
        return None;
    }
    let path = line.split_at(e2).0.split_at(s2).1;
    assert(path@ =~= line@.subrange(s2 as int, e2 as int));
    str_from_utf8(path)
}

/// The bytes of the fixed `503 Service Unavailable` response.
pub open spec fn service_unavailable_bytes() -> Seq<u8> {
    encode_utf8("HTTP/1.1 503 Service Unavailable\r\nContent-Type: text/plain\r\nContent-Length: 17\r\nConnection: close\r\n\r\nService Unavailable"@)
}

/// The fixed response written to a client whose request cannot be diverted.
pub fn service_unavailable() -> (r: Vec<u8>)
    ensures
        r@ == service_unavailable_bytes(),
{
    let text = "HTTP/1.1 503 Service Unavailable\r\nContent-Type: text/plain\r\nContent-Length: 17\r\nConnection: close\r\n\r\nService Unavailable";
    let b = text.as_bytes();
    let mut v: Vec<u8> = Vec::new();
    push_range(&mut v, b, 0, b.len());
    assert(b@.subrange(0, b@.len() as int) =~= b@);
    v
}

/// A request path is rewritten when the match prefix is neither empty nor
/// `/`, the path starts with it, and the rule asks for rewriting.
pub open spec fn rewrite_eligible(path: Seq<u8>, rule: RouteRule) -> bool {
    let mp = utf8(rule.match_.prefix@);
    mp.len() > 0 && mp != seq![47u8] && has_prefix(path, mp) && rule.forward.rewrite
}

/// The path with its leading match prefix replaced by the forward prefix.
pub open spec fn rewritten_path(path: Seq<u8>, rule: RouteRule) -> Seq<u8> {
    utf8(rule.forward.prefix@) + path.subrange(utf8(rule.match_.prefix@).len() as int, path.len() as int)
}

/// The rewrite of `buf` whose request head has path `path`: nothing unless the
/// path is eligible and the buffer is valid UTF-8.
pub open spec fn rewrite_with_path(buf: Seq<u8>, path: Seq<char>, rule: RouteRule) -> Option<Seq<u8>> {
    let p = utf8(path);
    if !rewrite_eligible(p, rule) || !valid_utf8(buf) {
        None
    } else {
        Some(replace_first(buf, p, rewritten_path(p, rule)))
    }
}

/// The rewritten buffer, or nothing when the buffer is a response, holds no
/// complete request head, is not eligible, or is not valid UTF-8.
pub open spec fn rewrite_of(buf: Seq<u8>, rule: RouteRule) -> Option<Seq<u8>> {
    if has_prefix(buf, tok_response()) {
        None
    } else {
        match request_head_of(buf, MAX_HEADERS) {
            None => None,
            Some(head) => rewrite_with_path(buf, head.0, rule),
        }
    }
}

/// Replaces, in `data`, the first occurrence of the request path `path` by the
/// path with its match prefix swapped for the forward prefix, when eligible.
pub fn rewrite_request(data: &[u8], path: &str, rule: &RouteRule) -> (r: Option<Vec<u8>>)
    ensures
        match r {
            Some(v) => rewrite_with_path(data@, path@, *rule) == Some(v@),
            None => rewrite_with_path(data@, path@, *rule) is None,
        },
{
    let p = path.as_bytes();
    let mp = rule.match_.prefix.as_str().as_bytes();
    let slash: [u8; 1] = [47];
    assert(slash@ =~= seq![47u8]);
    if mp.len() == 0 || bytes_eq(mp, slash.as_slice()) || !bytes_start_with(p, mp) || !rule.forward.rewrite {
        return None;
    }
    if str_from_utf8(data).is_none() {
        return None;
    }
    let fp = rule.forward.prefix.as_str().as_bytes();
    let mut rep: Vec<u8> = Vec::new();
    push_range(&mut rep, fp, 0, fp.len());
    push_range(&mut rep, p, mp.len(), p.len());
    assert(fp@.subrange(0, fp@.len() as int) =~= fp@);
    Some(replace_first_exec(data, p, rep.as_slice()))
}

/// Rewrites the path prefix of the request head in `data` according to `rule`.
pub fn modify_http_data(data: &[u8], rule: &RouteRule) -> (r: Option<Vec<u8>>)
    ensures
        match r {
            Some(v) => rewrite_of(data@, *rule) == Some(v@),
            None => rewrite_of(data@, *rule) is None,
        },
{
    if starts_with_response(data) {
        return None;
    }
    match parse_request_head(data, MAX_HEADERS) {
        Some(head) => rewrite_request(data, head.path.as_str(), rule),
        None => None,
    }
}

/// A buffer that starts like a response (`HTTP/`) is never rewritten.
pub proof fn lemma_response_never_rewritten(buf: Seq<u8>, rule: RouteRule)
    requires
        has_prefix(buf, tok_response()),
    ensures
        rewrite_of(buf, rule) is None,
{
}

/// With a match prefix of `""` or `"/"` no buffer is ever rewritten.
pub proof fn lemma_trivial_prefix_never_rewrites(buf: Seq<u8>, rule: RouteRule)
    requires
        rule.match_.prefix@ == Seq::<char>::empty() || rule.match_.prefix@ == seq!['/'],
    ensures
        rewrite_of(buf, rule) is None,
{
    assert(utf8(Seq::<char>::empty()) == Seq::<u8>::empty());
    lemma_utf8_slash();
}

proof fn lemma_utf8_slash()
    ensures
        utf8(seq!['/']) == seq![47u8],
{
    let slash = seq!['/'];
    assert(slash.drop_first() =~= Seq::<char>::empty());
    assert('/' as u32 == 47);
    assert(47u32 & 0x7Fu32 == 47u32) by (bit_vector);
    assert(slash[0] as u32 == 47);
    assert(vstd::utf8::leading_byte_width_1(47) == 47u8);
    assert(vstd::utf8::encode_scalar(47) =~= seq![47u8]);
    assert(encode_utf8(slash.drop_first()) =~= Seq::<u8>::empty());
    assert(utf8(slash) =~= seq![47u8]);
}

/// Rewriting is a function of the buffer and the rule: a buffer refused once
/// is refused again.
pub proof fn lemma_refusal_is_stable(buf: Seq<u8>, rule: RouteRule, first: Option<Seq<u8>>, second: Option<Seq<u8>>)
    requires
        first == rewrite_of(buf, rule),
        second == rewrite_of(buf, rule),
        first is None,
    ensures
        second is None,
{
}

/// A request whose path equals the match prefix is rewritten, its path
/// becoming the forward prefix, whenever the prefix is neither empty nor `/`,
/// rewriting is on, and the buffer is a valid UTF-8 request head.
pub proof fn lemma_whole_prefix_path_rewritten(buf: Seq<u8>, rule: RouteRule)
    requires
        !has_prefix(buf, tok_response()),
        valid_utf8(buf),
        request_head_of(buf, MAX_HEADERS) matches Some(head) && head.0 == rule.match_.prefix@,
        rule.match_.prefix@.len() > 0,
        rule.match_.prefix@ != seq!['/'],
        rule.forward.rewrite,
    ensures
        rewrite_of(buf, rule) == Some(replace_first(
            buf,
            utf8(rule.match_.prefix@),
            utf8(rule.forward.prefix@),
        )),
{
    let mp = rule.match_.prefix@;
    let p = utf8(mp);
    vstd::utf8::encode_utf8_decode_utf8(mp);
    assert(p.len() > 0) by {
        if p.len() == 0 {
            assert(vstd::utf8::decode_utf8(p) =~= Seq::<char>::empty());
        }
    }
    assert(p != seq![47u8]) by {
        if p == seq![47u8] {
            lemma_utf8_slash();
            vstd::utf8::encode_utf8_decode_utf8(seq!['/']);
        }
    }
    assert(p.subrange(0, p.len() as int) =~= p);
    assert(rewritten_path(p, rule) =~= utf8(rule.forward.prefix@));
}

/// ASCII lower case of a byte.
pub open spec fn ascii_lower(b: u8) -> u8 {
    if 65 <= b <= 90 { (b + 32) as u8 } else { b }
}

/// The header name equals `host`, ignoring ASCII case.
pub open spec fn is_host_name(name: Seq<u8>) -> bool {
    name.len() == 4 && ascii_lower(name[0]) == 104 && ascii_lower(name[1]) == 111
        && ascii_lower(name[2]) == 115 && ascii_lower(name[3]) == 116
}

fn lower(b: u8) -> (r: u8)
    ensures
        r == ascii_lower(b),
{
    if 65 <= b && b <= 90 { b + 32 } else { b }
}

fn is_host_name_exec(name: &[u8]) -> (r: bool)
    ensures
        r == is_host_name(name@),
{
    name.len() == 4 && lower(name[0]) == 104 && lower(name[1]) == 111 && lower(name[2]) == 115
        && lower(name[3]) == 116
}

/// Value of the first header named `host` (any ASCII case).
pub open spec fn first_host_value(fields: Seq<(Seq<char>, Seq<u8>)>) -> Option<Seq<u8>>
    decreases fields.len(),
{
    if fields.len() == 0 {
        None
    } else if is_host_name(utf8(fields[0].0)) {
        Some(fields[0].1)
    } else {
        first_host_value(fields.drop_first())
    }
}

/// Host header value and path of a parsed request head.
pub open spec fn head_host_path(path: Seq<char>, fields: Seq<(Seq<char>, Seq<u8>)>) -> Option<(Seq<char>, Seq<char>)> {
    match first_host_value(fields) {
        Some(v) => if valid_utf8(v) {
            Some((decode_utf8(v), path))
        } else {
            None
        },
        None => None,
    }
}

/// Host header value and request path of a complete HTTP request head at the
/// start of `buf`.
pub open spec fn host_and_path(buf: Seq<u8>) -> Option<(Seq<char>, Seq<char>)> {
    if !spec_is_http(buf, buf.len() as int) {
        None
    } else {
        match request_head_of(buf, MAX_HEADERS) {
            None => None,
            Some(head) => head_host_path(head.0, head.1),
        }
    }
}

/// The first Host header (any ASCII case) of a parsed head, when its value is
/// valid UTF-8, together with the path.
pub fn host_of_head(head: RequestHead) -> (r: Option<(String, String)>)
    ensures
        r matches Some(hp) ==> head_host_path(head.path@, fields_view(head.headers@)) == Some((hp.0@, hp.1@)),
        r is None ==> head_host_path(head.path@, fields_view(head.headers@)) is None,
{
    let ghost fields = fields_view(head.headers@);
    let mut i: usize = 0;
    assert(fields.skip(0) =~= fields);
    while i < head.headers.len()
        invariant
            i <= head.headers@.len(),
            fields == fields_view(head.headers@),
            first_host_value(fields) == first_host_value(fields.skip(i as int)),
        decreases head.headers@.len() - i,
    {
        assert(fields.skip(i as int).drop_first() =~= fields.skip(i + 1));
        let name = head.headers[i].0.as_str().as_bytes();
        assert(fields.skip(i as int)[0] == fields[i as int]);
        assert(fields[i as int] == (head.headers@[i as int].0@, head.headers@[i as int].1@));
        if is_host_name_exec(name) {
            let value = head.headers[i].1.as_slice();
            return match str_from_utf8(value) {
                Some(s) => {
                    proof {
                        encode_utf8_decode_utf8(s@);
                    }
                    Some((s.to_owned(), head.path))
                },
                None => None,
            };
        }
        i = i + 1;
    }
    assert(fields.skip(i as int).len() == 0);
    None
}

/// The Host header and the path of the request whose head starts `buf`.
pub fn request_host_path(buf: &[u8]) -> (r: Option<(String, String)>)
    ensures
        r matches Some(hp) ==> host_and_path(buf@) == Some((hp.0@, hp.1@)),
        r is None ==> host_and_path(buf@) is None,
{
    if !is_http(buf, buf.len()) {
        return None;
    }
    match parse_request_head(buf, MAX_HEADERS) {
        Some(head) => host_of_head(head),
        None => None,
    }
}

} // verus!
