//! The access check: it serves the challenge page, sends clients without a
//! valid session to it, and lets the others through.

use vstd::prelude::*;
use vstd::string::StringExecFns;
use crate::brotli_compressor::{
    compress_bytes_with_type,
    compression_output,
    headers_after_compression,
    redacted_bytes,
    update_headers_for_brotli,
    CompressedBody,
    DEFAULT_QUALITY,
};
use crate::cookie_manager::{
    generate_cookie,
    is_valid_format,
    issue,
    store_cookie,
    sweep,
    valid,
    valid_format,
    validate_cookie,
    CookieStorage,
    Records,
    EXPIRATION_SECS,
};
use crate::headers::{first_value, HeaderSeq, Headers};
use crate::module::{ModuleRegistry, ModuleView};
use crate::text::chars_of;
use crate::text::string_of;

verus! {

broadcast use vstd::string::group_string_axioms;

/// The path of the challenge page.
pub const CHALLENGE_PATH: &'static str = "/captcha";

/// The content type of the challenge page.
pub const CHALLENGE_CONTENT_TYPE: &'static str = "text/html; charset=utf-8";

/// The challenge page before redaction and compression.
pub const CHALLENGE_HTML: &'static str = "<html><body><h1>captcha 192.168.0.1</h1></body></html>";

/// What a session cookie starts with: its name and the equals sign.
pub const COOKIE_PREFIX: &'static str = "access=";

/// What follows the token in the `Set-Cookie` header of the challenge page.
pub const COOKIE_ATTRIBUTES: &'static str = "; Max-Age=600; Path=/; HttpOnly";

pub const STATUS_OK: u16 = 200;

pub const STATUS_FOUND: u16 = 302;

/// What the access check reads of a request.
pub struct InboundRequest {
    pub path: String,
    pub headers: Headers,
}

/// A response in plain values.
pub struct ProxyResponse {
    pub status: u16,
    pub headers: Headers,
    pub body: Vec<u8>,
}

/// The model of a response.
pub ghost struct ResponseView {
    pub status: u16,
    pub headers: HeaderSeq,
    pub body: Seq<u8>,
}

impl View for ProxyResponse {
    type V = ResponseView;

    open spec fn view(&self) -> ResponseView {
        ResponseView { status: self.status, headers: self.headers@, body: self.body@ }
    }
}

/// The three situations in which a request can be found.
#[derive(Clone, Copy, Debug, PartialEq, Eq, Structural)]
pub enum AccessState {
    /// The request asks for the challenge page.
    ChallengePath,
    /// The request carries a well-formed token that the store holds as valid.
    HasValidCookie,
    /// The request carries no cookie, a malformed one, or one that is
    /// unknown or expired.
    NoOrInvalidCookie,
}

/// White space as `char::is_whitespace` of the standard library has it.
pub open spec fn is_space(c: char) -> bool {
    c == ' ' || ('\u{9}' <= c && c <= '\u{d}') || c == '\u{85}' || c == '\u{a0}' || c == '\u{1680}'
        || ('\u{2000}' <= c && c <= '\u{200a}') || c == '\u{2028}' || c == '\u{2029}' || c
        == '\u{202f}' || c == '\u{205f}' || c == '\u{3000}'
}

/// The text without its leading white space.
pub open spec fn trim_start(s: Seq<char>) -> Seq<char>
    decreases s.len(),
{
    if s.len() > 0 && is_space(s[0]) {
        trim_start(s.drop_first())
    } else {
        s
    }
}

/// The text without its trailing white space.
pub open spec fn trim_end(s: Seq<char>) -> Seq<char>
    decreases s.len(),
{
    if s.len() > 0 && is_space(s.last()) {
        trim_end(s.drop_last())
    } else {
        s
    }
}

/// The text without white space at either end.
pub open spec fn trimmed(s: Seq<char>) -> Seq<char> {
    trim_end(trim_start(s))
}

/// The number of characters before the first semicolon, or the length where
/// there is none.
pub open spec fn segment_len(s: Seq<char>) -> nat
    decreases s.len(),
{
    if s.len() == 0 || s[0] == ';' {
        0
    } else {
        1 + segment_len(s.drop_first())
    }
}

/// Whether `s` begins with `prefix`.
pub open spec fn has_prefix(s: Seq<char>, prefix: Seq<char>) -> bool {
    prefix.len() <= s.len() && s.take(prefix.len() as int) == prefix
}

/// The value of the session cookie in a `Cookie` header: the header is cut at
/// each semicolon, each piece is trimmed, and the first piece that begins
/// with `access=` gives the value, which is the rest of that piece.
pub open spec fn access_cookie(header: Seq<char>) -> Option<Seq<char>>
    decreases header.len(),
{
    let n = segment_len(header);
    let piece = trimmed(header.take(n as int));
    if has_prefix(piece, COOKIE_PREFIX@) {
        Some(piece.skip(COOKIE_PREFIX@.len() as int))
    } else if n >= header.len() {
        None
    } else {
        access_cookie(header.skip(n as int + 1))
    }
}

/// The session cookie of a request: that of its first `Cookie` header.
pub open spec fn request_cookie(headers: HeaderSeq) -> Option<Seq<char>> {
    match first_value(headers, "cookie"@) {
        Some(v) => access_cookie(v),
        None => None,
    }
}

/// Whether a request's cookie is a well-formed token.
pub open spec fn has_well_formed_cookie(headers: HeaderSeq) -> bool {
    request_cookie(headers) matches Some(c) && valid_format(c)
}

/// The situation of a request.
pub open spec fn access_state(
    path: Seq<char>,
    headers: HeaderSeq,
    records: Records,
    now: u64,
    ttl: u64,
) -> AccessState {
    if path == CHALLENGE_PATH@ {
        AccessState::ChallengePath
    } else if has_well_formed_cookie(headers) && valid(
        records,
        request_cookie(headers)->0,
        now,
        ttl,
    ) {
        AccessState::HasValidCookie
    } else {
        AccessState::NoOrInvalidCookie
    }
}

/// The redirect to the challenge page.
pub open spec fn redirect_view() -> ResponseView {
    ResponseView {
        status: STATUS_FOUND,
        headers: seq![("location"@, CHALLENGE_PATH@)],
        body: Seq::empty(),
    }
}

/// The `Set-Cookie` value that binds `token` to the session cookie.
pub open spec fn set_cookie_value(token: Seq<char>) -> Seq<char> {
    COOKIE_PREFIX@ + token + COOKIE_ATTRIBUTES@
}

/// The challenge page for `token`: the page goes through redaction and the
/// compression step like any upstream body of its content type.
pub open spec fn challenge_view(modules: Seq<ModuleView>, token: Seq<char>) -> ResponseView {
    let page = compression_output(
        redacted_bytes(modules, vstd::utf8::encode_utf8(CHALLENGE_HTML@)),
        Some(CHALLENGE_CONTENT_TYPE@),
        DEFAULT_QUALITY,
    );
    ResponseView {
        status: STATUS_OK,
        headers: headers_after_compression(
            seq![
                ("set-cookie"@, set_cookie_value(token)),
                ("content-type"@, CHALLENGE_CONTENT_TYPE@),
            ],
            page.outcome,
        ),
        body: page.body,
    }
}

/// A request without a `Cookie` header, and one whose well-formed token the
/// store does not hold as valid, are in the state that is redirected; a
/// request with a well-formed token that the store holds as valid is let
/// through. All this for any path but that of the challenge page.
pub proof fn lemma_access_cases(
    path: Seq<char>,
    headers: HeaderSeq,
    records: Records,
    now: u64,
    ttl: u64,
)
    requires
        path != CHALLENGE_PATH@,
    ensures
        first_value(headers, "cookie"@) is None ==> access_state(path, headers, records, now, ttl)
            == AccessState::NoOrInvalidCookie,
        has_well_formed_cookie(headers) && !valid(records, request_cookie(headers)->0, now, ttl)
            ==> access_state(path, headers, records, now, ttl) == AccessState::NoOrInvalidCookie,
        has_well_formed_cookie(headers) && valid(records, request_cookie(headers)->0, now, ttl)
            ==> access_state(path, headers, records, now, ttl) == AccessState::HasValidCookie,
{
}

fn is_space_char(c: char) -> (r: bool)
    ensures
        r == is_space(c),
{
    c == ' ' || ('\u{9}' <= c && c <= '\u{d}') || c == '\u{85}' || c == '\u{a0}' || c == '\u{1680}'
        || ('\u{2000}' <= c && c <= '\u{200a}') || c == '\u{2028}' || c == '\u{2029}' || c
        == '\u{202f}' || c == '\u{205f}' || c == '\u{3000}'
}

/// Copies the characters from `lo` up to `hi`.
fn copy_range(chars: &Vec<char>, lo: usize, hi: usize) -> (out: Vec<char>)
    requires
        lo <= hi <= chars@.len(),
    ensures
        out@ == chars@.subrange(lo as int, hi as int),
{
    let mut out: Vec<char> = Vec::new();
    let mut i: usize = lo;
    while i < hi
        invariant
            lo <= i <= hi <= chars@.len(),
            out@ == chars@.subrange(lo as int, i as int),
        decreases hi - i,
    {
        out.push(chars[i]);
        i += 1;
        assert(chars@.subrange(lo as int, i as int) =~= chars@.subrange(lo as int, i as int - 1).push(
            chars@[i as int - 1],
        ));
    }
    out
}

/// The characters without white space at either end.
pub fn trim_chars(chars: &Vec<char>) -> (out: Vec<char>)
    ensures
        out@ == trimmed(chars@),
{
    let n: usize = chars.len();
    let mut lo: usize = 0;
    assert(chars@.subrange(0, n as int) =~= chars@);
    while lo < n && is_space_char(chars[lo])
        invariant
            lo <= n == chars@.len(),
            trim_start(chars@) == trim_start(chars@.subrange(lo as int, n as int)),
        decreases n - lo,
    {
        assert(chars@.subrange(lo as int, n as int).drop_first() =~= chars@.subrange(
            lo as int + 1,
            n as int,
        ));
        lo += 1;
    }
    let mut hi: usize = n;
    while lo < hi && is_space_char(chars[hi - 1])
        invariant
            lo <= hi <= n == chars@.len(),
            trim_start(chars@) == chars@.subrange(lo as int, n as int),
            trimmed(chars@) == trim_end(chars@.subrange(lo as int, hi as int)),
        decreases hi - lo,
    {
        assert(chars@.subrange(lo as int, hi as int).drop_last() =~= chars@.subrange(
            lo as int,
            hi as int - 1,
        ));
        hi -= 1;
    }
    copy_range(chars, lo, hi)
}

/// Whether `chars` begins with `prefix`.
pub fn starts_with_chars(chars: &Vec<char>, prefix: &Vec<char>) -> (r: bool)
    ensures
        r == has_prefix(chars@, prefix@),
{
    if prefix.len() > chars.len() {
        return false;
    }
    let mut i: usize = 0;
    while i < prefix.len()
        invariant
            i <= prefix.len() <= chars.len(),
            forall|k: int| 0 <= k < i ==> chars@[k] == prefix@[k],
        decreases prefix.len() - i,
    {
        if chars[i] != prefix[i] {
            assert(chars@.take(prefix@.len() as int)[i as int] != prefix@[i as int]);
            return false;
        }
        i += 1;
    }
    assert(chars@.take(prefix@.len() as int) =~= prefix@);
    true
}

/// Finds the value of the session cookie in the text of a `Cookie` header.
pub fn find_access_cookie(header: &str) -> (out: Option<String>)
    ensures
        match out {
            Some(v) => access_cookie(header@) == Some(v@),
            None => access_cookie(header@) is None,
        },
{
    let chars: Vec<char> = chars_of(header);
    let prefix: Vec<char> = chars_of(COOKIE_PREFIX);
    let n: usize = chars.len();
    let mut from: usize = 0;
    assert(chars@.skip(0) =~= chars@);
    loop
        invariant
            from <= n == chars@.len(),
            chars@ == header@,
            prefix@ == COOKIE_PREFIX@,
            access_cookie(header@) == access_cookie(chars@.skip(from as int)),
        decreases n - from,
    {
        let ghost rest = chars@.skip(from as int);
        let mut end: usize = from;
        assert(chars@.skip(end as int) =~= rest);
        while end < n && chars[end] != ';'
            invariant
                from <= end <= n == chars@.len(),
                rest == chars@.skip(from as int),
                segment_len(rest) == (end - from) + segment_len(chars@.skip(end as int)),
            decreases n - end,
        {
            assert(chars@.skip(end as int).drop_first() =~= chars@.skip(end as int + 1));
            end += 1;
        }
        assert(segment_len(rest) == end - from);
        assert(rest.take(end - from) =~= chars@.subrange(from as int, end as int));
        let piece: Vec<char> = trim_chars(&copy_range(&chars, from, end));
        if starts_with_chars(&piece, &prefix) {
            let value: Vec<char> = copy_range(&piece, prefix.len(), piece.len());
            assert(piece@.skip(prefix@.len() as int) =~= piece@.subrange(
                prefix@.len() as int,
                piece@.len() as int,
            ));
            return Some(string_of(&value));
        }
        if end >= n {
            return None;
        }
        assert(rest.skip(end - from + 1) =~= chars@.skip(end as int + 1));
        from = end + 1;
    }
}

/// The endpoint of the access check. It holds no state: sessions live in the
/// store that each call is given.
#[derive(Clone, Copy, Debug)]
pub struct CaptchaEndpoint {}

/// The challenge page for a token that is given.
pub fn challenge_response(registry: &ModuleRegistry, token: &str) -> (out: ProxyResponse)
    ensures
        out@ == challenge_view(registry@, token@),
{
    let page: CompressedBody = compress_bytes_with_type(
        registry,
        CHALLENGE_HTML.as_bytes(),
        CHALLENGE_CONTENT_TYPE,
    );
    let mut cookie: String = String::from_str(COOKIE_PREFIX);
    cookie.append(token);
    cookie.append(COOKIE_ATTRIBUTES);
    let mut headers: Headers = Headers::new();
    headers.append("set-cookie", cookie.as_str());
    headers.append("content-type", CHALLENGE_CONTENT_TYPE);
    assert(headers@ =~= seq![
        ("set-cookie"@, set_cookie_value(token@)),
        ("content-type"@, CHALLENGE_CONTENT_TYPE@),
    ]);
    update_headers_for_brotli(&mut headers, &page.outcome);
    ProxyResponse { status: STATUS_OK, headers, body: page.body }
}

impl CaptchaEndpoint {
    pub fn new() -> (out: CaptchaEndpoint) {
        CaptchaEndpoint {  }
    }

    /// The session cookie of a request, if it carries one.
    pub fn extract_cookie(&self, request: &InboundRequest) -> (out: Option<String>)
        ensures
            match out {
                Some(v) => request_cookie(request.headers@) == Some(v@),
                None => request_cookie(request.headers@) is None,
            },
    {
        match request.headers.get("cookie") {
            Some(v) => find_access_cookie(v.as_str()),
            None => None,
        }
    }

    /// Issues a new token at `now` and returns the challenge page that sets
    /// it as the session cookie.
    pub fn create_captcha_response(
        &self,
        storage: &mut CookieStorage,
        registry: &ModuleRegistry,
        now: u64,
    ) -> (out: ProxyResponse)
        ensures
            exists|token: Seq<char>|
                valid_format(token) && final(storage)@ == issue(old(storage)@, token, now) && out@
                    == #[trigger] challenge_view(registry@, token),
    {
        let token: String = generate_cookie();
        let out: ProxyResponse = challenge_response(registry, token.as_str());
        let ghost issued = token@;
        store_cookie(storage, token, now);
        assert(out@ == challenge_view(registry@, issued));
        out
    }

    /// The redirect to the challenge page.
    pub fn create_redirect_response(&self) -> (out: ProxyResponse)
        ensures
            out@ == redirect_view(),
    {
        let mut headers: Headers = Headers::new();
        headers.append("location", CHALLENGE_PATH);
        assert(headers@ =~= seq![("location"@, CHALLENGE_PATH@)]);
        ProxyResponse { status: STATUS_FOUND, headers, body: Vec::new() }
    }

    /// Decides at `now` what becomes of a request: `None` lets it through to
    /// the upstream server, a response ends it here. The store is swept when
    /// a well-formed token is looked up, and no state is kept of a request
    /// that was let through.
    pub fn handle_request(
        &self,
        storage: &mut CookieStorage,
        registry: &ModuleRegistry,
        request: &InboundRequest,
        now: u64,
    ) -> (out: Option<ProxyResponse>)
        ensures
            match access_state(request.path@, request.headers@, old(storage)@, now, EXPIRATION_SECS) {
                AccessState::ChallengePath => exists|token: Seq<char>|
                    valid_format(token) && final(storage)@ == issue(old(storage)@, token, now)
                        && out is Some && out->0@ == #[trigger] challenge_view(registry@, token),
                AccessState::HasValidCookie => out is None && final(storage)@ == sweep(
                    old(storage)@,
                    now,
                    EXPIRATION_SECS,
                ),
                AccessState::NoOrInvalidCookie => out is Some && out->0@ == redirect_view()
                    && final(storage)@ == if has_well_formed_cookie(request.headers@) {
                    sweep(old(storage)@, now, EXPIRATION_SECS)
                } else {
                    old(storage)@
                },
            },
    {
        if request.path == String::from_str(CHALLENGE_PATH) {
            return Some(self.create_captcha_response(storage, registry, now));
        }
        let allowed: bool = match self.extract_cookie(request) {
            Some(cookie) => is_valid_format(cookie.as_str()) && validate_cookie(
                storage,
                cookie.as_str(),
                now,
            ),
            None => false,
        };
        if !allowed {
            return Some(self.create_redirect_response());
        }
        None
    }
}

} // verus!
