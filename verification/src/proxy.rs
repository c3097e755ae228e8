//! The forwarding core: where a request goes once the access check has let
//! it through, and what becomes of the upstream server's answer.

use vstd::prelude::*;
use vstd::string::StringExecFns;
use crate::brotli_compressor::{
    compress_bytes_with_type,
    compression_output,
    headers_after_compression,
    redact_bytes,
    redacted_bytes,
    update_headers_for_brotli,
    CompressedBody,
    CompressedView,
    DEFAULT_QUALITY,
};
use crate::captcha::{ProxyResponse, ResponseView};
use crate::headers::{
    first_value,
    lemma_with_single,
    lemma_with_value_replaced,
    with_single,
    with_value_replaced,
    HeaderSeq,
    Headers,
};
use crate::module::{ModuleRegistry, ModuleView};
use crate::text::{decimal, decimal_string, eq_ignore_case, lower_seq, push_decimal};

verus! {

broadcast use vstd::string::group_string_axioms;

/// Scheme, host and the colon before the port of the upstream server.
pub const UPSTREAM_PREFIX: &'static str = "http://127.0.0.1:";

/// What the body of a 502 response starts with.
pub const PROXY_ERROR_PREFIX: &'static str = "Proxy error: ";

/// The body of a 500 response.
pub const BODY_ERROR_TEXT: &'static str = "Error processing response";

pub const STATUS_BAD_GATEWAY: u16 = 502;

pub const STATUS_INTERNAL_SERVER_ERROR: u16 = 500;

/// How the one attempt to reach the upstream server ended.
pub enum UpstreamOutcome {
    /// The server could not be reached; `detail` describes the failure.
    Unreachable { detail: String },
    /// The server answered, but its body could not be read.
    BodyUnreadable,
    /// The server's answer.
    Received { status: u16, headers: Headers, body: Vec<u8> },
}

/// The address to which a request is forwarded: the upstream server on the
/// loopback interface, with the request's path and query as they came.
pub open spec fn destination(port: u16, path_and_query: Seq<char>) -> Seq<char> {
    UPSTREAM_PREFIX@ + decimal(port as nat) + path_and_query
}

/// What the pipeline makes of an upstream body: with a content type,
/// redaction and then the compression step; without one, redaction alone.
pub open spec fn pipeline_result(modules: Seq<ModuleView>, headers: HeaderSeq, body: Seq<u8>) ->
    CompressedView {
    match first_value(headers, "content-type"@) {
        Some(t) => compression_output(redacted_bytes(modules, body), Some(t), DEFAULT_QUALITY),
        None => CompressedView { body: redacted_bytes(modules, body), outcome: None },
    }
}

/// The headers that go out with a processed body: repaired after the
/// compression step, and with every `Content-Length` set to the length of
/// the body that is sent.
pub open spec fn repaired_headers(headers: HeaderSeq, result: CompressedView) -> HeaderSeq {
    with_value_replaced(
        headers_after_compression(headers, result.outcome),
        "content-length"@,
        decimal(result.body.len()),
    )
}

/// The response that answers each outcome of the upstream call.
pub open spec fn service_view(modules: Seq<ModuleView>, outcome: UpstreamOutcome) -> ResponseView {
    match outcome {
        UpstreamOutcome::Unreachable { detail } => ResponseView {
            status: STATUS_BAD_GATEWAY,
            headers: Seq::empty(),
            body: vstd::utf8::encode_utf8(PROXY_ERROR_PREFIX@ + detail@),
        },
        UpstreamOutcome::BodyUnreadable => ResponseView {
            status: STATUS_INTERNAL_SERVER_ERROR,
            headers: Seq::empty(),
            body: vstd::utf8::encode_utf8(BODY_ERROR_TEXT@),
        },
        UpstreamOutcome::Received { status, headers, body } => {
            let result = pipeline_result(modules, headers@, body@);
            ResponseView { status, headers: repaired_headers(headers@, result), body: result.body }
        },
    }
}

/// Every `Content-Length` header of a processed response gives the length of
/// the body that is sent with it.
pub proof fn lemma_content_length_consistent(headers: HeaderSeq, result: CompressedView)
    ensures
        forall|i: int|
            0 <= i < repaired_headers(headers, result).len() && eq_ignore_case(
                (#[trigger] repaired_headers(headers, result)[i]).0,
                "content-length"@,
            ) ==> repaired_headers(headers, result)[i].1 == decimal(result.body.len()),
{
}

/// The header names that the forwarding core writes are four different names.
proof fn lemma_names_differ()
    ensures
        !eq_ignore_case("content-encoding"@, "vary"@),
        !eq_ignore_case("content-encoding"@, "content-type"@),
        !eq_ignore_case("vary"@, "content-encoding"@),
        !eq_ignore_case("vary"@, "content-type"@),
        !eq_ignore_case("content-type"@, "content-encoding"@),
        !eq_ignore_case("content-type"@, "vary"@),
        !eq_ignore_case("content-length"@, "content-encoding"@),
        !eq_ignore_case("content-length"@, "vary"@),
        !eq_ignore_case("content-length"@, "content-type"@),
{
    reveal_strlit("content-encoding");
    reveal_strlit("vary");
    reveal_strlit("content-type");
    reveal_strlit("content-length");
    assert(lower_seq("content-encoding"@).len() == 16);
    assert(lower_seq("vary"@).len() == 4);
    assert(lower_seq("content-type"@).len() == 12);
    assert(lower_seq("content-length"@).len() == 14);
}

/// A processed response announces its encoding exactly as its body was
/// treated. Where the body was encoded, `Content-Encoding` is `br`, `Vary` is
/// `Accept-Encoding` and `Content-Type` is the type the body had before.
/// Where it was not, these three headers are what the upstream server sent.
pub proof fn lemma_encoding_announced(headers: HeaderSeq, result: CompressedView)
    ensures
        result.outcome matches Some(t) ==> {
            &&& first_value(repaired_headers(headers, result), "content-encoding"@) == Some("br"@)
            &&& first_value(repaired_headers(headers, result), "vary"@) == Some("Accept-Encoding"@)
            &&& first_value(repaired_headers(headers, result), "content-type"@) == Some(t)
        },
        result.outcome is None ==> {
            &&& first_value(repaired_headers(headers, result), "content-encoding"@) == first_value(
                headers,
                "content-encoding"@,
            )
            &&& first_value(repaired_headers(headers, result), "vary"@) == first_value(
                headers,
                "vary"@,
            )
            &&& first_value(repaired_headers(headers, result), "content-type"@) == first_value(
                headers,
                "content-type"@,
            )
        },
{
    lemma_names_differ();
    let length = decimal(result.body.len());
    let after = headers_after_compression(headers, result.outcome);
    lemma_with_value_replaced(after, "content-length"@, length, "content-encoding"@);
    lemma_with_value_replaced(after, "content-length"@, length, "vary"@);
    lemma_with_value_replaced(after, "content-length"@, length, "content-type"@);
    if let Some(t) = result.outcome {
        let first = with_single(headers, "content-encoding"@, "br"@);
        let second = with_single(first, "vary"@, "Accept-Encoding"@);
        lemma_with_single(headers, "content-encoding"@, "br"@, "vary"@);
        lemma_with_single(first, "vary"@, "Accept-Encoding"@, "content-encoding"@);
        lemma_with_single(second, "content-type"@, t, "content-encoding"@);
        lemma_with_single(second, "content-type"@, t, "vary"@);
    }
}

/// The address of the upstream server for a request.
pub fn destination_uri(port: u16, path_and_query: &str) -> (out: String)
    ensures
        out@ == destination(port, path_and_query@),
{
    let mut out: String = String::from_str(UPSTREAM_PREFIX);
    push_decimal(&mut out, port as u64);
    out.append(path_and_query);
    out
}

/// Runs an upstream body through redaction and the compression step, repairs
/// `headers` for what came of it, and returns the body to send.
pub fn finish_response(registry: &ModuleRegistry, headers: &mut Headers, body: &[u8]) -> (out: Vec<
    u8,
>)
    ensures
        out@ == pipeline_result(registry@, old(headers)@, body@).body,
        final(headers)@ == repaired_headers(
            old(headers)@,
            pipeline_result(registry@, old(headers)@, body@),
        ),
        forall|i: int|
            0 <= i < final(headers)@.len() && eq_ignore_case(
                (#[trigger] final(headers)@[i]).0,
                "content-length"@,
            ) ==> final(headers)@[i].1 == decimal(out@.len()),
{
    let processed: CompressedBody = match headers.get("content-type") {
        Some(content_type) => compress_bytes_with_type(registry, body, content_type.as_str()),
        None => CompressedBody { body: redact_bytes(registry, body), outcome: None },
    };
    update_headers_for_brotli(headers, &processed.outcome);
    let length: String = decimal_string(processed.body.len() as u64);
    headers.replace_value("content-length", length.as_str());
    proof {
        lemma_content_length_consistent(old(headers)@, processed@);
    }
    processed.body
}

/// The response to the client for an outcome of the upstream call: 502 where
/// the server was not reached, 500 where its body was not read, and else the
/// server's answer with its body processed and its headers repaired.
pub fn proxy_service(registry: &ModuleRegistry, outcome: UpstreamOutcome) -> (out: ProxyResponse)
    ensures
        out@ == service_view(registry@, outcome),
{
    match outcome {
        UpstreamOutcome::Unreachable { detail } => {
            let mut text: String = String::from_str(PROXY_ERROR_PREFIX);
            text.append(detail.as_str());
            ProxyResponse {
                status: STATUS_BAD_GATEWAY,
                headers: Headers::new(),
                body: text.as_str().as_bytes_vec(),
            }
        },
        UpstreamOutcome::BodyUnreadable => ProxyResponse {
            status: STATUS_INTERNAL_SERVER_ERROR,
            headers: Headers::new(),
            body: BODY_ERROR_TEXT.as_bytes_vec(),
        },
        UpstreamOutcome::Received { status, headers, body } => {
            let mut repaired: Headers = headers;
            let sent: Vec<u8> = finish_response(registry, &mut repaired, body.as_slice());
            ProxyResponse { status, headers: repaired, body: sent }
        },
    }
}

/// Registers the redaction stages, first that for IPv4 and then that for
/// IPv6 addresses.
pub fn init_all(registry: &mut ModuleRegistry)
    ensures
        final(registry)@ == crate::module::registered(
            crate::module::registered(
                old(registry)@,
                (ModuleView {
                    name: crate::ipv4_detector::MODULE_NAME@,
                    version: crate::ipv4_detector::MODULE_VERSION@,
                    stage: crate::module::Stage::RedactIpv4,
                }),
            ),
            (ModuleView {
                name: crate::ipv6_detector::MODULE_NAME@,
                version: crate::ipv6_detector::MODULE_VERSION@,
                stage: crate::module::Stage::RedactIpv6,
            }),
        ),
{
    crate::ipv4_detector::register(registry);
    crate::ipv6_detector::register(registry);
}

} // verus!
