//! The compression step: the last step over a response body, taken after
//! redaction and only for content types that are worth compressing.

use std::io::Write;
use vstd::prelude::*;
use vstd::slice::slice_to_vec;
use vstd::utf8::{decode_utf8, encode_utf8, valid_utf8};
use crate::headers::{with_single, HeaderSeq, Headers};
use crate::module::{pipeline_output, process_content, ModuleRegistry, ModuleView};
use crate::text::{chars_of, contains_ignore_case, contains_lowered, lower_seq, occurs_at};

verus! {

broadcast use vstd::string::group_string_axioms;

pub const MODULE_NAME: &'static str = "BrotliCompressor";

pub const MODULE_VERSION: &'static str = "1.0.0";

/// The quality at which responses are encoded, on a scale from 0 to 11.
pub const DEFAULT_QUALITY: u32 = 4;

/// The highest quality of the scale.
pub const MAX_QUALITY: u32 = 11;

/// The encoder's window is two to this power.
pub const WINDOW_BITS: u32 = 22;

/// The size of the encoder's output buffer, in bytes.
pub const BUFFER_SIZE: usize = 4096;

/// The Brotli stream that the `brotli` crate writes for `input` with the
/// given buffer size, quality and window, or `None` where it reports an error.
pub uninterp spec fn brotli_encoded(
    input: Seq<u8>,
    buffer_size: usize,
    quality: u32,
    window_bits: u32,
) -> Option<Seq<u8>>;

/// Encodes `input` as one complete Brotli stream.
///
/// Trusted: makes a `brotli::CompressorWriter` over an empty vector, hands it
/// the input with `write_all`, calls `flush` and drops the writer, which ends
/// the stream. The contract claims only that the bytes written are a function
/// of the input and the three settings, named `brotli_encoded`, and that an
/// error of `write_all` or `flush` gives `None`.
#[verifier::external_body]
pub(crate) fn brotli_encode(input: &[u8], buffer_size: usize, quality: u32, window_bits: u32) -> (out:
    Option<Vec<u8>>)
    requires
        quality <= MAX_QUALITY,
        10 <= window_bits <= 24,
    ensures
        out matches Some(b) ==> brotli_encoded(input@, buffer_size, quality, window_bits) == Some(
            b@,
        ),
        out is None ==> brotli_encoded(input@, buffer_size, quality, window_bits) is None,
{
    let mut sink: Vec<u8> = Vec::new();
    let written = {
        let mut writer = brotli::CompressorWriter::new(&mut sink, buffer_size, quality, window_bits);
        writer.write_all(input).is_ok() && writer.flush().is_ok()
    };
    if written {
        Some(sink)
    } else {
        None
    }
}

/// Reads bytes as UTF-8 text.
///
/// Trusted: calls `std::str::from_utf8`, which is documented to succeed
/// exactly on valid UTF-8 and then to give those same bytes as a string.
#[verifier::external_body]
pub(crate) fn text_of(data: &[u8]) -> (out: Option<String>)
    ensures
        out matches Some(s) ==> valid_utf8(data@) && encode_utf8(s@) == data@,
        out is None ==> !valid_utf8(data@),
{
    match std::str::from_utf8(data) {
        Ok(s) => Some(s.to_owned()),
        Err(_) => None,
    }
}

/// Whether a content type is on the list of types that are compressed. The
/// test is a substring test that ignores the case of ASCII letters.
pub open spec fn is_compressible(content_type: Seq<char>) -> bool {
    ||| contains_ignore_case(content_type, "text/"@)
    ||| contains_ignore_case(content_type, "application/json"@)
    ||| contains_ignore_case(content_type, "application/javascript"@)
    ||| contains_ignore_case(content_type, "application/xml"@)
    ||| contains_ignore_case(content_type, "application/xhtml+xml"@)
    ||| contains_ignore_case(content_type, "image/svg+xml"@)
    ||| contains_ignore_case(content_type, "application/x-www-form-urlencoded"@)
}

/// The bytes that stand for an encoder outcome: the stream, or nothing where
/// the encoder failed.
pub open spec fn stream_or_empty(encoded: Option<Seq<u8>>) -> Seq<u8> {
    match encoded {
        Some(b) => b,
        None => Seq::empty(),
    }
}

/// The model of a compression result: the bytes to send and, where they were
/// encoded, the content type that the body had before.
pub ghost struct CompressedView {
    pub body: Seq<u8>,
    pub outcome: Option<Seq<char>>,
}

/// What the compression step makes of `input`: without a content type, or
/// with one that is not compressible, the input itself and no outcome; else
/// the encoded stream and the content type as outcome.
pub open spec fn compression_output(
    input: Seq<u8>,
    content_type: Option<Seq<char>>,
    quality: u32,
) -> CompressedView {
    match content_type {
        Some(t) if is_compressible(t) => CompressedView {
            body: stream_or_empty(brotli_encoded(input, BUFFER_SIZE, quality, WINDOW_BITS)),
            outcome: Some(t),
        },
        _ => CompressedView { body: input, outcome: None },
    }
}

/// What redaction makes of a body given as bytes: valid UTF-8 is decoded, run
/// through the stages and encoded again; anything else is left alone.
pub open spec fn redacted_bytes(modules: Seq<ModuleView>, data: Seq<u8>) -> Seq<u8> {
    if valid_utf8(data) {
        encode_utf8(pipeline_output(modules, decode_utf8(data)))
    } else {
        data
    }
}

/// The headers after the compression step: with an outcome, the encoding and
/// `Vary` are announced and the content type is set back to what it was.
pub open spec fn headers_after_compression(h: HeaderSeq, outcome: Option<Seq<char>>) -> HeaderSeq {
    match outcome {
        Some(t) => with_single(
            with_single(with_single(h, "content-encoding"@, "br"@), "vary"@, "Accept-Encoding"@),
            "content-type"@,
            t,
        ),
        None => h,
    }
}

/// A JSON body is encoded, whatever it holds; a PNG body goes out byte for
/// byte, with no outcome that would announce an encoding.
pub proof fn lemma_json_encoded_png_kept(input: Seq<u8>, quality: u32)
    ensures
        compression_output(input, Some("application/json"@), quality).outcome == Some(
            "application/json"@,
        ),
        compression_output(input, Some("image/png"@), quality) == (CompressedView {
            body: input,
            outcome: None,
        }),
{
    reveal_strlit("application/json");
    reveal_strlit("image/png");
    reveal_strlit("text/");
    reveal_strlit("application/javascript");
    reveal_strlit("application/xml");
    reveal_strlit("application/xhtml+xml");
    reveal_strlit("image/svg+xml");
    reveal_strlit("application/x-www-form-urlencoded");
    let json = "application/json"@;
    assert(lower_seq(json).subrange(0, 16) =~= json);
    assert(occurs_at(lower_seq(json), json, 0));
    let png = lower_seq("image/png"@);
    assert(png.len() == 9);
    assert forall|at: int| !occurs_at(png, "text/"@, at) by {
        if 0 <= at && at + 5 <= 9 {
            assert(png.subrange(at, at + 5)[0] == png[at]);
            assert("text/"@[0] == 't');
            assert(png[at] != 't');
        }
    }
    assert(!is_compressible("image/png"@));
}

/// Records that a body was encoded, and the content type it had before.
pub struct CompressionOutcome {
    pub content_type: String,
}

/// A body after the compression step.
pub struct CompressedBody {
    pub body: Vec<u8>,
    pub outcome: Option<CompressionOutcome>,
}

impl View for CompressedBody {
    type V = CompressedView;

    open spec fn view(&self) -> CompressedView {
        CompressedView {
            body: self.body@,
            outcome: match self.outcome {
                Some(o) => Some(o.content_type@),
                None => None,
            },
        }
    }
}

/// An encoder at a fixed quality.
pub struct BrotliCompressor {
    compression_level: u32,
}

/// The bytes to send for an encoder outcome: a failed encoding sends nothing.
pub fn encoded_body(encoded: Option<Vec<u8>>) -> (out: Vec<u8>)
    ensures
        out@ == stream_or_empty(
            match encoded {
                Some(b) => Some(b@),
                None => None,
            },
        ),
{
    match encoded {
        Some(b) => b,
        None => Vec::new(),
    }
}

impl BrotliCompressor {
    /// The compressor's invariant: its quality is on the scale.
    #[verifier::type_invariant]
    spec fn wf(self) -> bool {
        self.compression_level <= MAX_QUALITY
    }

    /// The quality at which the compressor encodes.
    pub closed spec fn quality(&self) -> u32 {
        self.compression_level
    }

    /// The quality at which the compressor encodes; it is on the scale.
    pub fn level(&self) -> (out: u32)
        ensures
            out == self.quality(),
            out <= MAX_QUALITY,
    {
        proof {
            use_type_invariant(self);
        }
        self.compression_level
    }

    /// A compressor at `compression_level`, capped at the top of the scale.
    pub fn new(compression_level: u32) -> (out: BrotliCompressor)
        ensures
            out.quality() == if compression_level > MAX_QUALITY {
                MAX_QUALITY
            } else {
                compression_level
            },
    {
        let level: u32 = if compression_level > MAX_QUALITY {
            MAX_QUALITY
        } else {
            compression_level
        };
        BrotliCompressor { compression_level: level }
    }

    /// Compresses a textual body if its content type calls for it.
    pub fn compress(&self, content: &str, content_type: Option<&str>) -> (out: CompressedBody)
        ensures
            out@ == compression_output(
                encode_utf8(content@),
                match content_type {
                    Some(t) => Some(t@),
                    None => None,
                },
                self.quality(),
            ),
    {
        self.compress_bytes(content.as_bytes(), content_type)
    }

    /// Compresses a body given as bytes if its content type calls for it.
    pub fn compress_bytes(&self, input: &[u8], content_type: Option<&str>) -> (out: CompressedBody)
        ensures
            out@ == compression_output(
                input@,
                match content_type {
                    Some(t) => Some(t@),
                    None => None,
                },
                self.quality(),
            ),
    {
        match content_type {
            Some(t) => {
                if is_compressible_content(t) {
                    let encoded: Option<Vec<u8>> = brotli_encode(
                        input,
                        BUFFER_SIZE,
                        self.level(),
                        WINDOW_BITS,
                    );
                    return CompressedBody {
                        body: encoded_body(encoded),
                        outcome: Some(CompressionOutcome { content_type: t.to_owned() }),
                    };
                }
            },
            None => {},
        }
        CompressedBody { body: slice_to_vec(input), outcome: None }
    }
}

/// Whether a body of this content type is compressed.
pub fn is_compressible_content(content_type: &str) -> (r: bool)
    ensures
        r == is_compressible(content_type@),
{
    let lowered: Vec<char> = chars_of(content_type);
    contains_lowered(&lowered, &chars_of("text/"))
        || contains_lowered(&lowered, &chars_of("application/json"))
        || contains_lowered(&lowered, &chars_of("application/javascript"))
        || contains_lowered(&lowered, &chars_of("application/xml"))
        || contains_lowered(&lowered, &chars_of("application/xhtml+xml"))
        || contains_lowered(&lowered, &chars_of("image/svg+xml"))
        || contains_lowered(&lowered, &chars_of("application/x-www-form-urlencoded"))
}

/// The compression step for a body of unknown content type: the body goes
/// out as it is.
pub fn compress_content(content: &str) -> (out: CompressedBody)
    ensures
        out@ == compression_output(encode_utf8(content@), None, DEFAULT_QUALITY),
{
    let compressor: BrotliCompressor = BrotliCompressor::new(DEFAULT_QUALITY);
    compressor.compress(content, None)
}

/// The compression step for a textual body at the default quality.
pub fn compress_content_with_type(content: &str, content_type: &str) -> (out: CompressedBody)
    ensures
        out@ == compression_output(encode_utf8(content@), Some(content_type@), DEFAULT_QUALITY),
{
    let compressor: BrotliCompressor = BrotliCompressor::new(DEFAULT_QUALITY);
    compressor.compress(content, Some(content_type))
}

/// Runs the redaction stages over a body given as bytes. A body that is not
/// valid UTF-8 is returned unchanged.
pub fn redact_bytes(registry: &ModuleRegistry, data: &[u8]) -> (out: Vec<u8>)
    ensures
        out@ == redacted_bytes(registry@, data@),
{
    match text_of(data) {
        Some(text) => {
            let mut content: String = text;
            proof {
                vstd::utf8::encode_utf8_decode_utf8(content@);
            }
            process_content(registry, &mut content);
            content.as_str().as_bytes_vec()
        },
        None => slice_to_vec(data),
    }
}

/// Redaction, then the compression step at the default quality.
pub fn compress_bytes_with_type(registry: &ModuleRegistry, data: &[u8], content_type: &str) -> (out:
    CompressedBody)
    ensures
        out@ == compression_output(
            redacted_bytes(registry@, data@),
            Some(content_type@),
            DEFAULT_QUALITY,
        ),
{
    let redacted: Vec<u8> = redact_bytes(registry, data);
    let compressor: BrotliCompressor = BrotliCompressor::new(DEFAULT_QUALITY);
    compressor.compress_bytes(redacted.as_slice(), Some(content_type))
}

/// The content type that a body had before it was encoded.
pub fn get_original_content_type(outcome: &Option<CompressionOutcome>) -> (out: Option<String>)
    ensures
        match out {
            Some(t) => outcome matches Some(o) && t@ == o.content_type@,
            None => outcome is None,
        },
{
    match outcome {
        Some(o) => Some(o.content_type.clone()),
        None => None,
    }
}

/// Repairs the headers after the compression step and says whether the body
/// was encoded.
pub fn update_headers_for_brotli(headers: &mut Headers, outcome: &Option<CompressionOutcome>) -> (r:
    bool)
    ensures
        r == outcome is Some,
        final(headers)@ == headers_after_compression(
            old(headers)@,
            match outcome {
                Some(o) => Some(o.content_type@),
                None => None,
            },
        ),
{
    match outcome {
        Some(o) => {
            headers.insert("content-encoding", "br");
            headers.insert("vary", "Accept-Encoding");
            headers.insert("content-type", o.content_type.as_str());
            true
        },
        None => false,
    }
}

} // verus!
