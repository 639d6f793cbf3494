//! Raw LZMA1 streams, produced and consumed by `liblzma`.

use vstd::prelude::*;
use liblzma::stream::{Action, Filters, LzmaOptions, Status, Stream};
use liblzma::write::XzEncoder;

verus! {

/// The raw LZMA1 filter configuration: a preset level refined by the
/// literal-context, literal-position and position bits and the dictionary size.
#[derive(Clone, Copy, Debug)]
pub struct LzmaSettings {
    pub preset: u32,
    pub literal_context_bits: u32,
    pub literal_position_bits: u32,
    pub position_bits: u32,
    pub dictionary_size: u32,
}

/// What one decoding call over a raw LZMA1 stream reported.
pub struct LzmaDecoded {
    /// Whether the decoder reached the end-of-payload marker.
    pub stream_end: bool,
    /// Compressed bytes consumed.
    pub consumed: u64,
    /// Decompressed bytes produced.
    pub produced: u64,
    /// The whole output buffer; bytes past `produced` keep their initial zero.
    pub output: Vec<u8>,
}

/// The raw LZMA1 stream that `liblzma` produces for `input` under the given
/// filter configuration.
pub uninterp spec fn lzma_raw_encoded(
    preset: u32,
    literal_context_bits: u32,
    literal_position_bits: u32,
    position_bits: u32,
    dictionary_size: u32,
    input: Seq<u8>,
) -> Seq<u8>;

/// What one `liblzma` raw decoding call reports for `input` under the given
/// filter configuration, with a zero-filled output buffer of `capacity` bytes:
/// end-of-stream flag, bytes consumed, bytes produced and the output buffer;
/// `None` when `liblzma` rejects the data.
pub uninterp spec fn lzma_raw_decoded(
    preset: u32,
    literal_context_bits: u32,
    literal_position_bits: u32,
    position_bits: u32,
    dictionary_size: u32,
    input: Seq<u8>,
    capacity: nat,
) -> Option<(bool, u64, u64, Seq<u8>)>;

/// Settings that `liblzma` accepts for a raw LZMA1 filter: a preset level of
/// at most 9, at most four literal-context plus literal-position bits, at most
/// four position bits and a dictionary of 4 KiB to 1.5 GiB.
pub open spec fn settings_accepted(s: LzmaSettings) -> bool {
    &&& s.preset <= 9
    &&& s.literal_context_bits + s.literal_position_bits <= 4
    &&& s.position_bits <= 4
    &&& 4096 <= s.dictionary_size <= 1610612736
}

/// Compression through `liblzma`: a raw LZMA1 encoder
/// (`Stream::new_raw_encoder` over `Filters::lzma1` with
/// `LzmaOptions::new_preset` refined by the settings) driven by
/// `XzEncoder::new_stream`, `write_all` and `finish`.
///
/// Claimed: a successful result is the named stream of `input`, and decoding
/// that stream with room for one spare byte reaches its end marker after
/// consuming all of it and producing exactly `input` (lossless compression).
/// The stream is never empty: the encoder always flushes its range coder.
/// Under settings that `liblzma` accepts it succeeds; left aside is
/// `liblzma` running out of memory, which this code does not guard against.
#[verifier::external_body]
pub(crate) fn lzma_compress(settings: LzmaSettings, input: &[u8]) -> (res: core::result::Result<Vec<u8>, String>)
    ensures
        res matches Ok(out) ==> out@ == lzma_raw_encoded(
            settings.preset,
            settings.literal_context_bits,
            settings.literal_position_bits,
            settings.position_bits,
            settings.dictionary_size,
            input@,
        ),
        res matches Ok(out) ==> out@.len() > 0,
        settings_accepted(settings) ==> res is Ok,
        res matches Ok(out) ==> lzma_raw_decoded(
            settings.preset,
            settings.literal_context_bits,
            settings.literal_position_bits,
            settings.position_bits,
            settings.dictionary_size,
            out@,
            input@.len() + 1,
        ) == Some((true, out@.len() as u64, input@.len() as u64, input@.push(0u8))),
{
    let mut options = LzmaOptions::new_preset(settings.preset).map_err(|e| e.to_string())?;
    options.literal_context_bits(settings.literal_context_bits).literal_position_bits(settings.literal_position_bits);
    options.position_bits(settings.position_bits).dict_size(settings.dictionary_size);
    let mut filters = Filters::new();
    filters.lzma1(&options);
    let stream = Stream::new_raw_encoder(&filters).map_err(|e| e.to_string())?;
    let mut encoder = XzEncoder::new_stream(Vec::new(), stream);
    std::io::Write::write_all(&mut encoder, input).map_err(|e| e.to_string())?;
    encoder.finish().map_err(|e| e.to_string())
}

/// Decompression through `liblzma`: one `Stream::process` call with
/// `Action::Run` of a raw LZMA1 decoder (`Stream::new_raw_decoder` over the
/// same filter chain as [`lzma_compress`]) into a zero-filled buffer of
/// `capacity` bytes, followed by `total_in` and `total_out`.
///
/// Claimed: a successful result is the named outcome, and the call fails
/// exactly where the name records that `liblzma` rejects the data; left aside
/// is `liblzma` running out of memory, which this code does not guard against.
#[verifier::external_body]
pub(crate) fn lzma_decompress(settings: LzmaSettings, input: &[u8], capacity: usize) -> (res: core::result::Result<LzmaDecoded, String>)
    ensures
        res matches Ok(d) ==> lzma_raw_decoded(
            settings.preset,
            settings.literal_context_bits,
            settings.literal_position_bits,
            settings.position_bits,
            settings.dictionary_size,
            input@,
            capacity as nat,
        ) == Some((d.stream_end, d.consumed, d.produced, d.output@)),
        res matches Ok(d) ==> d.output@.len() == capacity,
        res is Err <==> lzma_raw_decoded(
            settings.preset,
            settings.literal_context_bits,
            settings.literal_position_bits,
            settings.position_bits,
            settings.dictionary_size,
            input@,
            capacity as nat,
        ) is None,
{
    let mut options = LzmaOptions::new_preset(settings.preset).map_err(|e| e.to_string())?;
    options.literal_context_bits(settings.literal_context_bits).literal_position_bits(settings.literal_position_bits);
    options.position_bits(settings.position_bits).dict_size(settings.dictionary_size);
    let mut filters = Filters::new();
    filters.lzma1(&options);
    let mut stream = Stream::new_raw_decoder(&filters).map_err(|e| e.to_string())?;
    let mut output = vec![0u8; capacity];
    let status = stream.process(input, &mut output, Action::Run).map_err(|e| e.to_string())?;
    let stream_end = status == Status::StreamEnd;
    Ok(LzmaDecoded { stream_end, consumed: stream.total_in(), produced: stream.total_out(), output })
}

} // verus!
