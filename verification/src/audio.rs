//! Audio processing: sample rate conversion and sample format conversion.
//!
//! `AudioProcessor` copies or rate-converts blocks of samples; the free
//! functions `encode_samples` and `decode_samples` carry sample words between
//! their 32-bit form and the little-endian byte layouts of the supported
//! formats. `Resampler` is a second, independent rate converter whose output
//! positions are exact rational positions in the input; the two converters
//! deliberately keep their distinct selection policies.

use vstd::prelude::*;
use vstd::arithmetic::div_mod::{
    lemma_breakdown, lemma_div_by_multiple, lemma_div_multiples_vanish, lemma_fundamental_div_mod,
    lemma_fundamental_div_mod_converse, lemma_multiply_divide_lt, lemma_small_mod,
};
use vstd::arithmetic::mul::lemma_mul_inequality;
use vstd::math::min;

use crate::AudioFormat;
use crate::Error;

verus! {

broadcast use vstd::arithmetic::div_mod::group_mod_properties;

/// Audio processor for handling sample rate conversion and format conversion.
pub struct AudioProcessor {
    /// Input sample rate in Hz.
    pub input_sample_rate: u32,
    /// Output sample rate in Hz.
    pub output_sample_rate: u32,
    /// Number of channels.
    pub channels: u16,
    /// Sample encoding.
    pub format: AudioFormat,
}

impl AudioProcessor {
    /// Both rates are actual rates: rate conversion divides by them.
    pub open spec fn wf(&self) -> bool {
        &&& self.input_sample_rate >= 1
        &&& self.output_sample_rate >= 1
    }

    /// Length of the block that rate conversion produces from `input_len`
    /// samples: the input length scaled by the rate ratio, rounded down.
    pub open spec fn resampled_len(&self, input_len: int) -> int {
        input_len * self.output_sample_rate / self.input_sample_rate as int
    }

    /// The input sample that output position `i` of a rate-converted block
    /// copies: the nearest source sample at or before the exact rational
    /// position, a deliberately simple selection policy.
    pub open spec fn source_index(&self, i: int) -> int {
        i * self.input_sample_rate / self.output_sample_rate as int
    }

    /// Creates a new audio processor for the given rates, channel count and
    /// format.
    pub fn new(
        input_sample_rate: u32,
        output_sample_rate: u32,
        channels: u16,
        format: AudioFormat,
    ) -> (r: Self)
        ensures
            r.input_sample_rate == input_sample_rate,
            r.output_sample_rate == output_sample_rate,
            r.channels == channels,
            r.format == format,
    {
        AudioProcessor { input_sample_rate, output_sample_rate, channels, format }
    }

    /// Processes audio samples into the front of `output`.
    ///
    /// With equal input and output rates this is an exact pass-through copy
    /// of `min(input.len(), output.len())` samples. With differing rates it
    /// fills `min(resampled_len, output.len())` positions, each with the
    /// nearest preceding source sample. The rest of `output` is unchanged;
    /// the count of samples written is returned, and no input can fail.
    #[verifier::loop_isolation(false)]
    pub fn process<T: Copy>(&self, input: &[T], output: &mut Vec<T>) -> (r: Result<usize, Error>)
        requires
            self.wf(),
        ensures
            final(output)@.len() == old(output)@.len(),
            r is Ok,
            self.input_sample_rate == self.output_sample_rate ==> {
                &&& r->Ok_0 == min(input@.len() as int, old(output)@.len() as int)
                &&& final(output)@ == input@.take(r->Ok_0 as int) + old(output)@.skip(
                    r->Ok_0 as int,
                )
            },
            self.input_sample_rate != self.output_sample_rate ==> {
                &&& r->Ok_0 == min(self.resampled_len(input@.len() as int), old(output)@.len() as int)
                &&& forall|i: int|
                    0 <= i < r->Ok_0 ==> final(output)@[i] == input@[self.source_index(i)]
                &&& forall|i: int|
                    r->Ok_0 <= i < old(output)@.len() ==> final(output)@[i] == old(output)@[i]
            },
    {
        if self.input_sample_rate == self.output_sample_rate {
            // Pass-through when sample rates match.
            let to_process = if input.len() < output.len() {
                input.len()
            } else {
                output.len()
            };
            let mut i: usize = 0;
            while i < to_process
                invariant
                    i <= to_process,
                    output@.len() == old(output)@.len(),
                    forall|j: int| 0 <= j < i ==> output@[j] == input@[j],
                    forall|j: int| i <= j < output@.len() ==> output@[j] == old(output)@[j],
                decreases to_process - i,
            {
                output[i] = input[i];
                i = i + 1;
            }
            assert(output@ =~= input@.take(to_process as int) + old(output)@.skip(
                to_process as int,
            ));
            return Ok(to_process);
        }
        // Nearest-sample rate conversion on exact rational positions.
        let in_rate = self.input_sample_rate as u128;
        let out_rate = self.output_sample_rate as u128;
        let input_len = input.len();
        proof {
            lemma_rate_product_fits(input_len as int, out_rate as int);
        }
        let scaled = (input_len as u128) * out_rate / in_rate;
        let actual_output = if scaled < output.len() as u128 {
            scaled as usize
        } else {
            output.len()
        };
        assert(actual_output == min(self.resampled_len(input@.len() as int), output@.len() as int));

        let mut i: usize = 0;
        while i < actual_output
            invariant
                i <= actual_output,
                output@.len() == old(output)@.len(),
                forall|j: int| 0 <= j < i ==> output@[j] == input@[self.source_index(j)],
                forall|j: int| i <= j < output@.len() ==> output@[j] == old(output)@[j],
            decreases actual_output - i,
        {
            proof {
                lemma_rate_product_fits(i as int, in_rate as int);
            }
            let src_wide = (i as u128) * in_rate / out_rate;
            proof {
                lemma_source_index_in_bounds(
                    i as int,
                    input@.len() as int,
                    self.input_sample_rate as int,
                    self.output_sample_rate as int,
                );
            }
            let src_idx = src_wide as usize;
            output[i] = input[src_idx];
            i = i + 1;
        }
        Ok(actual_output)
    }

    /// Returns true if resampling is needed, that is, if the input and output
    /// sample rates differ.
    pub fn needs_resampling(&self) -> (r: bool)
        ensures
            r == (self.input_sample_rate != self.output_sample_rate),
    {
        self.input_sample_rate != self.output_sample_rate
    }
}

impl Default for AudioProcessor {
    /// A stereo 48 kHz float pass-through processor.
    fn default() -> (r: Self)
        ensures
            r.input_sample_rate == 48000,
            r.output_sample_rate == 48000,
            r.channels == 2,
            r.format == AudioFormat::F32LE,
            r.wf(),
    {
        AudioProcessor::new(48000, 48000, 2, AudioFormat::F32LE)
    }
}

/// The little-endian bytes of one encoded sample: the low `bytes_per_sample`
/// bytes of the 32-bit sample word.
pub open spec fn sample_bytes(word: u32, format: AudioFormat) -> Seq<u8> {
    let b0 = (word % 256) as u8;
    let b1 = ((word / 256) % 256) as u8;
    let b2 = ((word / 65536) % 256) as u8;
    let b3 = ((word / 16777216) % 256) as u8;
    match format {
        AudioFormat::S16LE => seq![b0, b1],
        AudioFormat::S24LE => seq![b0, b1, b2],
        _ => seq![b0, b1, b2, b3],
    }
}

/// The 32-bit sample word a little-endian byte group decodes to: the bytes
/// assembled, with the sign bit of the 16- and 24-bit formats extended
/// through the high bits of the word.
pub open spec fn sample_of_bytes(bytes: Seq<u8>, format: AudioFormat) -> u32 {
    match format {
        AudioFormat::S16LE => {
            let raw = bytes[0] + 256 * bytes[1];
            if bytes[1] >= 128 {
                (raw + 0xffff_0000) as u32
            } else {
                raw as u32
            }
        },
        AudioFormat::S24LE => {
            let raw = bytes[0] + 256 * bytes[1] + 65536 * bytes[2];
            if bytes[2] >= 128 {
                (raw + 0xff00_0000) as u32
            } else {
                raw as u32
            }
        },
        _ => (bytes[0] + 256 * bytes[1] + 65536 * bytes[2] + 16777216 * bytes[3]) as u32,
    }
}

/// Whether a 32-bit sample word is canonical for `format`: its high bits
/// already hold the sign extension of the encoded value, so that encoding
/// and decoding return it unchanged.
pub open spec fn sample_in_range(word: u32, format: AudioFormat) -> bool {
    match format {
        AudioFormat::S16LE => word < 0x8000 || word >= 0xffff_8000,
        AudioFormat::S24LE => word < 0x80_0000 || word >= 0xff80_0000,
        _ => true,
    }
}

/// The byte stream that encodes a block of sample words.
pub open spec fn block_bytes(words: Seq<u32>, format: AudioFormat) -> Seq<u8> {
    let bps = format.bytes_per_sample_spec() as int;
    Seq::new(
        (words.len() * bps) as nat,
        |k: int| sample_bytes(words[k / bps], format)[k % bps],
    )
}

/// The sample words a byte stream decodes to; trailing bytes that do not
/// fill a whole sample are ignored.
pub open spec fn block_words(bytes: Seq<u8>, format: AudioFormat) -> Seq<u32> {
    let bps = format.bytes_per_sample_spec() as int;
    Seq::new(
        (bytes.len() as int / bps) as nat,
        |i: int| sample_of_bytes(bytes.subrange(i * bps, (i + 1) * bps), format),
    )
}

/// A position inside the byte group of sample `i` divides back into that
/// sample number and the offset within the group.
proof fn lemma_block_index(bps: int, i: int, k: int)
    requires
        1 <= bps,
        0 <= i,
        i * bps <= k < (i + 1) * bps,
    ensures
        k / bps == i,
        k % bps == k - i * bps,
{
    assert((i + 1) * bps == i * bps + bps) by (nonlinear_arith);
    lemma_fundamental_div_mod_converse(k, bps, i, k - i * bps);
}

/// Appending one sample word to a block appends its bytes to the block's
/// encoding.
proof fn lemma_block_bytes_snoc(words: Seq<u32>, format: AudioFormat, i: int)
    requires
        0 <= i < words.len(),
    ensures
        block_bytes(words.take(i + 1), format) == block_bytes(words.take(i), format)
            + sample_bytes(words[i], format),
{
    let bps = format.bytes_per_sample_spec() as int;
    let left = block_bytes(words.take(i), format) + sample_bytes(words[i], format);
    assert forall|k: int| 0 <= k < (i + 1) * bps implies block_bytes(words.take(i + 1), format)[k]
        == left[k] by {
        if k < i * bps {
            lemma_multiply_divide_lt(k, bps, i);
            assert(words.take(i + 1)[k / bps] == words.take(i)[k / bps]);
        } else {
            lemma_block_index(bps, i, k);
            assert(words.take(i + 1)[k / bps] == words[i]);
        }
    }
    assert(block_bytes(words.take(i + 1), format) =~= left);
}

/// Converts a block of 32-bit sample words into the little-endian byte
/// layout of `format`, `bytes_per_sample` bytes per word, in order.
#[verifier::loop_isolation(false)]
pub fn encode_samples(words: &[u32], format: AudioFormat) -> (r: Vec<u8>)
    requires
        words@.len() * format.bytes_per_sample_spec() <= usize::MAX,
    ensures
        r@ == block_bytes(words@, format),
{
    let mut out: Vec<u8> = Vec::new();
    let mut i: usize = 0;
    while i < words.len()
        invariant
            i <= words@.len(),
            out@ == block_bytes(words@.take(i as int), format),
        decreases words@.len() - i,
    {
        proof {
            lemma_block_bytes_snoc(words@, format, i as int);
            lemma_mul_inequality(
                i as int + 1,
                words@.len() as int,
                format.bytes_per_sample_spec() as int,
            );
        }
        let word = words[i];
        match format {
            AudioFormat::S16LE => {
                out.push((word % 256) as u8);
                out.push(((word / 256) % 256) as u8);
            },
            AudioFormat::S24LE => {
                out.push((word % 256) as u8);
                out.push(((word / 256) % 256) as u8);
                out.push(((word / 65536) % 256) as u8);
            },
            AudioFormat::F32LE | AudioFormat::S32LE => {
                out.push((word % 256) as u8);
                out.push(((word / 256) % 256) as u8);
                out.push(((word / 65536) % 256) as u8);
                out.push(((word / 16777216) % 256) as u8);
            },
        }
        assert(out@ =~= block_bytes(words@.take(i as int + 1), format));
        i = i + 1;
    }
    proof {
        assert(words@.take(words@.len() as int) =~= words@);
    }
    out
}

/// Decodes a little-endian byte stream into 32-bit sample words, extending
/// the sign bit of the 16- and 24-bit formats into the high bits of each
/// word; trailing bytes that do not fill a whole sample are ignored.
#[verifier::loop_isolation(false)]
pub fn decode_samples(bytes: &[u8], format: AudioFormat) -> (r: Vec<u32>)
    ensures
        r@ == block_words(bytes@, format),
        forall|i: int| 0 <= i < r@.len() ==> sample_in_range(#[trigger] r@[i], format),
{
    let bps = format.bytes_per_sample();
    let num_samples = bytes.len() / bps;
    let ghost bps_g = bps as int;

    let mut out: Vec<u32> = Vec::new();
    let mut i: usize = 0;
    while i < num_samples
        invariant
            i <= num_samples,
            out@.len() == i,
            forall|j: int|
                0 <= j < i ==> out@[j] == sample_of_bytes(
                    bytes@.subrange(j * bps_g, (j + 1) * bps_g),
                    format,
                ),
            forall|j: int| 0 <= j < i ==> sample_in_range(#[trigger] out@[j], format),
        decreases num_samples - i,
    {
        proof {
            lemma_mul_inequality(i as int + 1, num_samples as int, bps_g);
            assert(num_samples as int * bps_g <= bytes@.len()) by {
                lemma_fundamental_div_mod(bytes@.len() as int, bps_g);
            }
        }
        let start = i * bps;
        let ghost group = bytes@.subrange(i as int * bps_g, (i as int + 1) * bps_g);
        proof {
            assert((i as int + 1) * bps_g == i as int * bps_g + bps_g) by (nonlinear_arith);
            assert(forall|k: int|
                0 <= k < bps_g ==> group[k] == bytes@[i as int * bps_g + k]);
        }
        let word: u32 = match format {
            AudioFormat::S16LE => {
                let raw = bytes[start] as u32 + 256 * (bytes[start + 1] as u32);
                if bytes[start + 1] >= 128 {
                    raw + 0xffff_0000
                } else {
                    raw
                }
            },
            AudioFormat::S24LE => {
                let raw = bytes[start] as u32 + 256 * (bytes[start + 1] as u32) + 65536 * (
                bytes[start + 2] as u32);
                if bytes[start + 2] >= 128 {
                    raw + 0xff00_0000
                } else {
                    raw
                }
            },
            AudioFormat::F32LE | AudioFormat::S32LE => {
                bytes[start] as u32 + 256 * (bytes[start + 1] as u32) + 65536 * (
                bytes[start + 2] as u32) + 16777216 * (bytes[start + 3] as u32)
            },
        };
        assert(word == sample_of_bytes(group, format));
        assert(sample_in_range(word, format));
        out.push(word);
        i = i + 1;
    }
    assert(out@ =~= block_words(bytes@, format));
    out
}

/// A sample word within the canonical range of `format` survives encoding to
/// bytes and decoding back unchanged; in particular the third byte of an
/// `S24LE` sample is sign-extended into the high byte again on decode.
pub proof fn lemma_sample_round_trip(word: u32, format: AudioFormat)
    requires
        sample_in_range(word, format),
    ensures
        sample_of_bytes(sample_bytes(word, format), format) == word,
{
    let w = word as int;
    lemma_breakdown(w, 256, 256);
    lemma_breakdown(w, 65536, 256);
    lemma_breakdown(w, 16777216, 256);
    assert(w % 0x1_0000_0000 == w) by {
        lemma_small_mod(word as nat, 0x1_0000_0000);
    }
    match format {
        AudioFormat::S16LE => {
            let raw = w % 65536;
            assert(raw / 256 == (w / 256) % 256) by {
                lemma_fundamental_div_mod_converse(raw, 256, (w / 256) % 256, w % 256);
            }
            if w < 0x8000 {
                lemma_small_mod(word as nat, 65536);
            } else {
                assert(w / 65536 == 0xffff) by {
                    lemma_fundamental_div_mod(w, 65536);
                }
                assert(raw == w - 0xffff_0000);
                assert(raw / 256 >= 128) by {
                    lemma_fundamental_div_mod(raw, 256);
                }
            }
        },
        AudioFormat::S24LE => {
            let raw = w % 16777216;
            assert(raw == 65536 * ((w / 65536) % 256) + w % 65536);
            assert(raw / 65536 == (w / 65536) % 256) by {
                lemma_fundamental_div_mod_converse(raw, 65536, (w / 65536) % 256, w % 65536);
            }
            if w < 0x80_0000 {
                lemma_small_mod(word as nat, 16777216);
            } else {
                assert(w / 16777216 == 0xff) by {
                    lemma_fundamental_div_mod(w, 16777216);
                }
                assert(raw == w - 0xff00_0000);
                assert(raw / 65536 >= 128) by {
                    lemma_fundamental_div_mod(raw, 65536);
                }
            }
        },
        _ => {
            assert(w % 0x1_0000_0000 == 16777216 * ((w / 16777216) % 256) + w % 16777216);
        },
    }
}

/// Decoding the encoding of a block of canonical sample words yields the
/// block unchanged, sign extension included.
pub proof fn lemma_block_round_trip(words: Seq<u32>, format: AudioFormat)
    requires
        forall|i: int| 0 <= i < words.len() ==> sample_in_range(#[trigger] words[i], format),
    ensures
        block_words(block_bytes(words, format), format) == words,
{
    let bps = format.bytes_per_sample_spec() as int;
    let bytes = block_bytes(words, format);
    assert(bytes.len() as int / bps == words.len()) by {
        lemma_div_multiples_vanish(words.len() as int, bps);
        assert(bps * words.len() == words.len() * bps) by {
            vstd::arithmetic::mul::lemma_mul_is_commutative(bps, words.len() as int);
        }
    }
    assert forall|i: int| 0 <= i < words.len() implies block_words(bytes, format)[i] == words[
        i
    ] by {
        let group = bytes.subrange(i * bps, (i + 1) * bps);
        assert forall|k: int| 0 <= k < bps implies group[k] == sample_bytes(words[i], format)[
            k
        ] by {
            lemma_block_index(bps, i, i * bps + k);
            assert(bytes[i * bps + k] == sample_bytes(words[(i * bps + k) / bps], format)[(i * bps
                + k) % bps]);
        }
        assert(group =~= sample_bytes(words[i], format));
        lemma_sample_round_trip(words[i], format);
    }
    assert(block_words(bytes, format) =~= words);
}

/// Resampler for sample rate conversion by linear interpolation.
///
/// Where `AudioProcessor` copies the nearest preceding sample, this converter
/// interpolates between the two samples around the exact rational source
/// position `i * input_rate / output_rate`; the two policies are deliberately
/// kept distinct. The rational block lengths and source positions are
/// computed here, exactly; the interpolation arithmetic itself runs on the
/// caller's floating-point samples, outside this crate.
pub struct Resampler {
    input_rate: u32,
    output_rate: u32,
    channels: u16,
}

impl Resampler {
    /// The configured input rate in Hz.
    pub closed spec fn input_rate_spec(&self) -> u32 {
        self.input_rate
    }

    /// The configured output rate in Hz.
    pub closed spec fn output_rate_spec(&self) -> u32 {
        self.output_rate
    }

    /// The configured channel count.
    pub closed spec fn channels_spec(&self) -> u16 {
        self.channels
    }

    /// Both rates are actual rates: the conversion divides by them.
    pub open spec fn wf(&self) -> bool {
        &&& self.input_rate_spec() >= 1
        &&& self.output_rate_spec() >= 1
    }

    /// Length of the resampled block produced from `input_len` samples: the
    /// input length scaled by the rate ratio, rounded down.
    pub open spec fn output_len_spec(&self, input_len: int) -> int {
        input_len * self.output_rate_spec() / self.input_rate_spec() as int
    }

    /// The whole part of the exact rational source position of output sample
    /// `i`: the index of the input sample at or before it.
    pub open spec fn source_index_spec(&self, i: int) -> int {
        i * self.input_rate_spec() / self.output_rate_spec() as int
    }

    /// The numerator, over `output_rate`, of the fractional part of the exact
    /// rational source position of output sample `i`.
    pub open spec fn source_frac_spec(&self, i: int) -> int {
        i * self.input_rate_spec() % self.output_rate_spec() as int
    }

    /// Creates a new resampler.
    pub fn new(input_rate: u32, output_rate: u32, channels: u16) -> (r: Self)
        ensures
            r.input_rate_spec() == input_rate,
            r.output_rate_spec() == output_rate,
            r.channels_spec() == channels,
    {
        Resampler { input_rate, output_rate, channels }
    }

    /// The configured input rate in Hz.
    pub fn input_rate(&self) -> (r: u32)
        ensures
            r == self.input_rate_spec(),
    {
        self.input_rate
    }

    /// The configured output rate in Hz.
    pub fn output_rate(&self) -> (r: u32)
        ensures
            r == self.output_rate_spec(),
    {
        self.output_rate
    }

    /// The configured channel count.
    pub fn channels(&self) -> (r: u16)
        ensures
            r == self.channels_spec(),
    {
        self.channels
    }

    /// Number of samples a block resampled from `input_len` input samples
    /// holds; with equal rates it is the input length itself.
    pub fn output_len(&self, input_len: usize) -> (r: usize)
        requires
            self.wf(),
            self.output_len_spec(input_len as int) <= usize::MAX,
        ensures
            r == self.output_len_spec(input_len as int),
            self.input_rate_spec() == self.output_rate_spec() ==> r == input_len,
    {
        proof {
            lemma_rate_product_fits(input_len as int, self.output_rate as int);
            if self.input_rate == self.output_rate {
                lemma_div_by_multiple(input_len as int, self.input_rate as int);
            }
        }
        let wide = (input_len as u128) * (self.output_rate as u128) / (self.input_rate as u128);
        wide as usize
    }

    /// The source position from which output sample `i` of a block resampled
    /// from `input_len` input samples is interpolated: the index of the input
    /// sample at or before the exact rational position, which always lies
    /// within the input, and the numerator over `output_rate` of the
    /// fractional part.
    pub fn source_position(&self, i: usize, input_len: usize) -> (r: (usize, u32))
        requires
            self.wf(),
            i < self.output_len_spec(input_len as int),
        ensures
            r.0 == self.source_index_spec(i as int),
            r.0 < input_len,
            r.1 == self.source_frac_spec(i as int),
            r.1 < self.output_rate_spec(),
    {
        proof {
            lemma_rate_product_fits(i as int, self.input_rate as int);
            lemma_source_index_in_bounds(
                i as int,
                input_len as int,
                self.input_rate as int,
                self.output_rate as int,
            );
        }
        let wide = (i as u128) * (self.input_rate as u128);
        let src = wide / (self.output_rate as u128);
        let frac = wide % (self.output_rate as u128);
        (src as usize, frac as u32)
    }
}

/// The product of a block length and a sample rate fits comfortably in 128
/// bits.
proof fn lemma_rate_product_fits(len: int, rate: int)
    requires
        0 <= len <= usize::MAX as int,
        0 <= rate <= u32::MAX as int,
    ensures
        len * rate <= u128::MAX as int,
{
    assert(len * rate <= u64::MAX as int * (u32::MAX as int)) by (nonlinear_arith)
        requires
            0 <= len <= u64::MAX as int,
            0 <= rate <= u32::MAX as int,
    ;
}

/// An output position below the scaled output length draws from a source
/// index within the input: `i < len * out / in` implies
/// `i * in / out < len`.
proof fn lemma_source_index_in_bounds(i: int, input_len: int, in_rate: int, out_rate: int)
    requires
        1 <= in_rate,
        1 <= out_rate,
        0 <= i < input_len * out_rate / in_rate,
    ensures
        0 <= i * in_rate / out_rate < input_len,
{
    let scaled = input_len * out_rate / in_rate;
    assert(scaled * in_rate <= input_len * out_rate) by {
        lemma_fundamental_div_mod(input_len * out_rate, in_rate);
    }
    assert(i * in_rate <= (scaled - 1) * in_rate) by {
        lemma_mul_inequality(i, scaled - 1, in_rate);
    }
    assert((scaled - 1) * in_rate == scaled * in_rate - in_rate) by {
        vstd::arithmetic::mul::lemma_mul_is_distributive_sub_other_way(in_rate, scaled, 1);
    }
    assert(i * in_rate < input_len * out_rate);
    lemma_multiply_divide_lt(i * in_rate, out_rate, input_len);
}

} // verus!
