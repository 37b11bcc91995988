//! PCM audio: encoding to ALAC frames, and conversion of the sample rate.

use crate::outside;
use crate::text;
use vstd::arithmetic::div_mod::*;
use vstd::arithmetic::mul::*;
use vstd::prelude::*;
use vstd::slice::*;
use vstd::string::*;

verus! {

/// The samples of each channel in a frame.
pub const SAMPLES_PER_FRAME: usize = 352;

/// The sample rate of AirPlay audio, in Hz.
pub const AIRPLAY_SAMPLE_RATE: u32 = 44100;

/// The bytes of one frame of 16-bit PCM in `channels` channels.
pub open spec fn frame_bytes(channels: int) -> int {
    SAMPLES_PER_FRAME * channels * 2
}

/// The first frame of PCM.
pub open spec fn first_frame(pcm: Seq<u8>, channels: int) -> Seq<u8> {
    pcm.take(frame_bytes(channels))
}

/// Why a frame was not encoded.
pub enum EncodeError {
    /// The PCM data are shorter than a frame; both lengths are in bytes.
    ShortAlacFrame { got: usize, need: usize },
    /// The PCM data are shorter than an uncompressed frame.
    ShortRawFrame,
}

impl EncodeError {
    /// The text of the error.
    pub open spec fn text(self) -> Seq<char> {
        match self {
            EncodeError::ShortAlacFrame { got, need } =>
                "Not enough PCM data for ALAC frame: got "@ + text::decimal(got as nat)
                + " bytes, need "@ + text::decimal(need as nat),
            EncodeError::ShortRawFrame => "Not enough PCM data for frame"@,
        }
    }

    /// The text of the error.
    pub fn message(&self) -> (r: String)
        ensures
            r@ == self.text(),
    {
        match self {
            EncodeError::ShortAlacFrame { got, need } => {
                let mut out: String = String::from_str(
                    "Not enough PCM data for ALAC frame: got ",
                );
                text::push_decimal(&mut out, *got as u64);
                out.append(" bytes, need ");
                text::push_decimal(&mut out, *need as u64);
                out
            },
            EncodeError::ShortRawFrame => String::from_str("Not enough PCM data for frame"),
        }
    }
}

/// What an encoder is set to, and what it has done.
#[verifier::ext_equal]
pub struct EncoderView {
    pub sample_rate: u32,
    pub channels: u32,
    pub bits_per_sample: u32,
    /// The timestamps handed out.
    pub frame_count: u64,
    /// The frames encoded, in their order.
    pub encoded: Seq<Seq<u8>>,
    /// The packet made last.
    pub output: Seq<u8>,
}

/// An encoder that has done nothing yet.
pub open spec fn fresh_encoder(
    sample_rate: u32,
    channels: u32,
    bits_per_sample: u32,
) -> EncoderView {
    EncoderView {
        sample_rate,
        channels,
        bits_per_sample,
        frame_count: 0,
        encoded: Seq::empty(),
        output: Seq::empty(),
    }
}

/// The bytes of one frame of PCM as an encoder is configured.
pub open spec fn configured_frame_size(e: EncoderView) -> int {
    SAMPLES_PER_FRAME * e.channels * (e.bits_per_sample / 8)
}

/// The packet that an encoder makes of a frame next.
pub open spec fn packet_of_frame(e: EncoderView, frame: Seq<u8>) -> Seq<u8> {
    outside::alac_packet(SAMPLES_PER_FRAME as u32, e.channels, e.encoded, frame)
}

/// An encoder after it has encoded a frame.
pub open spec fn after_encoding(e: EncoderView, frame: Seq<u8>) -> EncoderView {
    EncoderView { encoded: e.encoded.push(frame), output: packet_of_frame(e, frame), ..e }
}

/// An encoder after it has handed out a timestamp.
pub open spec fn after_timestamp(e: EncoderView) -> EncoderView {
    EncoderView { frame_count: (e.frame_count + 1) as u64, ..e }
}

/// An encoder after a reset.
pub open spec fn after_reset(e: EncoderView) -> EncoderView {
    EncoderView { frame_count: 0, output: Seq::empty(), ..e }
}

/// An encoder of PCM audio to ALAC.
pub struct AudioEncoder {
    sample_rate: u32,
    channels: u32,
    bits_per_sample: u32,
    frame_count: u64,
    alac: alac_encoder::AlacEncoder,
    output_buffer: Vec<u8>,
}

impl View for AudioEncoder {
    type V = EncoderView;

    closed spec fn view(&self) -> EncoderView {
        EncoderView {
            sample_rate: self.sample_rate,
            channels: self.channels,
            bits_per_sample: self.bits_per_sample,
            frame_count: self.frame_count,
            encoded: outside::alac_frames(self.alac),
            output: self.output_buffer@,
        }
    }
}

/// The RTP timestamp of frame number `count`: its first sample's place in the stream, in 32 bits.
pub open spec fn frame_timestamp(count: int) -> int {
    (count * SAMPLES_PER_FRAME) % 0x1_0000_0000
}

/// `s` with the two bytes of each pair exchanged.
pub open spec fn swap_pairs(s: Seq<u8>) -> Seq<u8> {
    Seq::new(
        s.len(),
        |i: int|
            if i % 2 == 0 {
                s[i + 1]
            } else {
                s[i - 1]
            },
    )
}

/// The bytes of pair number `i`.
proof fn lemma_swapped_pair(s: Seq<u8>, i: int)
    requires
        0 <= i,
        2 * i + 1 < s.len(),
    ensures
        swap_pairs(s)[2 * i] == s[2 * i + 1],
        swap_pairs(s)[2 * i + 1] == s[2 * i],
{
    assert((2 * i) % 2 == 0 && (2 * i + 1) % 2 == 1);
}

/// The header of an uncompressed ALAC frame: the escape code, the element tag, unused bits.
pub open spec fn raw_header() -> Seq<u8> {
    seq![0x20, 0, 0, 0, 0, 0, 0]
}

/// A frame without compression: the header, and the samples in big-endian order.
pub open spec fn raw_frame(frame: Seq<u8>) -> Seq<u8> {
    raw_header() + swap_pairs(frame)
}

impl AudioEncoder {
    /// The ALAC encoder is made for frames of the encoder's channels.
    pub closed spec fn wf(&self) -> bool {
        &&& 1 <= self.channels <= 8
        &&& outside::alac_channels(self.alac) == self.channels
        &&& outside::alac_packet_samples(self.alac) == SAMPLES_PER_FRAME
    }

    /// An encoder for 44100 Hz, stereo, 16 bits.
    pub fn new() -> (r: Self)
        ensures
            r.wf(),
            r@ == fresh_encoder(44100, 2, 16),
    {
        Self::with_config(44100, 2, 16)
    }

    /// An encoder for the given configuration. ALAC knows one to eight channels.
    pub fn with_config(sample_rate: u32, channels: u32, bits_per_sample: u32) -> (r: Self)
        requires
            1 <= channels <= 8,
        ensures
            r.wf(),
            r@ == fresh_encoder(sample_rate, channels, bits_per_sample),
    {
        let alac: alac_encoder::AlacEncoder = outside::alac_new(
            sample_rate,
            SAMPLES_PER_FRAME as u32,
            channels,
        );
        AudioEncoder {
            sample_rate,
            channels,
            bits_per_sample,
            frame_count: 0,
            alac,
            output_buffer: Vec::new(),
        }
    }

    /// Encodes the first frame of `pcm_data`, 16-bit little-endian samples of interleaved
    /// channels, to an ALAC packet. What is not a full frame is refused.
    ///
    /// The channels of a full frame are the encoder's.
    pub fn encode_alac(&mut self, pcm_data: &[u8], _sample_rate: u32, channels: u32) -> (r: Result<
        Vec<u8>,
        EncodeError,
    >)
        requires
            old(self).wf(),
            frame_bytes(channels as int) <= usize::MAX,
            pcm_data@.len() >= frame_bytes(channels as int) ==> channels == old(self)@.channels,
        ensures
            final(self).wf(),
            match r {
                Err(e) => {
                    &&& pcm_data@.len() < frame_bytes(channels as int)
                    &&& e == (EncodeError::ShortAlacFrame {
                        got: pcm_data@.len() as usize,
                        need: frame_bytes(channels as int) as usize,
                    })
                    &&& final(self)@ == old(self)@
                },
                Ok(packet) => {
                    let frame = first_frame(pcm_data@, channels as int);
                    &&& pcm_data@.len() >= frame_bytes(channels as int)
                    &&& packet@ == packet_of_frame(old(self)@, frame)
                    &&& 0 < packet@.len() <= frame.len() + 64
                    &&& final(self)@ == after_encoding(old(self)@, frame)
                },
            },
    {
        let bytes_per_frame: usize = SAMPLES_PER_FRAME * channels as usize * 2;
        if pcm_data.len() < bytes_per_frame {
            return Err(
                EncodeError::ShortAlacFrame { got: pcm_data.len(), need: bytes_per_frame },
            );
        }
        let frame: Vec<u8> = slice_to_vec(slice_subrange(pcm_data, 0, bytes_per_frame));
        assert(frame@ == pcm_data@.take(bytes_per_frame as int));
        self.output_buffer.clear();
        self.output_buffer.resize(bytes_per_frame * 4 + 64, 0);
        let encoded_len: usize = outside::alac_encode(
            &mut self.alac,
            self.sample_rate,
            channels,
            &frame,
            &mut self.output_buffer,
        );
        self.output_buffer.truncate(encoded_len);
        Ok(slice_to_vec(self.output_buffer.as_slice()))
    }

    /// Encodes the first frame of `pcm_data` without compression: a header, and the samples in
    /// big-endian order.
    pub fn encode_raw(&self, pcm_data: &[u8], channels: u32) -> (r: Result<Vec<u8>, EncodeError>)
        requires
            frame_bytes(channels as int) + 7 <= usize::MAX,
        ensures
            match r {
                Err(e) => pcm_data@.len() < frame_bytes(channels as int)
                    && e == EncodeError::ShortRawFrame,
                Ok(out) => {
                    &&& pcm_data@.len() >= frame_bytes(channels as int)
                    &&& out@ == raw_frame(first_frame(pcm_data@, channels as int))
                },
            },
    {
        let bytes_per_frame: usize = SAMPLES_PER_FRAME * channels as usize * 2;
        if pcm_data.len() < bytes_per_frame {
            return Err(EncodeError::ShortRawFrame);
        }
        let ghost frame = pcm_data@.take(bytes_per_frame as int);
        let mut output: Vec<u8> = Vec::with_capacity(bytes_per_frame + 7);
        output.push(0x20);
        output.push(0);
        output.push(0);
        output.push(0);
        output.push(0);
        output.push(0);
        output.push(0);
        assert(output@ == raw_header());
        assert(swap_pairs(frame).take(0) == Seq::<u8>::empty());
        let samples: usize = SAMPLES_PER_FRAME * channels as usize;
        let mut i: usize = 0;
        while i < samples
            invariant
                i <= samples,
                2 * samples <= pcm_data@.len(),
                2 * samples <= usize::MAX,
                frame == pcm_data@.take(2 * samples),
                output@ == raw_header() + swap_pairs(frame).take(2 * i),
            decreases samples - i,
        {
            output.push(pcm_data[2 * i + 1]);
            output.push(pcm_data[2 * i]);
            proof {
                lemma_swapped_pair(frame, i as int);
            }
            assert(swap_pairs(frame).take(2 * i + 2) == swap_pairs(frame).take(2 * i).push(
                frame[2 * i + 1],
            ).push(frame[2 * i as int]));
            i = i + 1;
        }
        assert(swap_pairs(frame).take(2 * samples) == swap_pairs(frame));
        Ok(output)
    }

    /// The samples of each channel in a frame.
    pub fn samples_per_frame(&self) -> (r: usize)
        ensures
            r == 352,
    {
        SAMPLES_PER_FRAME
    }

    /// The bytes of one frame of PCM as the encoder is configured.
    pub fn frame_size(&self) -> (r: usize)
        requires
            configured_frame_size(self@) <= usize::MAX,
            self.wf(),
        ensures
            r == configured_frame_size(self@),
    {
        let width: u32 = self.bits_per_sample / 8;
        assert(width <= SAMPLES_PER_FRAME * self.channels * width) by (nonlinear_arith)
            requires
                self.channels >= 1,
                SAMPLES_PER_FRAME == 352,
        ;
        SAMPLES_PER_FRAME * self.channels as usize * width as usize
    }

    /// The timestamp of the next frame, which is then counted.
    pub fn next_timestamp(&mut self) -> (r: u32)
        requires
            old(self).wf(),
            old(self)@.frame_count * SAMPLES_PER_FRAME <= u64::MAX,
        ensures
            final(self).wf(),
            r == frame_timestamp(old(self)@.frame_count as int),
            final(self)@ == after_timestamp(old(self)@),
    {
        let r: u32 = self.current_timestamp();
        self.frame_count = self.frame_count + 1;
        r
    }

    /// The timestamp of the next frame.
    pub fn current_timestamp(&self) -> (r: u32)
        requires
            self@.frame_count * SAMPLES_PER_FRAME <= u64::MAX,
        ensures
            r == frame_timestamp(self@.frame_count as int),
    {
        let timestamp: u64 = self.frame_count * SAMPLES_PER_FRAME as u64;
        (timestamp % 0x1_0000_0000) as u32
    }

    /// Starts the timestamps again, and drops the packet made last.
    pub fn reset(&mut self)
        requires
            old(self).wf(),
        ensures
            final(self).wf(),
            final(self)@ == after_reset(old(self)@),
    {
        self.frame_count = 0;
        self.output_buffer.clear();
    }

    /// The sample rate in Hz.
    pub fn sample_rate(&self) -> (r: u32)
        ensures
            r == self@.sample_rate,
    {
        self.sample_rate
    }

    /// The number of channels.
    pub fn channels(&self) -> (r: u32)
        ensures
            r == self@.channels,
    {
        self.channels
    }

    /// The bits of a sample.
    pub fn bits_per_sample(&self) -> (r: u32)
        ensures
            r == self@.bits_per_sample,
    {
        self.bits_per_sample
    }
}

impl Default for AudioEncoder {
    fn default() -> (r: Self)
        ensures
            r.wf(),
            r@ == fresh_encoder(44100, 2, 16),
    {
        Self::new()
    }
}

/// The signed 16-bit sample of a low and a high byte.
pub open spec fn word(low: u8, high: u8) -> int {
    let n = low + 256 * high;
    if n < 0x8000 {
        n
    } else {
        n - 0x1_0000
    }
}

/// Sample number `i` of 16-bit little-endian PCM.
pub open spec fn sample_at(pcm: Seq<u8>, i: int) -> int {
    word(pcm[2 * i], pcm[2 * i + 1])
}

/// The samples of each channel in `len` bytes of 16-bit PCM.
pub open spec fn channel_samples(len: int, channels: int) -> int {
    len / (2 * channels)
}

/// The samples of each channel that `n` samples become.
pub open spec fn resampled_samples(n: int, input_rate: int, output_rate: int) -> int {
    (n * output_rate) / input_rate
}

/// The point `r / d` of the way on the straight line from `a` to `b`, rounded to the nearest
/// integer; halves are rounded up.
pub open spec fn on_line(a: int, b: int, r: int, d: int) -> int {
    (a * (d - r) + b * r + d / 2) / d
}

/// Sample `i` of channel `c` after conversion. It falls at `i * input_rate / output_rate` among
/// the input's samples, and is the value of the straight line between the two neighbours there.
/// After the last sample the line stays level.
pub open spec fn resampled_at(
    pcm: Seq<u8>,
    input_rate: int,
    output_rate: int,
    channels: int,
    i: int,
    c: int,
) -> int {
    let k = (i * input_rate) / output_rate;
    let r = (i * input_rate) % output_rate;
    let a = sample_at(pcm, k * channels + c);
    let b = if k + 1 < channel_samples(pcm.len() as int, channels) {
        sample_at(pcm, (k + 1) * channels + c)
    } else {
        a
    };
    on_line(a, b, r, output_rate)
}

/// 16-bit little-endian PCM of interleaved channels, converted from one sample rate to another.
pub open spec fn resampled(
    pcm: Seq<u8>,
    input_rate: int,
    output_rate: int,
    channels: int,
) -> Seq<u8> {
    let n = channel_samples(pcm.len() as int, channels);
    if input_rate == output_rate {
        pcm
    } else if n == 0 {
        Seq::empty()
    } else {
        Seq::new(
            (resampled_samples(n, input_rate, output_rate) * channels * 2) as nat,
            |j: int|
                {
                    let v = resampled_at(
                        pcm,
                        input_rate,
                        output_rate,
                        channels,
                        (j / 2) / channels,
                        (j / 2) % channels,
                    );
                    if j % 2 == 0 {
                        (v % 256) as u8
                    } else {
                        ((v / 256) % 256) as u8
                    }
                },
        )
    }
}

/// What a conversion can be asked: data of some channels, a rate to come from, and sizes that the
/// machine can count.
pub open spec fn can_resample(len: int, input_rate: int, output_rate: int, channels: int) -> bool {
    let n = channel_samples(len, channels);
    input_rate == output_rate || {
        &&& channels > 0
        &&& 2 * channels <= usize::MAX
        &&& n > 0 ==> {
            &&& input_rate > 0
            &&& n * output_rate <= u64::MAX
            &&& resampled_samples(n, input_rate, output_rate) * channels * 2 <= usize::MAX
        }
    }
}

/// A point of the line lies between its ends.
proof fn lemma_on_line_between(a: int, b: int, r: int, d: int)
    requires
        0 <= r <= d,
        d > 0,
    ensures
        a <= b ==> a <= on_line(a, b, r, d) <= b,
        b <= a ==> b <= on_line(a, b, r, d) <= a,
{
    let x = a * (d - r) + b * r;
    let y = x + d / 2;
    assert(a <= b ==> a * d <= x <= b * d) by (nonlinear_arith)
        requires
            0 <= r <= d,
            x == a * (d - r) + b * r,
    ;
    assert(b <= a ==> b * d <= x <= a * d) by (nonlinear_arith)
        requires
            0 <= r <= d,
            x == a * (d - r) + b * r,
    ;
    let lo = if a <= b {
        a
    } else {
        b
    };
    let hi = if a <= b {
        b
    } else {
        a
    };
    let q = y / d;
    lemma_fundamental_div_mod(y, d);
    assert(lo <= q <= hi) by (nonlinear_arith)
        requires
            d > 0,
            x <= y < x + d,
            y == d * q + y % d,
            0 <= y % d < d,
            lo * d <= x <= hi * d,
    ;
}

/// The line of two values that are both raised by `m` is raised by `m`.
proof fn lemma_on_line_shift(a: int, b: int, r: int, d: int, m: int)
    requires
        d > 0,
    ensures
        on_line(a + m, b + m, r, d) == on_line(a, b, r, d) + m,
{
    let y = a * (d - r) + b * r + d / 2;
    let z = (a + m) * (d - r) + (b + m) * r + d / 2;
    let h = d / 2;
    assert(z == d * m + y) by (nonlinear_arith)
        requires
            y == a * (d - r) + b * r + h,
            z == (a + m) * (d - r) + (b + m) * r + h,
    ;
    lemma_hoist_over_denominator(y, m, d as nat);
    lemma_mul_is_commutative(m, d);
}

/// The place of sample `i` of the output, among `n` samples of the input, is below `n`.
proof fn lemma_place(n: int, input_rate: int, output_rate: int, i: int)
    requires
        n >= 0,
        input_rate > 0,
        output_rate >= 0,
        0 <= i < resampled_samples(n, input_rate, output_rate),
    ensures
        output_rate > 0,
        0 <= i * input_rate < n * output_rate,
        0 <= (i * input_rate) / output_rate < n,
        0 <= (i * input_rate) % output_rate < output_rate,
{
    let m = resampled_samples(n, input_rate, output_rate);
    lemma_fundamental_div_mod(n * output_rate, input_rate);
    assert(m * input_rate <= n * output_rate) by (nonlinear_arith)
        requires
            n * output_rate == input_rate * m + (n * output_rate) % input_rate,
            0 <= (n * output_rate) % input_rate,
    ;
    assert(0 <= i * input_rate < n * output_rate) by (nonlinear_arith)
        requires
            0 <= i < m,
            input_rate > 0,
            m * input_rate <= n * output_rate,
    ;
    assert(output_rate > 0) by (nonlinear_arith)
        requires
            0 < n * output_rate,
            output_rate >= 0,
    ;
    let x = i * input_rate;
    let k = x / output_rate;
    lemma_fundamental_div_mod(x, output_rate);
    assert(0 <= k < n) by (nonlinear_arith)
        requires
            output_rate > 0,
            x == output_rate * k + x % output_rate,
            0 <= x % output_rate < output_rate,
            0 <= x < n * output_rate,
    ;
}

/// Sample number `k` of channel `c` lies within the data.
proof fn lemma_sample_inside(len: int, channels: int, k: int, c: int)
    requires
        channels > 0,
        len >= 0,
        0 <= k < channel_samples(len, channels),
        0 <= c < channels,
    ensures
        0 <= k * channels + c,
        2 * (k * channels + c) + 1 < len,
        0 <= k * channels <= len,
{
    let n = channel_samples(len, channels);
    lemma_fundamental_div_mod(len, 2 * channels);
    assert(0 <= k * channels) by (nonlinear_arith)
        requires
            0 <= k,
            0 < channels,
    ;
    assert(2 * (k * channels + c) + 1 < len) by (nonlinear_arith)
        requires
            0 <= k < n,
            0 <= c < channels,
            len == (2 * channels) * n + len % (2 * channels),
            0 <= len % (2 * channels),
    ;
}

/// The sample of a low and a high byte, raised to count from 0.
fn raised(low: u8, high: u8) -> (r: u64)
    ensures
        r == word(low, high) + 0x8000,
        r < 0x1_0000,
{
    let n: u64 = low as u64 + 256 * high as u64;
    if n < 0x8000 {
        n + 0x8000
    } else {
        n - 0x8000
    }
}

/// The straight line between two raised values.
fn point_on_line(a: u64, b: u64, r: u64, d: u64) -> (v: u64)
    requires
        a < 0x1_0000,
        b < 0x1_0000,
        r < d <= 0xffff_ffff,
    ensures
        v == on_line(a as int, b as int, r as int, d as int),
        v < 0x1_0000,
{
    let ghost x = a * (d - r) + b * r;
    assert(0 <= a * (d - r) <= 0xffff * d && 0 <= b * r <= 0xffff * d) by (nonlinear_arith)
        requires
            0 <= a <= 0xffff,
            0 <= b <= 0xffff,
            0 <= r < d,
    ;
    proof {
        lemma_on_line_between(a as int, b as int, r as int, d as int);
    }
    (a * (d - r) + b * r + d / 2) / d
}

/// Converts 16-bit little-endian PCM from one sample rate to another, by linear interpolation.
pub fn resample_pcm(input: &[u8], input_rate: u32, output_rate: u32, channels: u32) -> (r: Vec<u8>)
    requires
        can_resample(
            input@.len() as int,
            input_rate as int,
            output_rate as int,
            channels as int,
        ),
    ensures
        r@ == resampled(input@, input_rate as int, output_rate as int, channels as int),
{
    if input_rate == output_rate {
        return slice_to_vec(input);
    }
    let width: usize = channels as usize;
    let input_samples: usize = input.len() / (2 * width);
    if input_samples == 0 {
        return Vec::new();
    }
    let output_samples: u64 = (input_samples as u64 * output_rate as u64) / input_rate as u64;
    let ghost whole = resampled(input@, input_rate as int, output_rate as int, channels as int);
    let mut output: Vec<u8> = Vec::new();
    let mut i: u64 = 0;
    assert(whole.take(0) == Seq::<u8>::empty());
    assert(0 * channels * 2 == 0);
    while i < output_samples
        invariant
            i <= output_samples,
            input_rate > 0,
            input_rate != output_rate,
            width == channels,
            channels > 0,
            2 * channels <= usize::MAX,
            input_samples == channel_samples(input@.len() as int, channels as int),
            input_samples > 0,
            input_samples * output_rate <= u64::MAX,
            output_samples == resampled_samples(
                input_samples as int,
                input_rate as int,
                output_rate as int,
            ),
            whole == resampled(input@, input_rate as int, output_rate as int, channels as int),
            output@ == whole.take(i * channels * 2),
        decreases output_samples - i,
    {
        proof {
            lemma_place(input_samples as int, input_rate as int, output_rate as int, i as int);
        }
        let place: u64 = i * input_rate as u64;
        let k: u64 = place / output_rate as u64;
        let r: u64 = place % output_rate as u64;
        let mut c: usize = 0;
        assert(i * channels * 2 + 0 * 2 == i * channels * 2);
        while c < width
            invariant
                i < output_samples,
                input_rate > 0,
                input_rate != output_rate,
                width == channels,
                channels > 0,
                2 * channels <= usize::MAX,
                input_samples == channel_samples(input@.len() as int, channels as int),
                input_samples > 0,
                output_samples == resampled_samples(
                    input_samples as int,
                    input_rate as int,
                    output_rate as int,
                ),
                whole == resampled(input@, input_rate as int, output_rate as int, channels as int),
                k == (i * input_rate) / output_rate as int,
                r == (i * input_rate) % output_rate as int,
                k < input_samples,
                r < output_rate,
                c <= width,
                output@ == whole.take(i * channels * 2 + 2 * c),
            decreases width - c,
        {
            proof {
                lemma_sample_inside(input@.len() as int, channels as int, k as int, c as int);
            }
            let left: usize = k as usize;
            assert(left * width == k * channels);
            assert(input.len() == input@.len());
            let at: usize = 2 * (left * width + c);
            let a: u64 = raised(input[at], input[at + 1]);
            let b: u64 = if k + 1 < input_samples as u64 {
                proof {
                    lemma_sample_inside(input@.len() as int, channels as int, k + 1, c as int);
                    assert((k + 1) * channels == k * channels + channels) by (nonlinear_arith);
                }
                raised(input[at + 2 * width], input[at + 2 * width + 1])
            } else {
                a
            };
            let v: u64 = point_on_line(a, b, r, output_rate as u64);
            let ghost exact = resampled_at(
                input@,
                input_rate as int,
                output_rate as int,
                channels as int,
                i as int,
                c as int,
            );
            proof {
                lemma_on_line_shift(a - 0x8000, b - 0x8000, r as int, output_rate as int, 0x8000);
                assert(v == exact + 0x8000);
            }
            let n: u64 = if v < 0x8000 {
                v + 0x8000
            } else {
                v - 0x8000
            };
            let low: u8 = (n % 256) as u8;
            let high: u8 = (n / 256) as u8;
            let ghost j = i * channels * 2 + 2 * c;
            proof {
                lemma_output_place(
                    i as int,
                    c as int,
                    channels as int,
                    output_samples as int,
                );
                assert(n == exact || n == exact + 0x1_0000);
                assert(exact % 256 == n % 256);
                assert((exact / 256) % 256 == n / 256);
                assert(whole[j] == low);
                assert(whole[j + 1] == high);
            }
            output.push(low);
            output.push(high);
            assert(whole.take(j + 2) == whole.take(j).push(low).push(high));
            c = c + 1;
        }
        assert((i + 1) * channels * 2 == i * channels * 2 + 2 * channels) by (nonlinear_arith);
        i = i + 1;
    }
    assert(whole.take(output_samples * channels * 2) == whole);
    output
}

/// Where sample `i` of channel `c` stands in the output.
proof fn lemma_output_place(i: int, c: int, channels: int, samples: int)
    requires
        0 <= i < samples,
        0 <= c < channels,
    ensures
        ({
            let j = i * channels * 2 + 2 * c;
            &&& 0 <= j
            &&& j + 1 < samples * channels * 2
            &&& (j / 2) / channels == i
            &&& (j / 2) % channels == c
            &&& ((j + 1) / 2) / channels == i
            &&& ((j + 1) / 2) % channels == c
            &&& j % 2 == 0
            &&& (j + 1) % 2 == 1
        }),
{
    let s = i * channels + c;
    let j = i * channels * 2 + 2 * c;
    assert(j == 2 * s) by (nonlinear_arith)
        requires
            s == i * channels + c,
            j == i * channels * 2 + 2 * c,
    ;
    lemma_fundamental_div_mod_converse(s, channels, i, c);
    assert(0 <= s && s + 1 <= samples * channels) by (nonlinear_arith)
        requires
            s == i * channels + c,
            0 <= i < samples,
            0 <= c < channels,
    ;
    assert(samples * channels * 2 == 2 * (samples * channels)) by (nonlinear_arith);
}

/// Converts audio to the sample rate of AirPlay, as `resample_pcm` does.
pub fn ensure_44100(input: &[u8], input_rate: u32, channels: u32) -> (r: Vec<u8>)
    requires
        can_resample(
            input@.len() as int,
            input_rate as int,
            AIRPLAY_SAMPLE_RATE as int,
            channels as int,
        ),
    ensures
        r@ == resampled(input@, input_rate as int, 44100, channels as int),
{
    resample_pcm(input, input_rate, AIRPLAY_SAMPLE_RATE, channels)
}

/// The two bytes of a 16-bit value give it back.
proof fn lemma_word_of_bytes(v: int)
    requires
        -0x8000 <= v < 0x8000,
    ensures
        word((v % 256) as u8, ((v / 256) % 256) as u8) == v,
{
}

/// A sample is a 16-bit value.
proof fn lemma_sample_range(pcm: Seq<u8>, i: int)
    ensures
        -0x8000 <= sample_at(pcm, i) < 0x8000,
{
}

/// Conversion to the rate that the audio already has leaves it as it is.
pub proof fn law_same_rate_unchanged(pcm: Seq<u8>, rate: int, channels: int)
    ensures
        resampled(pcm, rate, rate, channels) == pcm,
{
}

/// The samples of converted audio: as many as the rates' ratio says, for every channel, each the
/// value of the line at its place.
pub proof fn law_resampled_samples(
    pcm: Seq<u8>,
    input_rate: int,
    output_rate: int,
    channels: int,
    i: int,
    c: int,
)
    requires
        input_rate != output_rate,
        input_rate > 0,
        output_rate >= 0,
        channels > 0,
        0 <= i < resampled_samples(
            channel_samples(pcm.len() as int, channels),
            input_rate,
            output_rate,
        ),
        0 <= c < channels,
    ensures
        channel_samples(
            resampled(pcm, input_rate, output_rate, channels).len() as int,
            channels,
        ) == resampled_samples(
            channel_samples(pcm.len() as int, channels),
            input_rate,
            output_rate,
        ),
        sample_at(resampled(pcm, input_rate, output_rate, channels), i * channels + c)
            == resampled_at(pcm, input_rate, output_rate, channels, i, c),
{
    let n = channel_samples(pcm.len() as int, channels);
    let m = resampled_samples(n, input_rate, output_rate);
    lemma_div_pos_is_pos(pcm.len() as int, 2 * channels);
    lemma_place(n, input_rate, output_rate, i);
    lemma_output_place(i, c, channels, m);
    law_resampled_between(pcm, input_rate, output_rate, channels, i, c);
    let k = (i * input_rate) / output_rate;
    lemma_sample_range(pcm, k * channels + c);
    lemma_sample_range(pcm, (k + 1) * channels + c);
    let v = resampled_at(pcm, input_rate, output_rate, channels, i, c);
    lemma_word_of_bytes(v);
    let out = resampled(pcm, input_rate, output_rate, channels);
    let j = i * channels * 2 + 2 * c;
    assert(j == 2 * (i * channels + c)) by (nonlinear_arith)
        requires
            j == i * channels * 2 + 2 * c,
    ;
    assert(out[j] == (v % 256) as u8);
    assert(out[j + 1] == ((v / 256) % 256) as u8);
    assert(m * channels * 2 == (2 * channels) * m + 0) by (nonlinear_arith);
    lemma_fundamental_div_mod_converse(m * channels * 2, 2 * channels, m, 0);
}

/// A converted sample lies between the two samples of the input that its place lies between, so a
/// level signal stays level and nothing is made louder.
pub proof fn law_resampled_between(
    pcm: Seq<u8>,
    input_rate: int,
    output_rate: int,
    channels: int,
    i: int,
    c: int,
)
    requires
        input_rate > 0,
        output_rate >= 0,
        channels > 0,
        0 <= i < resampled_samples(
            channel_samples(pcm.len() as int, channels),
            input_rate,
            output_rate,
        ),
        0 <= c < channels,
    ensures
        ({
            let n = channel_samples(pcm.len() as int, channels);
            let k = (i * input_rate) / output_rate;
            let a = sample_at(pcm, k * channels + c);
            let b = if k + 1 < n {
                sample_at(pcm, (k + 1) * channels + c)
            } else {
                a
            };
            let v = resampled_at(pcm, input_rate, output_rate, channels, i, c);
            &&& 0 <= k < n
            &&& a <= v <= b || b <= v <= a
        }),
{
    let n = channel_samples(pcm.len() as int, channels);
    lemma_div_pos_is_pos(pcm.len() as int, 2 * channels);
    lemma_place(n, input_rate, output_rate, i);
    let k = (i * input_rate) / output_rate;
    let r = (i * input_rate) % output_rate;
    let a = sample_at(pcm, k * channels + c);
    let b = if k + 1 < n {
        sample_at(pcm, (k + 1) * channels + c)
    } else {
        a
    };
    lemma_on_line_between(a, b, r, output_rate);
}

/// A sample of the output that falls on a sample of the input is that sample.
pub proof fn law_resampled_on_sample(
    pcm: Seq<u8>,
    input_rate: int,
    output_rate: int,
    channels: int,
    i: int,
    c: int,
)
    requires
        output_rate > 0,
        (i * input_rate) % output_rate == 0,
    ensures
        resampled_at(pcm, input_rate, output_rate, channels, i, c) == sample_at(
            pcm,
            ((i * input_rate) / output_rate) * channels + c,
        ),
{
    let k = (i * input_rate) / output_rate;
    let a = sample_at(pcm, k * channels + c);
    let b = if k + 1 < channel_samples(pcm.len() as int, channels) {
        sample_at(pcm, (k + 1) * channels + c)
    } else {
        a
    };
    let d = output_rate;
    assert(a * (d - 0) + b * 0 + d / 2 == d * a + d / 2) by (nonlinear_arith);
    lemma_div_multiples_vanish_fancy(a, d / 2, d);
}

/// Conversion to a whole multiple of the rate gives so many times the bytes, and the way back gives
/// back the samples.
pub proof fn law_resampled_up_and_back(pcm: Seq<u8>, rate: int, times: int, channels: int)
    requires
        rate > 0,
        times > 1,
        channels > 0,
        pcm.len() % (2 * channels) as nat == 0,
    ensures
        resampled(pcm, rate, times * rate, channels).len() == times * pcm.len(),
        resampled(resampled(pcm, rate, times * rate, channels), times * rate, rate, channels)
            == pcm,
{
    let fast = times * rate;
    assert(fast > rate) by (nonlinear_arith)
        requires
            rate > 0,
            times > 1,
            fast == times * rate,
    ;
    let len = pcm.len() as int;
    let n = channel_samples(len, channels);
    lemma_div_pos_is_pos(len, 2 * channels);
    lemma_fundamental_div_mod(len, 2 * channels);
    let up = resampled(pcm, rate, fast, channels);
    let m = resampled_samples(n, rate, fast);
    assert(n * fast == (n * times) * rate + 0) by (nonlinear_arith)
        requires
            fast == times * rate,
    ;
    lemma_fundamental_div_mod_converse(n * fast, rate, n * times, 0);
    assert(m == n * times);
    assert(m >= n) by (nonlinear_arith)
        requires
            m == n * times,
            n >= 0,
            times > 1,
    ;
    assert(m * channels * 2 == (2 * channels) * m + 0) by (nonlinear_arith);
    assert(m * channels * 2 >= 0) by (nonlinear_arith)
        requires
            m >= 0,
            channels > 0,
    ;
    lemma_fundamental_div_mod_converse(m * channels * 2, 2 * channels, m, 0);
    assert(m * channels * 2 == times * len) by (nonlinear_arith)
        requires
            m == n * times,
            len == 2 * channels * n,
    ;
    if n == 0 {
        assert(2 * channels * n == 0) by (nonlinear_arith)
            requires
                n == 0,
        ;
        assert(up == Seq::<u8>::empty());
        assert(pcm == Seq::<u8>::empty());
        assert(times * len == 0) by (nonlinear_arith)
            requires
                len == 0,
        ;
        assert(0int / (2 * channels) == 0) by {
            lemma_div_basics(2 * channels);
        }
    } else {
        assert(up.len() == times * len);
        assert(channel_samples(up.len() as int, channels) == m);
        let down = resampled(up, fast, rate, channels);
        assert(m * rate == fast * n + 0) by (nonlinear_arith)
            requires
                m == n * times,
                fast == times * rate,
        ;
        lemma_fundamental_div_mod_converse(m * rate, fast, n, 0);
        assert(resampled_samples(m, fast, rate) == n);
        assert(n * channels * 2 == 2 * channels * n) by (nonlinear_arith);
        assert(down.len() == len);
        assert forall|j: int| 0 <= j < len implies down[j] == pcm[j] by {
            let s = j / 2;
            let i = s / channels;
            let c = s % channels;
            lemma_fundamental_div_mod(s, channels);
            lemma_div_pos_is_pos(s, channels);
            assert(s == i * channels + c) by (nonlinear_arith)
                requires
                    s == channels * i + c,
            ;
            assert(i < n) by (nonlinear_arith)
                requires
                    2 * s < len,
                    len == 2 * channels * n,
                    s == i * channels + c,
                    0 <= c,
                    channels > 0,
            ;
            // Sample `i` of the way back falls on sample `times * i` of the way there.
            assert(i * fast == rate * (times * i) + 0) by (nonlinear_arith)
                requires
                    fast == times * rate,
            ;
            lemma_fundamental_div_mod_converse(i * fast, rate, times * i, 0);
            law_resampled_on_sample(up, fast, rate, channels, i, c);
            assert(0 <= times * i < m) by (nonlinear_arith)
                requires
                    0 <= i < n,
                    times > 1,
                    m == n * times,
            ;
            law_resampled_samples(pcm, rate, fast, channels, times * i, c);
            // And that sample falls on sample `i` of the input.
            assert((times * i) * rate == fast * i + 0) by (nonlinear_arith)
                requires
                    fast == times * rate,
            ;
            lemma_fundamental_div_mod_converse((times * i) * rate, fast, i, 0);
            law_resampled_on_sample(pcm, rate, fast, channels, times * i, c);
            let v = resampled_at(up, fast, rate, channels, i, c);
            assert(v == sample_at(pcm, s));
            lemma_bytes_of_word(pcm[2 * s], pcm[2 * s + 1]);
        }
        assert(down == pcm);
    }
}

/// The bytes of a part of a sample of all channels, at the end of the data, do not count.
pub proof fn law_partial_sample_ignored(
    pcm: Seq<u8>,
    input_rate: int,
    output_rate: int,
    channels: int,
)
    requires
        input_rate != output_rate,
        input_rate > 0,
        output_rate >= 0,
        channels > 0,
    ensures
        resampled(pcm, input_rate, output_rate, channels) == resampled(
            pcm.take(pcm.len() - pcm.len() as int % (2 * channels)),
            input_rate,
            output_rate,
            channels,
        ),
{
    let len = pcm.len() as int;
    let n = channel_samples(len, channels);
    let w = len - len % (2 * channels);
    lemma_fundamental_div_mod(len, 2 * channels);
    lemma_div_pos_is_pos(len, 2 * channels);
    assert(w == n * (2 * channels) + 0) by (nonlinear_arith)
        requires
            w == (2 * channels) * n,
    ;
    assert(w >= 0) by (nonlinear_arith)
        requires
            w == n * (2 * channels) + 0,
            n >= 0,
            channels > 0,
    ;
    lemma_fundamental_div_mod_converse(w, 2 * channels, n, 0);
    let whole = pcm.take(w);
    let m = resampled_samples(n, input_rate, output_rate);
    let a = resampled(pcm, input_rate, output_rate, channels);
    let b = resampled(whole, input_rate, output_rate, channels);
    assert(a.len() == b.len());
    assert forall|j: int| 0 <= j < a.len() implies a[j] == b[j] by {
        let i = (j / 2) / channels;
        let c = (j / 2) % channels;
        lemma_place_of_output(j, channels, m);
        lemma_place(n, input_rate, output_rate, i);
        let k = (i * input_rate) / output_rate;
        lemma_sample_inside(w, channels, k, c);
        assert(sample_at(whole, k * channels + c) == sample_at(pcm, k * channels + c));
        if k + 1 < n {
            lemma_sample_inside(w, channels, k + 1, c);
            assert(sample_at(whole, (k + 1) * channels + c) == sample_at(
                pcm,
                (k + 1) * channels + c,
            ));
        }
    }
    assert(a == b);
}

/// Which sample of which channel a byte of the output belongs to.
proof fn lemma_place_of_output(j: int, channels: int, samples: int)
    requires
        channels > 0,
        0 <= j < samples * channels * 2,
    ensures
        0 <= (j / 2) / channels < samples,
        0 <= (j / 2) % channels < channels,
{
    let s = j / 2;
    lemma_fundamental_div_mod(s, channels);
    lemma_div_pos_is_pos(s, channels);
    let i = s / channels;
    assert(i < samples) by (nonlinear_arith)
        requires
            s == channels * i + s % channels,
            0 <= s % channels,
            2 * s <= j,
            j < samples * channels * 2,
            channels > 0,
    ;
}

/// One channel of interleaved 16-bit PCM, as PCM of its own.
pub open spec fn channel_of(pcm: Seq<u8>, channels: int, c: int) -> Seq<u8> {
    Seq::new(
        (2 * channel_samples(pcm.len() as int, channels)) as nat,
        |j: int| pcm[2 * ((j / 2) * channels + c) + j % 2],
    )
}

/// Each channel is converted as if it stood alone.
pub proof fn law_channels_apart(
    pcm: Seq<u8>,
    input_rate: int,
    output_rate: int,
    channels: int,
    c: int,
)
    requires
        input_rate > 0,
        output_rate >= 0,
        channels > 0,
        0 <= c < channels,
    ensures
        channel_of(resampled(pcm, input_rate, output_rate, channels), channels, c) == resampled(
            channel_of(pcm, channels, c),
            input_rate,
            output_rate,
            1,
        ),
{
    let len = pcm.len() as int;
    let n = channel_samples(len, channels);
    lemma_div_pos_is_pos(len, 2 * channels);
    if input_rate != output_rate {
        let alone = channel_of(pcm, channels, c);
        let all = resampled(pcm, input_rate, output_rate, channels);
        let m = resampled_samples(n, input_rate, output_rate);
        let a = channel_of(all, channels, c);
        let b = resampled(alone, input_rate, output_rate, 1);
        if n == 0 {
            lemma_div_basics(2 * channels);
            assert(a == b);
        } else {
            assert(n * output_rate >= 0) by (nonlinear_arith)
                requires
                    n >= 0,
                    output_rate >= 0,
            ;
            lemma_div_pos_is_pos(n * output_rate, input_rate);
            assert(m * channels * 2 == m * (2 * channels) + 0) by (nonlinear_arith);
            assert(m * channels * 2 >= 0) by (nonlinear_arith)
                requires
                    m >= 0,
                    channels > 0,
            ;
            lemma_fundamental_div_mod_converse(m * channels * 2, 2 * channels, m, 0);
            assert(a.len() == 2 * m);
            assert(b.len() == 2 * m);
            assert forall|j: int| 0 <= j < 2 * m implies a[j] == b[j] by {
                let i = j / 2;
                lemma_output_place(i, c, channels, m);
                let at = i * channels * 2 + 2 * c;
                assert(at == 2 * (i * channels + c)) by (nonlinear_arith)
                    requires
                        at == i * channels * 2 + 2 * c,
                ;
                assert(a[j] == all[at + j % 2]);
                lemma_place(n, input_rate, output_rate, i);
                let k = (i * input_rate) / output_rate;
                lemma_sample_alone(pcm, channels, c, k);
                if k + 1 < n {
                    lemma_sample_alone(pcm, channels, c, k + 1);
                }
                assert(resampled_at(pcm, input_rate, output_rate, channels, i, c)
                    == resampled_at(alone, input_rate, output_rate, 1, i, 0));
                assert(i / 1 == i && i % 1 == 0);
            }
            assert(a == b);
        }
    }
}

/// A sample of a channel by itself is that of the channel among the others.
proof fn lemma_sample_alone(pcm: Seq<u8>, channels: int, c: int, k: int)
    requires
        channels > 0,
        0 <= c < channels,
        0 <= k < channel_samples(pcm.len() as int, channels),
    ensures
        sample_at(channel_of(pcm, channels, c), k * 1 + 0) == sample_at(pcm, k * channels + c),
{
    let alone = channel_of(pcm, channels, c);
    assert((2 * k) / 2 == k && (2 * k) % 2 == 0);
    assert((2 * k + 1) / 2 == k && (2 * k + 1) % 2 == 1);
    assert(alone[2 * k] == pcm[2 * (k * channels + c)]);
    assert(alone[2 * k + 1] == pcm[2 * (k * channels + c) + 1]);
}

/// A 16-bit value gives back its two bytes.
proof fn lemma_bytes_of_word(low: u8, high: u8)
    ensures
        (word(low, high) % 256) as u8 == low,
        ((word(low, high) / 256) % 256) as u8 == high,
{
}

/// The samples of an uncompressed frame, exchanged again, are the PCM that it was made of; the
/// frame is the header longer.
pub proof fn law_raw_frame_reads_back(frame: Seq<u8>)
    requires
        frame.len() % 2 == 0,
    ensures
        raw_frame(frame).len() == frame.len() + 7,
        swap_pairs(raw_frame(frame).skip(7)) == frame,
{
    assert(raw_frame(frame).skip(7) == swap_pairs(frame));
    assert(swap_pairs(swap_pairs(frame)) == frame);
}

/// An encoder is what it was configured to be, and begins at timestamp 0.
pub proof fn law_fresh_encoder(sample_rate: u32, channels: u32, bits_per_sample: u32)
    ensures
        ({
            let e = fresh_encoder(sample_rate, channels, bits_per_sample);
            &&& e.sample_rate == sample_rate
            &&& e.channels == channels
            &&& configured_frame_size(e) == 352 * channels * (bits_per_sample / 8)
            &&& frame_timestamp(e.frame_count as int) == 0
        }),
{
}

/// Timestamps start at 0, and each frame moves them on by its samples, in 32 bits.
pub proof fn law_timestamps_advance(count: int)
    requires
        count >= 0,
    ensures
        frame_timestamp(0) == 0,
        frame_timestamp(count + 1) == (frame_timestamp(count) + 352) % 0x1_0000_0000,
{
    let x = count * SAMPLES_PER_FRAME;
    assert((count + 1) * SAMPLES_PER_FRAME == x + 352);
    lemma_add_mod_noop(x, 352, 0x1_0000_0000);
    lemma_small_mod(352, 0x1_0000_0000);
}

/// A sample of little-endian PCM is a signed 16-bit number: its two bytes, the low one first, tell
/// it up to a multiple of 65536.
pub proof fn law_sample_is_signed_word(pcm: Seq<u8>, i: int)
    requires
        0 <= i,
        2 * i + 1 < pcm.len(),
    ensures
        -32768 <= sample_at(pcm, i) <= 32767,
        (sample_at(pcm, i) - (pcm[2 * i] + 256 * pcm[2 * i + 1])) % 65536 == 0,
{
}

/// Converted audio lasts as long as the audio it was made of, to within one sample. Of `n` samples
/// in each channel it has the most that do not last longer.
pub proof fn law_resampled_lasts_as_long(
    pcm: Seq<u8>,
    input_rate: int,
    output_rate: int,
    channels: int,
    n: int,
)
    requires
        input_rate != output_rate,
        input_rate > 0,
        output_rate >= 0,
        channels > 0,
        2 * channels * n <= pcm.len() < 2 * channels * (n + 1),
    ensures
        ({
            let out = resampled(pcm, input_rate, output_rate, channels);
            let m = out.len() as int / (2 * channels);
            &&& out.len() == 2 * channels * m
            &&& m * input_rate <= n * output_rate < (m + 1) * input_rate
        }),
{
    let len = pcm.len() as int;
    let width = 2 * channels;
    let left = len - width * n;
    assert(n * width == width * n) by (nonlinear_arith);
    assert(width * (n + 1) == width * n + width) by (nonlinear_arith);
    lemma_fundamental_div_mod_converse(len, width, n, left);
    assert(channel_samples(len, channels) == n);
    lemma_div_pos_is_pos(len, width);
    let x = n * output_rate;
    assert(x >= 0) by (nonlinear_arith)
        requires
            x == n * output_rate,
            n >= 0,
            output_rate >= 0,
    ;
    let m = x / input_rate;
    lemma_fundamental_div_mod(x, input_rate);
    lemma_div_pos_is_pos(x, input_rate);
    assert(m * input_rate <= x < (m + 1) * input_rate) by (nonlinear_arith)
        requires
            x == input_rate * m + x % input_rate,
            0 <= x % input_rate < input_rate,
    ;
    let out = resampled(pcm, input_rate, output_rate, channels);
    if n == 0 {
        assert(x == 0) by (nonlinear_arith)
            requires
                x == n * output_rate,
                n == 0,
        ;
        lemma_div_basics(input_rate);
        lemma_div_basics(width);
        assert(out.len() == 0);
        assert(m == 0);
        assert(width * m == 0) by (nonlinear_arith)
            requires
                m == 0,
        ;
    } else {
        assert(m * channels * 2 == m * width + 0) by (nonlinear_arith)
            requires
                width == 2 * channels,
        ;
        assert(m * width >= 0) by (nonlinear_arith)
            requires
                m >= 0,
                width > 0,
        ;
        lemma_fundamental_div_mod_converse(m * width, width, m, 0);
        assert(width * m == m * width) by (nonlinear_arith);
    }
}

/// A converted sample is the nearest whole number to the straight line between the two samples of
/// its channel that its time lies between; a half is rounded up. Its time, sample `i` at the new
/// rate, is `k` whole samples at the old rate and `r` parts in `output_rate` of the next. After the
/// last sample the line is level.
pub proof fn law_resampled_is_nearest_to_line(
    pcm: Seq<u8>,
    input_rate: int,
    output_rate: int,
    channels: int,
    i: int,
    c: int,
    k: int,
    r: int,
)
    requires
        input_rate != output_rate,
        input_rate > 0,
        output_rate > 0,
        channels > 0,
        0 <= i,
        0 <= c < channels,
        2 * channels * (i + 1) <= resampled(pcm, input_rate, output_rate, channels).len(),
        i * input_rate == k * output_rate + r,
        0 <= r < output_rate,
    ensures
        ({
            let y = sample_at(
                resampled(pcm, input_rate, output_rate, channels),
                i * channels + c,
            );
            let a = sample_at(pcm, k * channels + c);
            let b = if 2 * channels * (k + 2) <= pcm.len() {
                sample_at(pcm, (k + 1) * channels + c)
            } else {
                a
            };
            &&& 0 <= k
            &&& 2 * channels * (k + 1) <= pcm.len()
            &&& -output_rate < 2 * (output_rate * y - (a * (output_rate - r) + b * r))
                <= output_rate
        }),
{
    let len = pcm.len() as int;
    let width = 2 * channels;
    let n = channel_samples(len, channels);
    let m = resampled_samples(n, input_rate, output_rate);
    lemma_div_pos_is_pos(len, width);
    lemma_fundamental_div_mod(len, width);
    assert(width * (i + 1) > 0) by (nonlinear_arith)
        requires
            width > 0,
            i >= 0,
    ;
    assert(n > 0);
    assert(i < m) by (nonlinear_arith)
        requires
            width * (i + 1) <= m * channels * 2,
            width == 2 * channels,
            channels > 0,
    ;
    lemma_fundamental_div_mod_converse(i * input_rate, output_rate, k, r);
    lemma_place(n, input_rate, output_rate, i);
    law_resampled_samples(pcm, input_rate, output_rate, channels, i, c);
    assert(width * (k + 1) <= len) by (nonlinear_arith)
        requires
            k < n,
            width > 0,
            len == width * n + len % width,
            0 <= len % width,
    ;
    assert(k + 1 < n <==> width * (k + 2) <= len) by (nonlinear_arith)
        requires
            width > 0,
            len == width * n + len % width,
            0 <= len % width < width,
    ;
    let a = sample_at(pcm, k * channels + c);
    let b = if k + 1 < n {
        sample_at(pcm, (k + 1) * channels + c)
    } else {
        a
    };
    let x = a * (output_rate - r) + b * r;
    let z = x + output_rate / 2;
    let y = z / output_rate;
    lemma_fundamental_div_mod(z, output_rate);
    assert(y == resampled_at(pcm, input_rate, output_rate, channels, i, c));
}

/// An uncompressed frame is the escape code, six zero bytes, and the two bytes of each sample in
/// turn, the high one first.
pub proof fn law_raw_frame_is_big_endian(frame: Seq<u8>, k: int)
    requires
        frame.len() % 2 == 0,
        0 <= k,
        2 * k + 1 < frame.len(),
    ensures
        ({
            let out = raw_frame(frame);
            &&& out.len() == frame.len() + 7
            &&& out.take(7) == seq![0x20u8, 0, 0, 0, 0, 0, 0]
            &&& out[7 + 2 * k] == frame[2 * k + 1]
            &&& out[8 + 2 * k] == frame[2 * k]
        }),
{
    lemma_swapped_pair(frame, k);
    assert(raw_frame(frame).take(7) == seq![0x20u8, 0, 0, 0, 0, 0, 0]);
}

/// A frame lasts 352 samples, of two bytes in each channel; an encoder's own frame size has the
/// width that it is configured for.
pub proof fn law_frame_sizes(e: EncoderView, channels: int)
    ensures
        frame_bytes(channels) == 704 * channels,
        e.bits_per_sample % 8 == 0 ==> 8 * configured_frame_size(e) == 352 * (e.channels
            * e.bits_per_sample),
        e.bits_per_sample < 8 ==> configured_frame_size(e) == 0,
{
    let w = (e.bits_per_sample / 8) as int;
    let ch = e.channels as int;
    let bits = e.bits_per_sample as int;
    assert(configured_frame_size(e) == 352 * ch * w);
    if bits % 8 == 0 {
        assert(8 * (352 * ch * w) == 352 * (ch * bits)) by (nonlinear_arith)
            requires
                bits == 8 * w,
        ;
    }
    if bits < 8 {
        assert(352 * ch * w == 0) by (nonlinear_arith)
            requires
                w == 0,
        ;
    }
}

/// The text of an error says what was missing.
pub proof fn law_encode_error_texts(got: usize, need: usize)
    ensures
        (EncodeError::ShortAlacFrame { got, need }).text()
            == "Not enough PCM data for ALAC frame: got "@ + text::decimal(got as nat)
            + " bytes, need "@ + text::decimal(need as nat),
        EncodeError::ShortRawFrame.text() == "Not enough PCM data for frame"@,
{
}

/// Each packet is encoded for 352 samples and the encoder's channels, after all the frames before it,
/// and joins them. Nothing of the configuration changes, and no timestamp is used.
pub proof fn law_encoding_remembers(e: EncoderView, first: Seq<u8>, second: Seq<u8>)
    ensures
        packet_of_frame(e, first) == outside::alac_packet(352, e.channels, e.encoded, first),
        packet_of_frame(after_encoding(e, first), second) == outside::alac_packet(
            352,
            e.channels,
            e.encoded.push(first),
            second,
        ),
        after_encoding(e, first).sample_rate == e.sample_rate,
        after_encoding(e, first).channels == e.channels,
        after_encoding(e, first).bits_per_sample == e.bits_per_sample,
        after_encoding(e, first).frame_count == e.frame_count,
{
}

/// Two timestamps in turn are 352 samples apart, in 32 bits; nothing but their count changes.
pub proof fn law_next_timestamp_is_a_frame_later(e: EncoderView)
    requires
        e.frame_count < u64::MAX,
    ensures
        frame_timestamp(after_timestamp(e).frame_count as int) == (frame_timestamp(
            e.frame_count as int,
        ) + 352) % 0x1_0000_0000,
        (EncoderView { frame_count: e.frame_count, ..after_timestamp(e) }) == e,
{
    law_timestamps_advance(e.frame_count as int);
}

/// After a reset timestamps begin again at 0; the configuration, and the frames that later packets
/// build on, stay.
pub proof fn law_reset_begins_again(e: EncoderView)
    ensures
        frame_timestamp(after_reset(e).frame_count as int) == 0,
        after_reset(e).output.len() == 0,
        (EncoderView { frame_count: e.frame_count, output: e.output, ..after_reset(e) }) == e,
{
}

/// The first frame of PCM is its first 704 bytes for each channel, as they are.
pub proof fn law_first_frame(pcm: Seq<u8>, channels: int, i: int)
    requires
        channels >= 0,
        704 * channels <= pcm.len(),
        0 <= i < 704 * channels,
    ensures
        first_frame(pcm, channels).len() == 704 * channels,
        first_frame(pcm, channels)[i] == pcm[i],
{
}

} // verus!
