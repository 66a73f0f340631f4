use std::io::Cursor;
use std::ops::Range;
use vstd::arithmetic::div_mod::lemma_fundamental_div_mod;
use vstd::prelude::*;

use crate::reader::{metadata_from, widen, Metadata, QWaveReader, WavFormat};

verus! {

/// The lowest audible frequency presumed, in Hz: a blend window spanning one
/// period of it is long enough to suppress clicks at the loop seam.
const MIN_FREQ: u32 = 50;

/// The bytes of a mono integer PCM container holding these samples.
pub uninterp spec fn wav_encoding(sample_rate: u32, bits: u16, samples: Seq<i16>) -> Seq<u8>;

/// Relies on hound::WavWriter (new, write_sample, finalize): a mono integer
/// PCM container at this rate and depth holding the samples in order. hound's
/// writer holds its stream until it is finalised and gives it no way back, so
/// the whole write is this one call. hound divides by the rate and multiplies
/// it by the bytes per sample, counts data bytes (plus a 36-byte header) in
/// 32 bits, and refuses 8-bit samples outside -128..=127; into memory, nothing
/// else fails.
#[verifier::external_body]
fn encode_wav(sample_rate: u32, bits: u16, samples: &Vec<i16>) -> (r: Result<Vec<u8>, String>)
    requires
        0 < sample_rate <= u32::MAX / 2,
        bits == 8 || bits == 16,
        samples@.len() * (bits / 8) + 36 <= u32::MAX,
        bits == 8 ==> forall|k: int| 0 <= k < samples@.len() ==> -128 <= #[trigger] samples@[k] <= 127,
    ensures
        r is Ok,
        r matches Ok(b) ==> b@ == wav_encoding(sample_rate, bits, samples@),
{
    let spec = hound::WavSpec { channels: 1, sample_rate, bits_per_sample: bits, sample_format: hound::SampleFormat::Int };
    let mut cursor = Cursor::new(Vec::new());
    let mut writer = hound::WavWriter::new(&mut cursor, spec).map_err(|e| e.to_string())?;
    for s in samples.iter() {
        writer.write_sample(*s).map_err(|e| e.to_string())?;
    }
    writer.finalize().map_err(|e| e.to_string())?;
    Ok(cursor.into_inner())
}

/// What appending a cue chunk with one cue point at `offset` makes of a
/// container's bytes, or the message of the failure.
pub uninterp spec fn cue_appended(bytes: Seq<u8>, offset: u32) -> Result<Seq<u8>, Seq<char>>;

/// What appending a LIST chunk with one "mark" labeled text of `length`
/// samples makes of a container's bytes, or the message of the failure.
pub uninterp spec fn length_appended(bytes: Seq<u8>, length: u32) -> Result<Seq<u8>, Seq<char>>;

/// Relies on cuet::ChunkWriter (new, append_cue_chunk, restore_cursor): the
/// bytes with a cue chunk appended, holding one cue point (id 0) at this
/// sample offset, and the RIFF size updated. Each append re-reads the RIFF
/// header from the start, so one writer per chunk writes what one writer for
/// both would.
#[verifier::external_body]
fn append_cue_chunk(bytes: Vec<u8>, offset: u32) -> (r: Result<Vec<u8>, String>)
    ensures
        match r {
            Ok(b) => cue_appended(bytes@, offset) == Ok::<Seq<u8>, Seq<char>>(b@),
            Err(e) => cue_appended(bytes@, offset) == Err::<Seq<u8>, Seq<char>>(e@),
        },
{
    let mut writer = cuet::ChunkWriter::new(Cursor::new(bytes)).map_err(|e| e.to_string())?;
    writer.append_cue_chunk(&[cuet::CuePoint::from_sample_offset(0, offset)]).map_err(|e| e.to_string())?;
    writer.restore_cursor().map(|c| c.into_inner()).map_err(|e| e.to_string())
}

/// Relies on cuet::ChunkWriter (new, append_label_chunk, restore_cursor): the
/// bytes with a LIST chunk appended, holding one labeled text (cue id 0,
/// purpose "mark") of this sample length, and the RIFF size updated.
#[verifier::external_body]
fn append_length_chunk(bytes: Vec<u8>, length: u32) -> (r: Result<Vec<u8>, String>)
    ensures
        match r {
            Ok(b) => length_appended(bytes@, length) == Ok::<Seq<u8>, Seq<char>>(b@),
            Err(e) => length_appended(bytes@, length) == Err::<Seq<u8>, Seq<char>>(e@),
        },
{
    let mut writer = cuet::ChunkWriter::new(Cursor::new(bytes)).map_err(|e| e.to_string())?;
    writer.append_label_chunk(&[cuet::LabeledText::from_cue_length(0, length)]).map_err(|e| e.to_string())?;
    writer.restore_cursor().map(|c| c.into_inner()).map_err(|e| e.to_string())
}

/// The container bytes written for samples `s` at rate `rate` and format `f`
/// with these loop markers, or the message of the failure.
pub open spec fn container_of(rate: u32, f: SampleFmt, s: Seq<i16>, markers: Option<LoopMarkers>) -> Result<Seq<u8>, Seq<char>> {
    let wav = wav_encoding(rate, bits_of(f), rendered(f, s));
    match markers {
        None => Ok(wav),
        Some(m) => match cue_appended(wav, m.cue_offset) {
            Err(e) => Err(e),
            Ok(cued) => match m.length {
                None => Ok(cued),
                Some(length) => length_appended(cued, length),
            },
        },
    }
}

/// Why a project cannot be written, if it cannot: a rate or a length out of
/// what the container's 32-bit fields hold, or a loop that ends before it
/// begins when a length is due.
pub open spec fn write_error(rate: u32, f: SampleFmt, len: nat, sample_loop: Option<Range<u32>>) -> Option<Seq<char>> {
    if rate == 0 || rate > u32::MAX / 2 {
        Some("Sample rate out of range"@)
    } else if len * (bits_of(f) / 8) as nat + 36 > u32::MAX {
        Some("Too many samples"@)
    } else if markers_of(sample_loop, len).is_none() {
        Some("Loop ends before it begins"@)
    } else {
        None
    }
}

/// Bit depth that a project is rendered at when written out.
#[derive(Debug, Clone, Copy, PartialEq, Eq, Structural)]
pub enum SampleFmt {
    Unsigned8,
    Signed16,
}

/// A decoded mono sample buffer with its rate and an editable loop region.
pub struct Project {
    samples: Vec<i16>,
    sample_rate: u32,
    sample_loop: Option<Range<u32>>,
    render_format: SampleFmt,
}

/// Why a project fails validation, if it does: a buffer too long to be
/// addressed by 32-bit sample indices, an empty buffer, or a loop region that
/// is not a non-empty range inside the buffer.
pub open spec fn validation_error(len: nat, sample_loop: Option<Range<u32>>) -> Option<Seq<char>> {
    if len > u32::MAX {
        Some("Too many samples"@)
    } else if len == 0 {
        Some("No audio samples"@)
    } else {
        match sample_loop {
            None => None,
            Some(lp) => {
                if lp.end > len {
                    Some("Loop extends beyond file end"@)
                } else if lp.end < lp.start {
                    Some("Loop ends before it begins"@)
                } else if lp.end == lp.start {
                    Some("Loop length is 0 samples"@)
                } else {
                    None
                }
            },
        }
    }
}

/// Numerator of the smoothstep weight `t * t * (3 - 2 * t)` at `t = i / n`;
/// the weight is this over `n * n * n`.
pub open spec fn smoothstep_num(i: int, n: int) -> int {
    i * i * (3 * n - 2 * i)
}

/// `num / den` rounded to the nearest integer, halves away from zero.
pub open spec fn round_div(num: int, den: int) -> int {
    if num >= 0 {
        (2 * num + den) / (2 * den)
    } else {
        -((-2 * num + den) / (2 * den))
    }
}

/// The crossfaded sample at step `i` of a window of `n`: `a` weighted by
/// `smoothstep(i / n)` plus `b` weighted by the rest, rounded.
pub open spec fn crossfade(a: i16, b: i16, i: int, n: int) -> int {
    let cube = n * n * n;
    let w = smoothstep_num(i, n);
    round_div(w * a + (cube - w) * b, cube)
}

/// The buffer after blending the loop `[start, end)` with a window of `n`: the
/// `n` samples that end at `end` are crossfaded with the `n` samples that end
/// at `start`; every other sample is kept.
pub open spec fn blended(s: Seq<i16>, start: int, end: int, n: int) -> Seq<i16> {
    Seq::new(
        s.len(),
        |k: int|
            if end - n <= k < end {
                crossfade(s[k - (end - start)], s[k], k - (end - n), n) as i16
            } else {
                s[k]
            },
    )
}

/// Why blending with a window of `n` fails, if it does.
pub open spec fn blend_error(len: nat, sample_loop: Option<Range<u32>>, n: u32) -> Option<Seq<char>> {
    if validation_error(len, sample_loop).is_some() {
        validation_error(len, sample_loop)
    } else {
        match sample_loop {
            None => Some("No loop to blend"@),
            Some(lp) => {
                if n > lp.start {
                    Some("Insufficient lead before loop for blend"@)
                } else if n > lp.end - lp.start {
                    Some("Blend window longer than loop"@)
                } else {
                    None
                }
            },
        }
    }
}

/// The loop region that a decoded buffer of `len` samples starts with: from
/// the loop start to the loop end, or to the end of the buffer.
pub open spec fn initial_loop(m: Metadata, len: nat) -> Option<Range<u32>> {
    match m.loop_start {
        None => None,
        Some(s) => Some(
            Range {
                start: s,
                end: match m.end {
                    Some(e) => e,
                    None => len as u32,
                },
            },
        ),
    }
}

/// The render format for a bit depth, if it is one that can be written.
pub open spec fn format_for_bits(bits: u16) -> Option<SampleFmt> {
    if bits == 8 {
        Some(SampleFmt::Unsigned8)
    } else if bits == 16 {
        Some(SampleFmt::Signed16)
    } else {
        None
    }
}

/// Bits per sample written for a render format.
pub open spec fn bits_of(f: SampleFmt) -> u16 {
    match f {
        SampleFmt::Unsigned8 => 8,
        SampleFmt::Signed16 => 16,
    }
}

/// A 16-bit-domain sample as written at a render format: shifted right by 8
/// for 8-bit output, unchanged for 16-bit output.
pub open spec fn narrow(f: SampleFmt, s: i16) -> i16 {
    match f {
        SampleFmt::Unsigned8 => s >> 8u32,
        SampleFmt::Signed16 => s,
    }
}

/// A buffer as written at a render format.
pub open spec fn rendered(f: SampleFmt, s: Seq<i16>) -> Seq<i16> {
    Seq::new(s.len(), |k: int| narrow(f, s[k]))
}

/// The loop markers written with a buffer of `len` samples: a cue point at
/// the loop start, and the loop length unless the loop runs to the end of the
/// buffer. `None` inside `Some` when the loop ends before it begins and a
/// length is due.
pub open spec fn markers_of(sample_loop: Option<Range<u32>>, len: nat) -> Option<Option<LoopMarkers>> {
    match sample_loop {
        None => Some(None),
        Some(lp) => {
            if len == lp.end {
                Some(Some(LoopMarkers { cue_offset: lp.start, length: None }))
            } else if lp.end < lp.start {
                None
            } else {
                Some(Some(LoopMarkers { cue_offset: lp.start, length: Some((lp.end - lp.start) as u32) }))
            }
        },
    }
}

/// The loop metadata written into a container: the sample offset of the cue
/// point, and the length carried by the labeled-text chunk when there is one.
#[derive(Debug, Clone, Copy, PartialEq, Eq, Structural)]
pub struct LoopMarkers {
    pub cue_offset: u32,
    pub length: Option<u32>,
}

proof fn lemma_weight_bounds(i: int, n: int)
    requires
        0 <= i < n,
    ensures
        0 <= smoothstep_num(i, n) <= n * n * n,
{
    assert(0 <= i * i * (3 * n - 2 * i)) by (nonlinear_arith)
        requires
            0 <= i < n,
    ;
    assert(n * n * n - i * i * (3 * n - 2 * i) == (n - i) * (n - i) * (n + 2 * i)) by (nonlinear_arith);
    assert(0 <= (n - i) * (n - i) * (n + 2 * i)) by (nonlinear_arith)
        requires
            0 <= i < n,
    ;
}

proof fn lemma_convex(a: int, b: int, w: int, c: int)
    requires
        0 <= w <= c,
    ensures
        a <= b ==> c * a <= w * a + (c - w) * b <= c * b,
        b <= a ==> c * b <= w * a + (c - w) * b <= c * a,
{
    assert(w * a + (c - w) * b == c * b + w * (a - b)) by (nonlinear_arith);
    assert(w * a + (c - w) * b == c * a + (c - w) * (b - a)) by (nonlinear_arith);
    if a <= b {
        assert(w * (a - b) <= 0) by (nonlinear_arith)
            requires
                0 <= w,
                a <= b,
        ;
        assert((c - w) * (b - a) >= 0) by (nonlinear_arith)
            requires
                w <= c,
                a <= b,
        ;
    }
    if b <= a {
        assert(w * (a - b) >= 0) by (nonlinear_arith)
            requires
                0 <= w,
                b <= a,
        ;
        assert((c - w) * (b - a) <= 0) by (nonlinear_arith)
            requires
                w <= c,
                b <= a,
        ;
    }
}

proof fn lemma_floor_bounds(x: int, d: int, lo: int, hi: int)
    requires
        d > 0,
        d * lo <= x < d * (hi + 1),
    ensures
        lo <= x / d <= hi,
{
    lemma_fundamental_div_mod(x, d);
    let q = x / d;
    let r = x % d;
    assert(lo <= q) by (nonlinear_arith)
        requires
            x == d * q + r,
            0 <= r < d,
            d * lo <= x,
            d > 0,
    ;
    assert(q <= hi) by (nonlinear_arith)
        requires
            x == d * q + r,
            0 <= r < d,
            x < d * (hi + 1),
            d > 0,
    ;
}

proof fn lemma_round_bounds(num: int, c: int, lo: int, hi: int)
    requires
        c > 0,
        c * lo <= num <= c * hi,
    ensures
        lo <= round_div(num, c) <= hi,
{
    if num >= 0 {
        let m = if lo > 0 { lo } else { 0 };
        assert(2 * c * m <= 2 * num + c < 2 * c * (hi + 1)) by (nonlinear_arith)
            requires
                c > 0,
                c * lo <= num <= c * hi,
                0 <= num,
                m == if lo > 0 { lo } else { 0 },
        ;
        lemma_floor_bounds(2 * num + c, 2 * c, m, hi);
    } else {
        let m = if hi < 0 { -hi } else { 0 };
        assert(2 * c * m <= -2 * num + c < 2 * c * (-lo + 1)) by (nonlinear_arith)
            requires
                c > 0,
                c * lo <= num <= c * hi,
                num < 0,
                m == if hi < 0 { -hi } else { 0 },
        ;
        lemma_floor_bounds(-2 * num + c, 2 * c, m, -lo);
    }
}

/// A crossfaded sample lies between its two sources.
proof fn lemma_crossfade_range(a: i16, b: i16, i: int, n: int)
    requires
        0 <= i < n,
    ensures
        (a <= b ==> a <= crossfade(a, b, i, n) <= b),
        (b <= a ==> b <= crossfade(a, b, i, n) <= a),
{
    let c = n * n * n;
    let w = smoothstep_num(i, n);
    lemma_weight_bounds(i, n);
    assert(c > 0) by (nonlinear_arith)
        requires
            n > 0,
            c == n * n * n,
    ;
    lemma_convex(a as int, b as int, w, c);
    let num = w * a + (c - w) * b;
    if a <= b {
        lemma_round_bounds(num, c, a as int, b as int);
    }
    if b <= a {
        lemma_round_bounds(num, c, b as int, a as int);
    }
}

/// Crossfades `a` into `b` at step `i` of a window of `n` samples.
pub fn crossfade_sample(a: i16, b: i16, i: u32, n: u32) -> (r: i16)
    requires
        i < n,
    ensures
        r as int == crossfade(a, b, i as int, n as int),
{
    proof {
        let (ni, ii) = (n as int, i as int);
        lemma_crossfade_range(a, b, ii, ni);
        lemma_weight_bounds(ii, ni);
        assert(ni * ni <= 0x1_0000_0000_0000_0000 && ni * ni * ni <= 0x1_0000_0000_0000_0000_0000_0000)
            by (nonlinear_arith)
            requires
                0 <= ni <= u32::MAX,
        ;
        assert(ii * ii <= 0x1_0000_0000_0000_0000) by (nonlinear_arith)
            requires
                0 <= ii < ni <= u32::MAX,
        ;
        let w = smoothstep_num(ii, ni);
        let c = ni * ni * ni;
        assert(-0x1_0000_0000_0000_0000_0000_0000_0000 <= w * a <= 0x1_0000_0000_0000_0000_0000_0000_0000)
            by (nonlinear_arith)
            requires
                0 <= w <= c <= 0x1_0000_0000_0000_0000_0000_0000,
                -0x8000 <= a <= 0x7fff,
        ;
        assert(-0x1_0000_0000_0000_0000_0000_0000_0000 <= (c - w) * b <= 0x1_0000_0000_0000_0000_0000_0000_0000)
            by (nonlinear_arith)
            requires
                0 <= w <= c <= 0x1_0000_0000_0000_0000_0000_0000,
                -0x8000 <= b <= 0x7fff,
        ;
        assert(c > 0) by (nonlinear_arith)
            requires
                0 <= ii < ni,
                c == ni * ni * ni,
        ;
        lemma_convex(a as int, b as int, w, c);
        let num = w * a + (c - w) * b;
        assert(-0x1_0000_0000_0000_0000_0000_0000_0000 <= num <= 0x1_0000_0000_0000_0000_0000_0000_0000)
            by (nonlinear_arith)
            requires
                c * a <= num <= c * b || c * b <= num <= c * a,
                0 < c <= 0x1_0000_0000_0000_0000_0000_0000,
                -0x8000 <= a <= 0x7fff,
                -0x8000 <= b <= 0x7fff,
        ;
    }
    let n = n as i128;
    let i = i as i128;
    let cube = n * n * n;
    let w = i * i * (3 * n - 2 * i);
    let num = w * (a as i128) + (cube - w) * (b as i128);
    let mag = if num >= 0 { num } else { -num };
    let q = (2 * mag + cube) / (2 * cube);
    let r = if num >= 0 { q } else { -q };
    assert(r == crossfade(a, b, i as int, n as int));
    r as i16
}

impl Project {
    #[verifier::type_invariant]
    spec fn addressable(&self) -> bool {
        self.samples.len() <= u32::MAX
    }

    /// The sample buffer.
    pub closed spec fn samples_view(&self) -> Seq<i16> {
        self.samples@
    }

    /// The sample rate in Hz.
    pub closed spec fn rate_view(&self) -> u32 {
        self.sample_rate
    }

    /// The loop region, if any.
    pub closed spec fn loop_view(&self) -> Option<Range<u32>> {
        self.sample_loop
    }

    /// The bit depth used on export.
    pub closed spec fn format_view(&self) -> SampleFmt {
        self.render_format
    }

    /// Replaces the loop region without checking it.
    pub fn set_loop(&mut self, sample_loop: Option<Range<u32>>)
        ensures
            final(self).loop_view() == sample_loop,
            final(self).samples_view() == old(self).samples_view(),
            final(self).rate_view() == old(self).rate_view(),
            final(self).format_view() == old(self).format_view(),
    {
        proof {
            use_type_invariant(&*self);
        }
        self.sample_loop = sample_loop;
    }

    pub fn sample_rate(&self) -> (r: u32)
        ensures
            r == self.rate_view(),
    {
        self.sample_rate
    }

    pub fn sample_count(&self) -> (r: u32)
        ensures
            r == self.samples_view().len(),
    {
        proof {
            use_type_invariant(self);
        }
        self.samples.len() as u32
    }

    /// A project over a fully decoded buffer and the metadata read with it.
    pub fn from_decoded(samples: Vec<i16>, metadata: Metadata) -> (r: Result<Project, String>)
        ensures
            match r {
                Ok(p) => {
                    &&& samples@.len() <= u32::MAX
                    &&& format_for_bits(metadata.bits_per_sample) == Some(p.format_view())
                    &&& p.samples_view() == samples@
                    &&& p.rate_view() == metadata.sample_rate
                    &&& p.loop_view() == initial_loop(metadata, samples@.len())
                },
                Err(e) => {
                    ||| samples@.len() > u32::MAX && e@ == "Too many samples"@
                    ||| samples@.len() <= u32::MAX && format_for_bits(metadata.bits_per_sample).is_none()
                        && e@ == "Unsupported bit depth"@
                },
            },
    {
        if samples.len() > u32::MAX as usize {
            return Err("Too many samples".to_owned());
        }
        let len = samples.len() as u32;
        let sample_loop = match metadata.loop_start {
            None => None,
            Some(start) => Some(
                Range {
                    start,
                    end: match metadata.end {
                        Some(end) => end,
                        None => len,
                    },
                },
            ),
        };
        let render_format = if metadata.bits_per_sample == 8 {
            SampleFmt::Unsigned8
        } else if metadata.bits_per_sample == 16 {
            SampleFmt::Signed16
        } else {
            return Err("Unsupported bit depth".to_owned());
        };
        Ok(Project { samples, sample_rate: metadata.sample_rate, sample_loop, render_format })
    }

    /// A project over everything a reader decodes, with the metadata it read.
    /// A decoding error is handed on as it is.
    pub fn from_reader(reader: QWaveReader) -> (r: Result<Project, String>)
        ensures
            match reader.decode_outcome() {
                Err(e) => r matches Err(x) && x@ == e,
                Ok(s) => {
                    let m = metadata_from(
                        reader.format_view(),
                        reader.duration_view(),
                        reader.loop_start_view(),
                        reader.loop_length_view(),
                    );
                    r matches Ok(p) && {
                        &&& p.samples_view() == s
                        &&& p.rate_view() == m.sample_rate
                        &&& format_for_bits(m.bits_per_sample) == Some(p.format_view())
                        &&& p.loop_view() == initial_loop(m, s.len())
                    }
                },
            },
    {
        let mut reader = reader;
        let samples = reader.collect_samples()?;
        let metadata = reader.metadata();
        Project::from_decoded(samples, metadata)
    }

    /// The container bytes of the project: its samples at the render format,
    /// then, for a looped project, a cue chunk at the loop start and, unless
    /// the loop runs to the end of the buffer, a LIST chunk with the loop
    /// length. The loop is written as it is, without validation.
    pub fn to_wav_bytes(&self) -> (r: Result<Vec<u8>, String>)
        ensures
            match write_error(self.rate_view(), self.format_view(), self.samples_view().len(), self.loop_view()) {
                Some(e) => r matches Err(x) && x@ == e,
                None => match container_of(
                    self.rate_view(),
                    self.format_view(),
                    self.samples_view(),
                    markers_of(self.loop_view(), self.samples_view().len()).unwrap(),
                ) {
                    Ok(b) => r matches Ok(x) && x@ == b,
                    Err(e) => r matches Err(x) && x@ == e,
                },
            },
    {
        proof {
            use_type_invariant(self);
        }
        if self.sample_rate == 0 || self.sample_rate > u32::MAX / 2 {
            return Err("Sample rate out of range".to_owned());
        }
        let bits = self.bits_per_sample();
        let width: u64 = (bits / 8) as u64;
        assert(width <= 2 && self.samples@.len() <= u32::MAX);
        assert(self.samples@.len() * width <= 2 * u32::MAX) by (nonlinear_arith)
            requires
                width <= 2,
                self.samples@.len() <= u32::MAX,
        ;
        if self.samples.len() as u64 * width + 36 > u32::MAX as u64 {
            return Err("Too many samples".to_owned());
        }
        let markers = self.loop_markers()?;
        let out = self.rendered_samples();
        proof {
            if bits == 8 {
                assert forall|k: int| 0 <= k < out@.len() implies -128 <= #[trigger] out@[k] <= 127 by {
                    let x = self.samples@[k];
                    assert(-128 <= (x >> 8u32) <= 127) by (bit_vector);
                }
            }
        }
        let bytes = match encode_wav(self.sample_rate, bits, &out) {
            Ok(b) => b,
            Err(e) => {
                return Err(e);
            },
        };
        match markers {
            None => Ok(bytes),
            Some(m) => {
                let cued = append_cue_chunk(bytes, m.cue_offset)?;
                match m.length {
                    None => Ok(cued),
                    Some(length) => append_length_chunk(cued, length),
                }
            },
        }
    }

    /// The samples as written at the render format.
    pub fn rendered_samples(&self) -> (r: Vec<i16>)
        ensures
            r@ == rendered(self.format_view(), self.samples_view()),
    {
        let mut out: Vec<i16> = Vec::with_capacity(self.samples.len());
        let mut i: usize = 0;
        while i < self.samples.len()
            invariant
                0 <= i <= self.samples@.len(),
                out@.len() == i,
                forall|k: int| 0 <= k < i ==> out@[k] == narrow(self.render_format, self.samples@[k]),
            decreases self.samples@.len() - i,
        {
            let s = self.samples[i];
            let v = match self.render_format {
                SampleFmt::Unsigned8 => s >> 8u32,
                SampleFmt::Signed16 => s,
            };
            out.push(v);
            i = i + 1;
        }
        assert(out@ =~= rendered(self.render_format, self.samples@));
        out
    }

    /// Bits per sample that the project is written at.
    pub fn bits_per_sample(&self) -> (r: u16)
        ensures
            r == bits_of(self.format_view()),
    {
        match self.render_format {
            SampleFmt::Unsigned8 => 8,
            SampleFmt::Signed16 => 16,
        }
    }

    /// The loop markers to write with the samples, `None` for a loop-less
    /// project. Fails when a length is due and the loop ends before it begins.
    pub fn loop_markers(&self) -> (r: Result<Option<LoopMarkers>, String>)
        ensures
            match r {
                Ok(m) => markers_of(self.loop_view(), self.samples_view().len()) == Some(m),
                Err(e) => markers_of(self.loop_view(), self.samples_view().len()).is_none()
                    && e@ == "Loop ends before it begins"@,
            },
    {
        proof {
            use_type_invariant(self);
        }
        match &self.sample_loop {
            None => Ok(None),
            Some(sample_loop) => {
                if self.samples.len() as u32 == sample_loop.end {
                    Ok(Some(LoopMarkers { cue_offset: sample_loop.start, length: None }))
                } else if sample_loop.end < sample_loop.start {
                    Err("Loop ends before it begins".to_owned())
                } else {
                    Ok(
                        Some(
                            LoopMarkers {
                                cue_offset: sample_loop.start,
                                length: Some(sample_loop.end - sample_loop.start),
                            },
                        ),
                    )
                }
            },
        }
    }

    /// Blends the loop seam with a window spanning one period of the lowest
    /// audible frequency: `sample_rate / 50` samples.
    pub fn blend_default_window(&mut self) -> (r: Result<(), String>)
        ensures
            final(self).rate_view() == old(self).rate_view(),
            final(self).loop_view() == old(self).loop_view(),
            final(self).format_view() == old(self).format_view(),
            match r {
                Ok(_) => {
                    &&& blend_error(
                        old(self).samples_view().len(),
                        old(self).loop_view(),
                        (old(self).rate_view() / 50) as u32,
                    ).is_none()
                    &&& final(self).samples_view() == blended(
                        old(self).samples_view(),
                        old(self).loop_view().unwrap().start as int,
                        old(self).loop_view().unwrap().end as int,
                        (old(self).rate_view() / 50) as int,
                    )
                },
                Err(e) => {
                    &&& blend_error(
                        old(self).samples_view().len(),
                        old(self).loop_view(),
                        (old(self).rate_view() / 50) as u32,
                    ) == Some(e@)
                    &&& final(self).samples_view() == old(self).samples_view()
                },
            },
    {
        let window_sz = self.sample_rate / MIN_FREQ;
        self.blend(window_sz)
    }

    /// Crossfades the loop seam: the `window_sz` samples that end at the loop
    /// end are blended, with smoothstep weights, towards the `window_sz`
    /// samples that end at the loop start, so that wrapping from the end back
    /// to the start makes no discontinuity.
    pub fn blend(&mut self, window_sz: u32) -> (r: Result<(), String>)
        ensures
            final(self).rate_view() == old(self).rate_view(),
            final(self).loop_view() == old(self).loop_view(),
            final(self).format_view() == old(self).format_view(),
            match r {
                Ok(_) => {
                    &&& blend_error(old(self).samples_view().len(), old(self).loop_view(), window_sz).is_none()
                    &&& final(self).samples_view() == blended(
                        old(self).samples_view(),
                        old(self).loop_view().unwrap().start as int,
                        old(self).loop_view().unwrap().end as int,
                        window_sz as int,
                    )
                },
                Err(e) => {
                    &&& blend_error(old(self).samples_view().len(), old(self).loop_view(), window_sz) == Some(e@)
                    &&& final(self).samples_view() == old(self).samples_view()
                },
            },
    {
        self.validate()?;
        let (loop_start, loop_end) = match &self.sample_loop {
            Some(sample_loop) => (sample_loop.start, sample_loop.end),
            None => {
                return Err("No loop to blend".to_owned());
            },
        };
        let loop_width = loop_end - loop_start;
        if window_sz > loop_start {
            return Err("Insufficient lead before loop for blend".to_owned());
        }
        if window_sz > loop_width {
            return Err("Blend window longer than loop".to_owned());
        }
        let a_start = (loop_start - window_sz) as usize;
        let b_start = (loop_end - window_sz) as usize;
        let n = window_sz as usize;
        proof {
            use_type_invariant(&*self);
        }
        let mut samples = self.samples.clone();
        assert(samples@ =~= self.samples@);
        let ghost orig = self.samples@;
        let ghost start = loop_start as int;
        let ghost end = loop_end as int;
        let mut i: usize = 0;
        while i < n
            invariant
                0 <= i <= n,
                n == window_sz,
                a_start == start - n,
                b_start == end - n,
                0 <= a_start,
                n <= end - start,
                end <= orig.len() <= u32::MAX,
                samples@.len() == orig.len(),
                forall|k: int|
                    0 <= k < samples@.len() && !(b_start <= k < b_start + i) ==> samples@[k] == orig[k],
                forall|k: int|
                    b_start <= k < b_start + i ==> samples@[k] == blended(orig, start, end, n as int)[k],
            decreases n - i,
        {
            let x = samples[a_start + i];
            let y = samples[b_start + i];
            let v = crossfade_sample(x, y, i as u32, window_sz);
            samples.set(b_start + i, v);
            i = i + 1;
        }
        assert(samples@ =~= blended(orig, start, end, n as int));
        self.samples = samples;
        Ok(())
    }

    /// Checks that the buffer is not empty and that the loop region, if any, is
    /// a non-empty range inside it.
    pub fn validate(&self) -> (r: Result<(), String>)
        ensures
            match r {
                Ok(_) => validation_error(self.samples_view().len(), self.loop_view()).is_none(),
                Err(e) => validation_error(self.samples_view().len(), self.loop_view()) == Some(e@),
            },
    {
        proof {
            use_type_invariant(self);
        }
        let len = self.samples.len() as u32;
        if len == 0 {
            return Err("No audio samples".to_owned());
        }
        if let Some(sample_loop) = &self.sample_loop {
            if sample_loop.end > len {
                return Err("Loop extends beyond file end".to_owned());
            }
            if sample_loop.end < sample_loop.start {
                return Err("Loop ends before it begins".to_owned());
            }
            if sample_loop.end == sample_loop.start {
                return Err("Loop length is 0 samples".to_owned());
            }
        }
        Ok(())
    }
}

/// An 8-bit sample widened on read and narrowed again on an 8-bit write is
/// unchanged; at 16 bits both steps are the identity.
pub proof fn lemma_sample_depth_round_trip(x: i16)
    ensures
        -128 <= x <= 127 ==> narrow(SampleFmt::Unsigned8, widen(8, x)) == x,
        narrow(SampleFmt::Signed16, widen(16, x)) == x,
{
    assert(-128 <= x <= 127 ==> ((x << 8u32) >> 8u32) == x) by (bit_vector);
}

/// The loop markers that are written for a loop `[a, b)` of a buffer of
/// `len` samples give the loop back when they are read as markers: they hold
/// the cue offset `a`, and the length `b - a` exactly when `b != len`; taken
/// as the loop start and length read from a container of `len` samples, they
/// give loop start `a`, loop end `b` when a length was written and none
/// otherwise, `b` samples to decode either way, and the loop `[a, b)` for the
/// project made from them. This relates the markers, not the container bytes
/// that carry them.
pub proof fn lemma_loop_round_trip(sample_loop: Range<u32>, len: nat, format: WavFormat)
    requires
        sample_loop.start <= sample_loop.end <= len <= u32::MAX,
    ensures
        ({
            let (a, b) = (sample_loop.start, sample_loop.end);
            let markers = markers_of(Some(sample_loop), len).unwrap().unwrap();
            let read = metadata_from(format, len as u32, Some(markers.cue_offset), markers.length);
            &&& markers_of(Some(sample_loop), len) is Some
            &&& markers_of(Some(sample_loop), len).unwrap() is Some
            &&& markers.cue_offset == a
            &&& markers.length == if b != len { Some((b - a) as u32) } else { None }
            &&& read.loop_start == Some(a)
            &&& read.end == if b != len { Some(b) } else { None }
            &&& read.sample_count == b
            &&& initial_loop(read, read.sample_count as nat) == Some(sample_loop)
        }),
{
}

} // verus!
