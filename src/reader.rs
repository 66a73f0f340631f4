use std::io::Cursor;
use vstd::prelude::*;

verus! {

/// What cuet finds in a container's bytes: the body of the first cue chunk,
/// if any, and the outcome of looking for the next LIST chunk after it; or
/// the message of the failure to open the container or to read the cue chunk.
pub uninterp spec fn loop_chunks_of(bytes: Seq<u8>) -> Result<(Option<Seq<u8>>, Result<Option<Seq<u8>>, Seq<char>>), Seq<char>>;

pub open spec fn body_view(o: Option<Vec<u8>>) -> Option<Seq<u8>> {
    match o {
        Some(v) => Some(v@),
        None => None,
    }
}

pub open spec fn chunks_view(r: Result<(Option<Vec<u8>>, Result<Option<Vec<u8>>, String>), String>) -> Result<
    (Option<Seq<u8>>, Result<Option<Seq<u8>>, Seq<char>>),
    Seq<char>,
> {
    match r {
        Err(e) => Err(e@),
        Ok((cue, list)) => Ok(
            (
                body_view(cue),
                match list {
                    Ok(x) => Ok(body_view(x)),
                    Err(e) => Err(e@),
                },
            ),
        ),
    }
}

/// Relies on cuet::ChunkReader (new, read_next_chunk): opens the container,
/// reads the first chunk tagged "cue ", then looks for the next chunk tagged
/// "LIST" after it. A failure of that second look is handed back beside the
/// cue chunk, for the caller to use only when it needs the LIST chunk.
#[verifier::external_body]
fn find_loop_chunks(bytes: &Vec<u8>) -> (r: Result<(Option<Vec<u8>>, Result<Option<Vec<u8>>, String>), String>)
    ensures
        chunks_view(r) == loop_chunks_of(bytes@),
{
    let mut reader = cuet::ChunkReader::new(Cursor::new(&bytes[..])).map_err(|e| e.to_string())?;
    let cue = reader.read_next_chunk(Some(*b"cue ")).map_err(|e| e.to_string())?;
    let list = reader.read_next_chunk(Some(*b"LIST")).map_err(|e| e.to_string());
    Ok((cue.map(|(_, body)| body), list.map(|c| c.map(|(_, body)| body))))
}

/// The format and duration that hound reads from a container's header, or
/// the message of the failure.
pub uninterp spec fn wav_header_of(bytes: Seq<u8>) -> Result<(WavFormat, u32), Seq<char>>;

/// Relies on hound::WavReader (new, spec, duration): the format of the `fmt `
/// chunk and the number of samples per channel.
#[verifier::external_body]
fn read_wav_header(bytes: &Vec<u8>) -> (r: Result<(WavFormat, u32), String>)
    ensures
        match r {
            Ok(h) => wav_header_of(bytes@) == Ok::<(WavFormat, u32), Seq<char>>(h),
            Err(e) => wav_header_of(bytes@) == Err::<(WavFormat, u32), Seq<char>>(e@),
        },
{
    let reader = hound::WavReader::new(Cursor::new(&bytes[..])).map_err(|e| e.to_string())?;
    let spec = reader.spec();
    let format = WavFormat {
        channels: spec.channels,
        sample_rate: spec.sample_rate,
        bits_per_sample: spec.bits_per_sample,
        integer: spec.sample_format == hound::SampleFormat::Int,
    };
    Ok((format, reader.duration()))
}

/// The first `count` samples that hound decodes from a container as 16-bit
/// integers, or the message of the first failure.
pub uninterp spec fn decoded_of(bytes: Seq<u8>, count: usize) -> Result<Seq<i16>, Seq<char>>;

/// Relies on hound::WavReader (new, samples): decodes at most `count` samples
/// as 16-bit integers, failing on the first that cannot be read. The sample
/// iterator yields every sample of the data chunk (its duration times the
/// channel count), so a mono file yields all `count` when `count` is at most
/// its duration.
#[verifier::external_body]
fn decode_samples(bytes: &Vec<u8>, count: usize) -> (r: Result<Vec<i16>, String>)
    ensures
        match r {
            Ok(v) => decoded_of(bytes@, count) == Ok::<Seq<i16>, Seq<char>>(v@) && v@.len() <= count,
            Err(e) => decoded_of(bytes@, count) == Err::<Seq<i16>, Seq<char>>(e@),
        },
        r matches Ok(v) ==> ((wav_header_of(bytes@) matches Ok((f, d)) && f.channels == 1 && count <= d)
            ==> v@.len() == count),
{
    let mut reader = hound::WavReader::new(Cursor::new(&bytes[..])).map_err(|e| e.to_string())?;
    reader.samples::<i16>().take(count).collect::<Result<Vec<i16>, _>>().map_err(|e| e.to_string())
}

/// The little-endian 32-bit integer at byte `i`.
pub open spec fn le_u32(b: Seq<u8>, i: int) -> int {
    b[i] + 256 * b[i + 1] + 65536 * b[i + 2] + 16777216 * b[i + 3]
}

/// Relies on cuet::parse_cue_points: after the 4-byte count, one cue point per
/// whole 24-byte record (leftover bytes ignored), whose sample offset is the
/// little-endian integer in its last 4 bytes. cuet slices off the count, so
/// the body must hold it.
#[verifier::external_body]
fn cue_offsets(body: &Vec<u8>) -> (r: Vec<u32>)
    requires
        body@.len() >= 4,
    ensures
        r@.len() == (body@.len() - 4) / 24,
        forall|k: int| 0 <= k < r@.len() ==> r@[k] as int == le_u32(body@, 4 + 24 * k + 20),
{
    cuet::parse_cue_points(&body[..]).iter().map(|p| p.sample_offset).collect()
}

/// The labeled-text sub-chunks of a LIST chunk body, as sample length and
/// purpose tag.
pub uninterp spec fn labeled_texts_of(list: Seq<u8>) -> Seq<(u32, [u8; 4])>;

/// Relies on cuet::extract_labeled_text_from_list: the labeled-text
/// sub-chunks of a LIST chunk body, of which only the sample length and the
/// purpose tag are kept.
#[verifier::external_body]
fn labeled_texts(body: &Vec<u8>) -> (r: Vec<(u32, [u8; 4])>)
    ensures
        r@ == labeled_texts_of(body@),
{
    cuet::extract_labeled_text_from_list(&body[..]).into_iter().map(|t| (t.sample_length, t.purpose_id)).collect()
}

/// What a container says about its audio and its loop.
#[derive(Debug, Clone, Copy, PartialEq, Eq, Structural)]
pub struct Metadata {
    pub sample_rate: u32,
    pub sample_count: u32,
    pub loop_start: Option<u32>,
    pub end: Option<u32>,
    pub bits_per_sample: u16,
}

/// The format fields of a container's `fmt ` chunk.
#[derive(Debug, Clone, Copy, PartialEq, Eq, Structural)]
pub struct WavFormat {
    pub channels: u16,
    pub sample_rate: u32,
    pub bits_per_sample: u16,
    pub integer: bool,
}

/// The loop end: start plus length, absent when either is absent or the sum
/// overflows 32 bits.
pub open spec fn loop_end_of(start: Option<u32>, length: Option<u32>) -> Option<u32> {
    match (start, length) {
        (Some(s), Some(l)) => if s + l <= u32::MAX { Some((s + l) as u32) } else { None },
        _ => None,
    }
}

/// How many samples are decoded: all of them, or only those before a loop end.
pub open spec fn decode_count(duration: u32, end: Option<u32>) -> u32 {
    match end {
        Some(e) => if e < duration { e } else { duration },
        None => duration,
    }
}

/// Why samples of this format cannot be decoded, if they cannot.
pub open spec fn format_error(f: WavFormat) -> Option<Seq<char>> {
    if f.channels != 1 {
        Some("Too many channels"@)
    } else if !f.integer {
        Some("Float samples are unsupported"@)
    } else if f.bits_per_sample != 8 && f.bits_per_sample != 16 {
        Some("Samples must be 8- or 16-bits"@)
    } else {
        None
    }
}

/// A sample as read from a container, carried into the 16-bit domain: 8-bit
/// samples are shifted left by 8, 16-bit samples pass unchanged.
pub open spec fn widen(bits: u16, raw: i16) -> i16 {
    if bits == 8 {
        raw << 8u32
    } else {
        raw
    }
}

pub fn loop_end(start: Option<u32>, length: Option<u32>) -> (r: Option<u32>)
    ensures
        r == loop_end_of(start, length),
{
    match (start, length) {
        (Some(s), Some(l)) => s.checked_add(l),
        _ => None,
    }
}

/// The loop start that the metadata keeps: none when start plus length
/// overflows 32 bits, for then the loop markers count as absent.
pub open spec fn kept_loop_start(start: Option<u32>, length: Option<u32>) -> Option<u32> {
    match (start, length) {
        (Some(s), Some(l)) => if s + l <= u32::MAX { start } else { None },
        _ => start,
    }
}

/// The metadata of a container with this format, duration and loop markers.
pub open spec fn metadata_from(
    format: WavFormat,
    duration: u32,
    loop_start: Option<u32>,
    loop_length: Option<u32>,
) -> Metadata {
    let end = loop_end_of(loop_start, loop_length);
    Metadata {
        sample_rate: format.sample_rate,
        sample_count: decode_count(duration, end),
        loop_start: kept_loop_start(loop_start, loop_length),
        end,
        bits_per_sample: format.bits_per_sample,
    }
}

/// The metadata of a container with this format, duration and loop markers.
pub fn metadata_of(
    format: WavFormat,
    duration: u32,
    loop_start: Option<u32>,
    loop_length: Option<u32>,
) -> (r: Metadata)
    ensures
        r == metadata_from(format, duration, loop_start, loop_length),
{
    let end = loop_end(loop_start, loop_length);
    let sample_count = match end {
        Some(e) => if e < duration { e } else { duration },
        None => duration,
    };
    let kept_start = if loop_start.is_some() && loop_length.is_some() && end.is_none() {
        None
    } else {
        loop_start
    };
    Metadata {
        sample_rate: format.sample_rate,
        sample_count,
        loop_start: kept_start,
        end,
        bits_per_sample: format.bits_per_sample,
    }
}

/// Checks that samples of this format can be decoded: mono integer PCM of 8
/// or 16 bits.
pub fn check_format(format: WavFormat) -> (r: Result<(), String>)
    ensures
        match r {
            Ok(_) => format_error(format).is_none(),
            Err(e) => format_error(format) == Some(e@),
        },
{
    if format.channels != 1 {
        return Err("Too many channels".to_owned());
    }
    if !format.integer {
        return Err("Float samples are unsupported".to_owned());
    }
    if format.bits_per_sample != 8 && format.bits_per_sample != 16 {
        return Err("Samples must be 8- or 16-bits".to_owned());
    }
    Ok(())
}

/// Raw samples of the given bit depth, carried into the 16-bit domain.
pub open spec fn widened(bits: u16, raw: Seq<i16>) -> Seq<i16> {
    Seq::new(raw.len(), |k: int| widen(bits, raw[k]))
}

/// Carries raw samples of the given bit depth into the 16-bit domain.
pub fn widen_samples(bits: u16, raw: &Vec<i16>) -> (r: Vec<i16>)
    ensures
        r@ == widened(bits, raw@),
{
    let mut out: Vec<i16> = Vec::with_capacity(raw.len());
    let mut i: usize = 0;
    while i < raw.len()
        invariant
            0 <= i <= raw@.len(),
            out@.len() == i,
            forall|k: int| 0 <= k < i ==> out@[k] == widen(bits, raw@[k]),
        decreases raw@.len() - i,
    {
        let s = raw[i];
        let v = if bits == 8 {
            s << 8u32
        } else {
            s
        };
        out.push(v);
        i = i + 1;
    }
    assert(out@ =~= widened(bits, raw@));
    out
}

/// The loop start that a cue chunk body gives: the sample offset of its first
/// cue point, if it holds a whole one.
pub open spec fn cue_loop_start(body: Seq<u8>) -> Option<u32> {
    if body.len() >= 28 {
        Some(le_u32(body, 24) as u32)
    } else {
        None
    }
}

/// The purpose tag of a labeled text that carries a loop length.
pub open spec fn is_mark(tag: [u8; 4]) -> bool {
    tag@ == seq![109u8, 97u8, 114u8, 107u8]
}

/// The loop length that labeled texts give: the sample length of the first,
/// when its purpose tag is "mark".
pub open spec fn mark_length(labels: Seq<(u32, [u8; 4])>) -> Option<u32> {
    if labels.len() > 0 && is_mark(labels[0].1) {
        Some(labels[0].0)
    } else {
        None
    }
}

/// The loop start read from a cue chunk body.
pub fn loop_start_from_cue(body: &Vec<u8>) -> (r: Option<u32>)
    ensures
        r == cue_loop_start(body@),
{
    if body.len() < 4 {
        return None;
    }
    let offsets = cue_offsets(body);
    if offsets.len() == 0 {
        None
    } else {
        assert(offsets@[0] as int == le_u32(body@, 24));
        Some(offsets[0])
    }
}

/// The loop length read from labeled texts.
pub fn loop_length_from_labels(labels: &Vec<(u32, [u8; 4])>) -> (r: Option<u32>)
    ensures
        r == mark_length(labels@),
{
    if labels.len() == 0 {
        return None;
    }
    let (length, tag) = labels[0];
    if tag[0] == 109u8 && tag[1] == 97u8 && tag[2] == 114u8 && tag[3] == 107u8 {
        assert(tag@ =~= seq![109u8, 97u8, 114u8, 107u8]);
        Some(length)
    } else {
        assert(!is_mark(tag)) by {
            if tag@ == seq![109u8, 97u8, 114u8, 107u8] {
                assert(tag@[0] == 109u8);
            }
        }
        None
    }
}

/// The loop length read from a LIST chunk body.
pub fn loop_length_from_list(body: &Vec<u8>) -> (r: Option<u32>)
    ensures
        r == mark_length(labeled_texts_of(body@)),
{
    let labels = labeled_texts(body);
    loop_length_from_labels(&labels)
}

/// What reading a container's bytes gives: loop start, loop length, format
/// and duration, or the message of the failure. The loop start is the first
/// cue point of the first cue chunk; only when there is one is the loop
/// length read, from the next LIST chunk after it.
pub open spec fn reader_parts(bytes: Seq<u8>) -> Result<(Option<u32>, Option<u32>, WavFormat, u32), Seq<char>> {
    match loop_chunks_of(bytes) {
        Err(e) => Err(e),
        Ok((cue, list)) => {
            if cue matches Some(b) && b.len() < 4 {
                Err("Malformed cue chunk"@)
            } else {
                let start = match cue {
                    Some(b) => cue_loop_start(b),
                    None => None,
                };
                let length: Result<Option<u32>, Seq<char>> = if start is Some {
                    match list {
                        Err(e) => Err(e),
                        Ok(None) => Ok(None),
                        Ok(Some(b)) => Ok(mark_length(labeled_texts_of(b))),
                    }
                } else {
                    Ok(None)
                };
                match length {
                    Err(e) => Err(e),
                    Ok(l) => match wav_header_of(bytes) {
                        Err(e) => Err(e),
                        Ok((f, d)) => Ok((start, l, f, d)),
                    },
                }
            }
        },
    }
}

/// A container read from its bytes: its format, duration and loop markers.
pub struct QWaveReader {
    bytes: Vec<u8>,
    format: WavFormat,
    duration: u32,
    loop_start: Option<u32>,
    loop_length: Option<u32>,
}

impl QWaveReader {
    pub closed spec fn bytes_view(&self) -> Seq<u8> {
        self.bytes@
    }

    pub closed spec fn format_view(&self) -> WavFormat {
        self.format
    }

    pub closed spec fn duration_view(&self) -> u32 {
        self.duration
    }

    pub closed spec fn loop_start_view(&self) -> Option<u32> {
        self.loop_start
    }

    pub closed spec fn loop_length_view(&self) -> Option<u32> {
        self.loop_length
    }

    /// The format and duration held are those hound reads from the bytes.
    pub open spec fn header_matches(&self) -> bool {
        wav_header_of(self.bytes_view()) == Ok::<(WavFormat, u32), Seq<char>>((self.format_view(), self.duration_view()))
    }

    /// How many samples are decoded: up to the loop end when there is one.
    pub open spec fn count_view(&self) -> u32 {
        decode_count(self.duration_view(), loop_end_of(self.loop_start_view(), self.loop_length_view()))
    }

    /// What decoding gives: the samples up to the loop end, widened into the
    /// 16-bit domain, or the message of the failure; an unsupported format
    /// fails before any sample is read.
    pub open spec fn decode_outcome(&self) -> Result<Seq<i16>, Seq<char>> {
        match format_error(self.format_view()) {
            Some(e) => Err(e),
            None => match decoded_of(self.bytes_view(), self.count_view() as usize) {
                Ok(raw) => Ok(widened(self.format_view().bits_per_sample, raw)),
                Err(e) => Err(e),
            },
        }
    }

    /// Reads the loop markers and the header of a container. A cue chunk too
    /// short to hold its count is malformed.
    pub fn new(bytes: Vec<u8>) -> (r: Result<QWaveReader, String>)
        ensures
            match reader_parts(bytes@) {
                Ok((start, length, format, duration)) => r matches Ok(q) && {
                    &&& q.bytes_view() == bytes@
                    &&& q.loop_start_view() == start
                    &&& q.loop_length_view() == length
                    &&& q.format_view() == format
                    &&& q.duration_view() == duration
                    &&& q.header_matches()
                },
                Err(e) => r matches Err(x) && x@ == e,
            },
    {
        let (cue, list) = find_loop_chunks(&bytes)?;
        let loop_start = match &cue {
            Some(body) => {
                if body.len() < 4 {
                    return Err("Malformed cue chunk".to_owned());
                }
                loop_start_from_cue(body)
            },
            None => None,
        };
        let loop_length = if loop_start.is_some() {
            match list? {
                Some(body) => loop_length_from_list(&body),
                None => None,
            }
        } else {
            None
        };
        let (format, duration) = read_wav_header(&bytes)?;
        Ok(QWaveReader { bytes, format, duration, loop_start, loop_length })
    }

    /// The container's metadata: format, duration clamped to the loop end, and
    /// loop markers.
    pub fn metadata(&self) -> (r: Metadata)
        ensures
            r == metadata_from(
                self.format_view(),
                self.duration_view(),
                self.loop_start_view(),
                self.loop_length_view(),
            ),
    {
        metadata_of(self.format, self.duration, self.loop_start, self.loop_length)
    }

    /// Decodes the samples, up to the loop end when there is one, into the
    /// 16-bit domain. Fails on a format other than mono integer PCM of 8 or 16
    /// bits, before any sample is read.
    pub fn collect_samples(&mut self) -> (r: Result<Vec<i16>, String>)
        ensures
            *final(self) == *old(self),
            match old(self).decode_outcome() {
                Ok(s) => r matches Ok(v) && v@ == s && v@.len() <= old(self).count_view() && (old(
                    self,
                ).header_matches() ==> v@.len() == old(self).count_view()),
                Err(e) => r matches Err(x) && x@ == e,
            },
    {
        check_format(self.format)?;
        let end = loop_end(self.loop_start, self.loop_length);
        let count = match end {
            Some(e) => if e < self.duration {
                e
            } else {
                self.duration
            },
            None => self.duration,
        };
        let raw = decode_samples(&self.bytes, count as usize)?;
        let samples = widen_samples(self.format.bits_per_sample, &raw);
        Ok(samples)
    }
}

} // verus!
