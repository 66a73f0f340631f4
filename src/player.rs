use std::sync::atomic::{AtomicUsize, Ordering};
use std::sync::Arc;
use vstd::prelude::*;

verus! {

/// Output rate preferred for sources of CD origin.
pub const CD_SAMPLE_RATE: u32 = 44100;

/// Output rate preferred for sources of DVD origin.
pub const DVD_SAMPLE_RATE: u32 = 48000;

/// Source rates that are multiples of this are taken to be of DVD origin.
pub const DVD_DIVISOR: u32 = 8000;

/// `index * outrate / inrate` rounded down, when it fits the integer types.
pub open spec fn scaled(inrate: u32, outrate: u32, index: usize) -> Option<usize> {
    let p = index * outrate;
    if p > u64::MAX {
        None
    } else if p / (inrate as int) > usize::MAX {
        None
    } else {
        Some((p / (inrate as int)) as usize)
    }
}

/// Carries a sample index from a stream at `inrate` to one at `outrate`.
pub fn scale_index(inrate: u32, outrate: u32, index: usize) -> (r: Option<usize>)
    requires
        inrate > 0,
    ensures
        r == scaled(inrate, outrate, index),
{
    let idx = index as u64;
    match idx.checked_mul(outrate as u64) {
        None => None,
        Some(p) => {
            let q = p / (inrate as u64);
            if q > usize::MAX as u64 {
                None
            } else {
                Some(q as usize)
            }
        },
    }
}

/// 48 kHz for sources whose rate is a multiple of 8 kHz, else 44.1 kHz.
pub open spec fn preferred_rate_of(inrate: u32) -> u32 {
    if inrate % DVD_DIVISOR == 0 {
        DVD_SAMPLE_RATE
    } else {
        CD_SAMPLE_RATE
    }
}

/// The canonical rate tried when the preferred one is unavailable.
pub open spec fn fallback_rate_of(preferred: u32) -> u32 {
    if preferred == DVD_SAMPLE_RATE {
        CD_SAMPLE_RATE
    } else {
        DVD_SAMPLE_RATE
    }
}

pub fn preferred_rate(inrate: u32) -> (r: u32)
    ensures
        r == preferred_rate_of(inrate),
{
    if inrate % DVD_DIVISOR == 0 {
        DVD_SAMPLE_RATE
    } else {
        CD_SAMPLE_RATE
    }
}

/// One range of output configurations that a device offers.
#[derive(Debug, Clone, Copy, PartialEq, Eq, Structural)]
pub struct ConfigRange {
    pub channels: u16,
    pub min_rate: u32,
    pub max_rate: u32,
    /// Whether the range's samples are 32-bit floats.
    pub float: bool,
}

/// The configuration chosen: which range, at which rate.
#[derive(Debug, Clone, Copy, PartialEq, Eq, Structural)]
pub struct ConfigChoice {
    pub index: usize,
    pub sample_rate: u32,
}

pub open spec fn offers(c: ConfigRange, rate: u32) -> bool {
    c.min_rate <= rate <= c.max_rate
}

/// Mono float ranges are preferred, then stereo ones, then any float range.
pub open spec fn channel_preference(cfgs: Seq<ConfigRange>) -> Option<u16> {
    if exists|k: int| 0 <= k < cfgs.len() && cfgs[k].float && cfgs[k].channels == 1 {
        Some(1u16)
    } else if exists|k: int| 0 <= k < cfgs.len() && cfgs[k].float && cfgs[k].channels == 2 {
        Some(2u16)
    } else {
        None
    }
}

pub open spec fn candidate(c: ConfigRange, channels: Option<u16>) -> bool {
    c.float && match channels {
        Some(ch) => c.channels == ch,
        None => true,
    }
}

/// The first index at or after `from` of a candidate range that offers `rate`.
pub open spec fn first_offering(cfgs: Seq<ConfigRange>, channels: Option<u16>, rate: u32, from: int) -> Option<int>
    decreases cfgs.len() - from,
{
    if from < 0 || from >= cfgs.len() {
        None
    } else if candidate(cfgs[from], channels) && offers(cfgs[from], rate) {
        Some(from)
    } else {
        first_offering(cfgs, channels, rate, from + 1)
    }
}

/// The configuration for a source at `inrate`: the first candidate range that
/// offers the preferred canonical rate; only when none does, the first that
/// offers the other canonical rate.
pub open spec fn chosen_config(cfgs: Seq<ConfigRange>, inrate: u32) -> Option<ConfigChoice> {
    let channels = channel_preference(cfgs);
    let preferred = preferred_rate_of(inrate);
    let fallback = fallback_rate_of(preferred);
    match first_offering(cfgs, channels, preferred, 0) {
        Some(i) => Some(ConfigChoice { index: i as usize, sample_rate: preferred }),
        None => match first_offering(cfgs, channels, fallback, 0) {
            Some(i) => Some(ConfigChoice { index: i as usize, sample_rate: fallback }),
            None => None,
        },
    }
}

/// The first candidate range at or after `from` offering `rate`, by search.
fn find_offering(cfgs: &Vec<ConfigRange>, channels: Option<u16>, rate: u32) -> (r: Option<usize>)
    ensures
        match r {
            Some(i) => first_offering(cfgs@, channels, rate, 0) == Some(i as int),
            None => first_offering(cfgs@, channels, rate, 0) is None,
        },
{
    let mut j: usize = 0;
    while j < cfgs.len()
        invariant
            0 <= j <= cfgs@.len(),
            first_offering(cfgs@, channels, rate, 0) == first_offering(cfgs@, channels, rate, j as int),
        decreases cfgs@.len() - j,
    {
        let c = cfgs[j];
        let usable = c.float && match channels {
            Some(ch) => c.channels == ch,
            None => true,
        };
        if usable && c.min_rate <= rate && rate <= c.max_rate {
            return Some(j);
        }
        j = j + 1;
    }
    None
}

/// Picks the output configuration for a source at `inrate`: among the ranges
/// of the preferred channel count, the first that offers the preferred
/// canonical rate, else the first that offers the other canonical rate.
pub fn choose_config(cfgs: &Vec<ConfigRange>, inrate: u32) -> (r: Option<ConfigChoice>)
    ensures
        r == chosen_config(cfgs@, inrate),
{
    let mut has_mono = false;
    let mut has_stereo = false;
    let mut i: usize = 0;
    while i < cfgs.len()
        invariant
            0 <= i <= cfgs@.len(),
            has_mono == exists|k: int| 0 <= k < i && cfgs@[k].float && cfgs@[k].channels == 1,
            has_stereo == exists|k: int| 0 <= k < i && cfgs@[k].float && cfgs@[k].channels == 2,
        decreases cfgs@.len() - i,
    {
        let c = cfgs[i];
        if c.float && c.channels == 1 {
            has_mono = true;
        }
        if c.float && c.channels == 2 {
            has_stereo = true;
        }
        i = i + 1;
    }
    let channels: Option<u16> = if has_mono {
        Some(1)
    } else if has_stereo {
        Some(2)
    } else {
        None
    };
    assert(channels == channel_preference(cfgs@));
    let preferred = preferred_rate(inrate);
    let fallback = if preferred == DVD_SAMPLE_RATE {
        CD_SAMPLE_RATE
    } else {
        DVD_SAMPLE_RATE
    };
    match find_offering(cfgs, channels, preferred) {
        Some(i) => Some(ConfigChoice { index: i, sample_rate: preferred }),
        None => match find_offering(cfgs, channels, fallback) {
            Some(i) => Some(ConfigChoice { index: i, sample_rate: fallback }),
            None => None,
        },
    }
}

/// Why a source buffer of `len` samples at `rate` with these loop bounds
/// cannot be played, if it cannot. A missing loop start is 0; a missing end is
/// the buffer length.
pub open spec fn source_error(len: usize, rate: u32, loop_start: Option<usize>, end: Option<usize>) -> Option<Seq<char>> {
    let ls = match loop_start {
        Some(s) => s,
        None => 0,
    };
    let e = match end {
        Some(e) => e,
        None => len,
    };
    if rate == 0 {
        Some("Sample rate must be non-zero"@)
    } else if ls >= len {
        Some("Loop start beyond input buffer"@)
    } else if e > len {
        Some("End beyond input buffer"@)
    } else {
        None
    }
}

/// Checks a source buffer of `len` samples before any device is touched.
pub fn check_source(len: usize, sample_rate: u32, loop_start: Option<usize>, end: Option<usize>) -> (r: Result<(), String>)
    ensures
        match r {
            Ok(_) => source_error(len, sample_rate, loop_start, end).is_none(),
            Err(e) => source_error(len, sample_rate, loop_start, end) == Some(e@),
        },
{
    let ls = match loop_start {
        Some(s) => s,
        None => 0,
    };
    let e = match end {
        Some(e) => e,
        None => len,
    };
    if sample_rate == 0 {
        return Err("Sample rate must be non-zero".to_owned());
    }
    if ls >= len {
        return Err("Loop start beyond input buffer".to_owned());
    }
    if e > len {
        return Err("End beyond input buffer".to_owned());
    }
    Ok(())
}

/// Transport state as seen from outside: which of the four states it is in.
#[derive(Debug, Clone, Copy, PartialEq, Eq, Structural)]
pub enum PlayerStateTag {
    Stopped,
    Playing,
    PlayingLooped,
    Paused,
}

/// Where a paused stream stood, in output samples, and whether it looped.
#[derive(Debug, Clone, Copy, PartialEq, Eq, Structural)]
pub struct PlaybackState {
    pub playhead: usize,
    pub looped: bool,
}

/// The transport state; a playing state holds the one open output stream.
pub enum PlayerState<S> {
    Stopped,
    Playing(S),
    PlayingLooped(S),
    Paused(PlaybackState),
}

pub open spec fn tag_of<S>(state: PlayerState<S>) -> PlayerStateTag {
    match state {
        PlayerState::Stopped => PlayerStateTag::Stopped,
        PlayerState::Playing(_) => PlayerStateTag::Playing,
        PlayerState::PlayingLooped(_) => PlayerStateTag::PlayingLooped,
        PlayerState::Paused(_) => PlayerStateTag::Paused,
    }
}

impl<S> PlayerState<S> {
    pub fn state_tag(&self) -> (r: PlayerStateTag)
        ensures
            r == tag_of(*self),
    {
        match self {
            PlayerState::Stopped => PlayerStateTag::Stopped,
            PlayerState::Playing(_) => PlayerStateTag::Playing,
            PlayerState::PlayingLooped(_) => PlayerStateTag::PlayingLooped,
            PlayerState::Paused(_) => PlayerStateTag::Paused,
        }
    }
}

/// The state after a pause that read `playhead` once the stream was down: a
/// paused transport stays as it is; any other saves the playhead and whether
/// it was looping.
pub open spec fn paused_state<S>(state: PlayerState<S>, playhead: usize) -> PlayerState<S> {
    match state {
        PlayerState::Paused(saved) => PlayerState::Paused(saved),
        PlayerState::PlayingLooped(_) => PlayerState::Paused(PlaybackState { playhead, looped: true }),
        _ => PlayerState::Paused(PlaybackState { playhead, looped: false }),
    }
}

/// What an output stream is opened with: the first sample to read, the loop
/// start when looping, and the end of playable audio, all in output samples.
#[derive(Debug, Clone, Copy, PartialEq, Eq, Structural)]
pub struct StreamRequest {
    pub offset: usize,
    pub loop_start: Option<usize>,
    pub end: usize,
}

/// The playback transport over a rate-converted buffer of `end` samples: its
/// loop bounds in output samples, the shared playhead that the realtime
/// callback writes, and the state machine of play, pause, resume and stop.
pub struct Transport<S> {
    input_rate: u32,
    playback_rate: u32,
    loop_start: usize,
    end: usize,
    state: PlayerState<S>,
    playhead: Arc<AtomicUsize>,
}

impl<S> Transport<S> {
    #[verifier::type_invariant]
    spec fn bounds_hold(&self) -> bool {
        &&& self.input_rate > 0
        &&& self.playback_rate > 0
        &&& self.loop_start < self.end
        &&& self.end * self.input_rate <= usize::MAX
    }

    pub closed spec fn state_view(&self) -> PlayerState<S> {
        self.state
    }

    pub closed spec fn input_rate_view(&self) -> u32 {
        self.input_rate
    }

    pub closed spec fn playback_rate_view(&self) -> u32 {
        self.playback_rate
    }

    pub closed spec fn loop_start_view(&self) -> usize {
        self.loop_start
    }

    pub closed spec fn end_view(&self) -> usize {
        self.end
    }

    /// Both rates are positive and the loop starts before the end.
    pub open spec fn bounds(&self) -> bool {
        &&& self.input_rate_view() > 0
        &&& self.playback_rate_view() > 0
        &&& self.loop_start_view() < self.end_view()
    }

    /// The playhead in source samples for a stored playhead of `loaded`
    /// output samples, taken no further than the end.
    pub open spec fn playhead_of(&self, loaded: usize) -> Option<usize> {
        scaled(
            self.playback_rate_view(),
            self.input_rate_view(),
            if loaded < self.end_view() {
                loaded
            } else {
                self.end_view()
            },
        )
    }

    /// Source samples left before the end for a stored playhead of `loaded`
    /// output samples.
    pub open spec fn remaining_of(&self, loaded: usize) -> Option<usize> {
        scaled(
            self.playback_rate_view(),
            self.input_rate_view(),
            (self.end_view() - if loaded < self.end_view() {
                loaded
            } else {
                self.end_view()
            }) as usize,
        )
    }

    /// The stream request for playing from output sample `offset`.
    pub open spec fn request_for(&self, offset: usize, looped: bool) -> StreamRequest {
        StreamRequest {
            offset,
            loop_start: if looped {
                Some(self.loop_start_view())
            } else {
                None
            },
            end: self.end_view(),
        }
    }

    /// The stream that resume opens, if it opens one: from the start without
    /// looping when stopped, from the saved playhead with the saved looping
    /// when paused, none when already playing.
    pub open spec fn resume_request(&self) -> Option<StreamRequest> {
        match self.state_view() {
            PlayerState::Stopped => Some(self.request_for(0, false)),
            PlayerState::Paused(saved) => Some(self.request_for(saved.playhead, saved.looped)),
            _ => None,
        }
    }

    /// The transport for a source of `source_len` samples at `input_rate`,
    /// played from a buffer of `resampled_len` samples at `playback_rate`.
    /// Loop bounds are carried to the output rate; the end is cut to the
    /// converted buffer; the loop must still start before it ends.
    pub fn new(
        source_len: usize,
        input_rate: u32,
        loop_start: Option<usize>,
        end: Option<usize>,
        playback_rate: u32,
        resampled_len: usize,
        playhead: Arc<AtomicUsize>,
    ) -> (r: Result<Transport<S>, String>)
        ensures
            match r {
                Ok(t) => {
                    let ls = match loop_start {
                        Some(s) => s,
                        None => 0,
                    };
                    let e = match end {
                        Some(e) => e,
                        None => source_len,
                    };
                    &&& source_error(source_len, input_rate, loop_start, end).is_none()
                    &&& playback_rate > 0
                    &&& scaled(input_rate, playback_rate, e) is Some
                    &&& t.end_view() == if scaled(input_rate, playback_rate, e).unwrap() < resampled_len {
                        scaled(input_rate, playback_rate, e).unwrap()
                    } else {
                        resampled_len
                    }
                    &&& scaled(input_rate, playback_rate, ls) == Some(t.loop_start_view())
                    &&& t.loop_start_view() < t.end_view()
                    &&& t.input_rate_view() == input_rate
                    &&& t.playback_rate_view() == playback_rate
                    &&& t.state_view() is Stopped
                    &&& t.bounds()
                },
                Err(msg) => {
                    ||| source_error(source_len, input_rate, loop_start, end) == Some(msg@)
                    ||| source_error(source_len, input_rate, loop_start, end).is_none()
                        && new_error(input_rate, playback_rate, loop_start.unwrap_or(0),
                            end.unwrap_or(source_len), resampled_len) == Some(msg@)
                },
            },
    {
        check_source(source_len, input_rate, loop_start, end)?;
        let ls = match loop_start {
            Some(s) => s,
            None => 0,
        };
        let e = match end {
            Some(e) => e,
            None => source_len,
        };
        if playback_rate == 0 {
            return Err("Playback rate must be non-zero".to_owned());
        }
        let scaled_end = match scale_index(input_rate, playback_rate, e) {
            Some(x) => if x < resampled_len {
                x
            } else {
                resampled_len
            },
            None => {
                return Err("Scaled end too large".to_owned());
            },
        };
        if scaled_end > usize::MAX / (input_rate as usize) {
            return Err("Scaled end too large".to_owned());
        }
        let scaled_start = match scale_index(input_rate, playback_rate, ls) {
            Some(x) => x,
            None => {
                return Err("Scaled loop start too large".to_owned());
            },
        };
        if scaled_start >= scaled_end {
            return Err("Loop start is AT or AFTER end".to_owned());
        }
        proof {
            assert(scaled_end * input_rate <= usize::MAX) by (nonlinear_arith)
                requires
                    scaled_end <= (usize::MAX as int) / (input_rate as int),
                    input_rate > 0,
            ;
        }
        Ok(
            Transport {
                input_rate,
                playback_rate,
                loop_start: scaled_start,
                end: scaled_end,
                state: PlayerState::Stopped,
                playhead,
            },
        )
    }

    /// Tears down any stream and rewinds the playhead to the start.
    pub fn stop(&mut self)
        ensures
            final(self).state_view() is Stopped,
            final(self).input_rate_view() == old(self).input_rate_view(),
            final(self).playback_rate_view() == old(self).playback_rate_view(),
            final(self).loop_start_view() == old(self).loop_start_view(),
            final(self).end_view() == old(self).end_view(),
            final(self).bounds(),
    {
        proof {
            use_type_invariant(&*self);
        }
        self.state = PlayerState::Stopped;
        self.playhead.store(0, Ordering::Relaxed);
    }

    /// Pauses playback. The stream is torn down before the playhead is read,
    /// so the realtime callback has made its last write; the playhead read and
    /// whether playback was looping are kept for resume. A paused transport
    /// is left as it is.
    pub fn pause(&mut self)
        ensures
            exists|p: usize| final(self).state_view() == paused_state(old(self).state_view(), p),
            final(self).input_rate_view() == old(self).input_rate_view(),
            final(self).playback_rate_view() == old(self).playback_rate_view(),
            final(self).loop_start_view() == old(self).loop_start_view(),
            final(self).end_view() == old(self).end_view(),
            final(self).bounds(),
    {
        proof {
            use_type_invariant(&*self);
        }
        let looped = match &self.state {
            PlayerState::Paused(_) => {
                assert(self.state == paused_state(self.state, 0));
                return;
            },
            PlayerState::PlayingLooped(_) => true,
            _ => false,
        };
        let ghost before = self.state;
        self.state = PlayerState::Stopped;
        let playhead = self.playhead.load(Ordering::Relaxed);
        self.state = PlayerState::Paused(PlaybackState { looped, playhead });
        assert(self.state == paused_state(before, playhead));
    }

    /// Opens a stream from output sample `from`, after tearing down any
    /// stream that plays; the playhead is set to `from` first.
    fn start<F>(&mut self, from: usize, looped: bool, open: F) -> (r: Result<(), String>) where
        F: FnOnce(StreamRequest) -> Result<S, String>,

        requires
            forall|q: StreamRequest| #[trigger] open.requires((q,)),
        ensures
            final(self).input_rate_view() == old(self).input_rate_view(),
            final(self).playback_rate_view() == old(self).playback_rate_view(),
            final(self).loop_start_view() == old(self).loop_start_view(),
            final(self).end_view() == old(self).end_view(),
            final(self).bounds(),
            match r {
                Ok(_) => started(final(self).state_view(), looped, open, old(self).request_for(from, looped)),
                Err(e) => {
                    &&& open.ensures((old(self).request_for(from, looped),), Err(e))
                    &&& final(self).state_view() == torn_down(old(self).state_view())
                },
            },
    {
        proof {
            use_type_invariant(&*self);
        }
        match &self.state {
            PlayerState::PlayingLooped(_) | PlayerState::Playing(_) => {
                self.stop();
            },
            _ => {},
        }
        self.playhead.store(from, Ordering::Relaxed);
        let request = StreamRequest {
            offset: from,
            loop_start: if looped {
                Some(self.loop_start)
            } else {
                None
            },
            end: self.end,
        };
        let stream = open(request)?;
        proof {
            use_type_invariant(&*self);
        }
        self.state = if looped {
            PlayerState::PlayingLooped(stream)
        } else {
            PlayerState::Playing(stream)
        };
        Ok(())
    }

    /// Plays from source sample `play_from`, looping between the loop bounds
    /// or to the end once. `open` opens the output stream for a request.
    pub fn play<F>(&mut self, play_from: usize, looped: bool, open: F) -> (r: Result<(), String>) where
        F: FnOnce(StreamRequest) -> Result<S, String>,

        requires
            forall|q: StreamRequest| #[trigger] open.requires((q,)),
        ensures
            final(self).input_rate_view() == old(self).input_rate_view(),
            final(self).playback_rate_view() == old(self).playback_rate_view(),
            final(self).loop_start_view() == old(self).loop_start_view(),
            final(self).end_view() == old(self).end_view(),
            final(self).bounds(),
            match scaled(old(self).input_rate_view(), old(self).playback_rate_view(), play_from) {
                None => {
                    &&& r matches Err(e) && e@ == "Bad playhead position"@
                    &&& final(self).state_view() == old(self).state_view()
                },
                Some(from) => match r {
                    Ok(_) => started(final(self).state_view(), looped, open, old(self).request_for(from, looped)),
                    Err(e) => {
                        &&& open.ensures((old(self).request_for(from, looped),), Err(e))
                        &&& final(self).state_view() == torn_down(old(self).state_view())
                    },
                },
            },
    {
        proof {
            use_type_invariant(&*self);
        }
        let from = match scale_index(self.input_rate, self.playback_rate, play_from) {
            Some(x) => x,
            None => {
                return Err("Bad playhead position".to_owned());
            },
        };
        self.start(from, looped, open)
    }

    /// Resumes: plays from the start when stopped, from the saved playhead
    /// with the saved looping when paused, and does nothing when playing.
    pub fn resume<F>(&mut self, open: F) -> (r: Result<(), String>) where
        F: FnOnce(StreamRequest) -> Result<S, String>,

        requires
            forall|q: StreamRequest| #[trigger] open.requires((q,)),
        ensures
            final(self).input_rate_view() == old(self).input_rate_view(),
            final(self).playback_rate_view() == old(self).playback_rate_view(),
            final(self).loop_start_view() == old(self).loop_start_view(),
            final(self).end_view() == old(self).end_view(),
            final(self).bounds(),
            match old(self).resume_request() {
                None => r is Ok && final(self).state_view() == old(self).state_view(),
                Some(request) => match r {
                    Ok(_) => started(final(self).state_view(), request.loop_start is Some, open, request),
                    Err(e) => {
                        &&& open.ensures((request,), Err(e))
                        &&& final(self).state_view() == old(self).state_view()
                    },
                },
            },
    {
        proof {
            use_type_invariant(&*self);
        }
        match &self.state {
            PlayerState::PlayingLooped(_) | PlayerState::Playing(_) => Ok(()),
            PlayerState::Stopped => {
                proof {
                    assert(scaled(self.input_rate, self.playback_rate, 0) == Some(0usize));
                }
                self.play(0, false, open)
            },
            PlayerState::Paused(saved) => {
                let saved = *saved;
                self.start(saved.playhead, saved.looped, open)
            },
        }
    }

    /// The playhead in source samples, for a playhead of `loaded` output
    /// samples (as the realtime callback last stored it).
    pub fn playhead_from(&self, loaded: usize) -> (r: usize)
        ensures
            Some(r) == self.playhead_of(loaded),
    {
        let position = if loaded < self.end {
            loaded
        } else {
            self.end
        };
        self.to_source(position)
    }

    /// Source samples left before the end, for a playhead of `loaded` output
    /// samples.
    pub fn remaining_from(&self, loaded: usize) -> (r: usize)
        ensures
            Some(r) == self.remaining_of(loaded),
    {
        let left = if loaded < self.end {
            self.end - loaded
        } else {
            0
        };
        self.to_source(left)
    }

    /// The playhead in source samples, as the shared playhead holds it now.
    pub fn playhead(&self) -> (r: usize)
        ensures
            exists|loaded: usize| Some(r) == #[trigger] self.playhead_of(loaded),
    {
        let loaded = self.playhead.load(Ordering::Relaxed);
        self.playhead_from(loaded)
    }

    /// Source samples left to play, as the shared playhead holds it now.
    pub fn samples_remaining(&self) -> (r: usize)
        ensures
            exists|loaded: usize| Some(r) == #[trigger] self.remaining_of(loaded),
    {
        let loaded = self.playhead.load(Ordering::Relaxed);
        self.remaining_from(loaded)
    }

    /// An output-sample position up to the end, carried to source samples.
    fn to_source(&self, position: usize) -> (r: usize)
        requires
            position <= self.end_view(),
        ensures
            scaled(self.playback_rate_view(), self.input_rate_view(), position) == Some(r),
    {
        proof {
            use_type_invariant(self);
            assert(position * self.input_rate <= usize::MAX) by (nonlinear_arith)
                requires
                    position <= self.end,
                    self.end * self.input_rate <= usize::MAX,
            ;
            assert((position * self.input_rate) / (self.playback_rate as int) <= position * self.input_rate) by {
                vstd::arithmetic::div_mod::lemma_div_is_ordered_by_denominator(
                    position * self.input_rate,
                    1,
                    self.playback_rate as int,
                );
            }
        }
        match scale_index(self.playback_rate, self.input_rate, position) {
            Some(x) => x,
            None => 0,
        }
    }

    /// The end of playable audio in output samples: the converted buffer is
    /// played up to here.
    pub fn end(&self) -> (r: usize)
        ensures
            r == self.end_view(),
    {
        self.end
    }

    pub fn playback_rate(&self) -> (r: u32)
        ensures
            r == self.playback_rate_view(),
    {
        self.playback_rate
    }

    pub fn state(&self) -> (r: PlayerStateTag)
        ensures
            r == tag_of(self.state_view()),
    {
        self.state.state_tag()
    }
}

/// The state after a stream was opened for `request`: playing the stream that
/// `open` returned, looped or not as asked.
pub open spec fn started<S, F: FnOnce(StreamRequest) -> Result<S, String>>(
    state: PlayerState<S>,
    looped: bool,
    open: F,
    request: StreamRequest,
) -> bool {
    match state {
        PlayerState::Playing(s) => !looped && open.ensures((request,), Ok(s)),
        PlayerState::PlayingLooped(s) => looped && open.ensures((request,), Ok(s)),
        _ => false,
    }
}

/// The state once a playing stream has been torn down.
pub open spec fn torn_down<S>(state: PlayerState<S>) -> PlayerState<S> {
    match state {
        PlayerState::Playing(_) | PlayerState::PlayingLooped(_) => PlayerState::Stopped,
        _ => state,
    }
}

/// Why the transport cannot be built once the source has been checked, if it
/// cannot: a zero output rate, a loop end or start that does not fit once
/// carried to the output rate, or a loop that no longer starts before it
/// ends.
pub open spec fn new_error(input_rate: u32, playback_rate: u32, ls: usize, e: usize, resampled_len: usize) -> Option<Seq<char>> {
    if playback_rate == 0 {
        Some("Playback rate must be non-zero"@)
    } else if scaled(input_rate, playback_rate, e) is None {
        Some("Scaled end too large"@)
    } else {
        let se = scaled(input_rate, playback_rate, e).unwrap();
        let end = if se < resampled_len {
            se
        } else {
            resampled_len
        };
        if end > (usize::MAX as int) / (input_rate as int) {
            Some("Scaled end too large"@)
        } else if scaled(input_rate, playback_rate, ls) is None {
            Some("Scaled loop start too large"@)
        } else if scaled(input_rate, playback_rate, ls).unwrap() >= end {
            Some("Loop start is AT or AFTER end"@)
        } else {
            None
        }
    }
}

/// Pausing and then resuming plays on from where playback stood. Take a
/// playing transport, and the transport after a pause that read playhead `p`
/// (same bounds, state as pause leaves it): resume opens a stream at exactly
/// `p`, looping exactly when playback looped before the pause, so the
/// playhead reported in source samples is the one seen at the pause.
pub proof fn lemma_pause_resume<S>(playing: Transport<S>, paused: Transport<S>, p: usize)
    requires
        playing.state_view() is Playing || playing.state_view() is PlayingLooped,
        paused.state_view() == paused_state(playing.state_view(), p),
        paused.loop_start_view() == playing.loop_start_view(),
        paused.end_view() == playing.end_view(),
    ensures
        paused.resume_request() == Some(playing.request_for(p, playing.state_view() is PlayingLooped)),
        paused.resume_request().unwrap().offset == p,
        paused.resume_request().unwrap().loop_start is Some <==> playing.state_view() is PlayingLooped,
{
}

} // verus!
