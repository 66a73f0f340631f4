use vstd::prelude::*;

verus! {

/// One step of looped playback: to the next sample, or back to the loop start
/// from the last sample before the end.
pub open spec fn advance(x: int, loop_start: int, end: int) -> int {
    if x + 1 < end {
        x + 1
    } else {
        loop_start
    }
}

/// An offset at or past the end, folded back into the loop.
pub open spec fn wrap_offset(o: int, loop_start: int, end: int) -> int {
    if o >= end {
        (o - loop_start) % (end - loop_start) + loop_start
    } else {
        o
    }
}

/// The read position `k` samples after position `x` in looped playback.
pub open spec fn loop_position(x: int, k: nat, loop_start: int, end: int) -> int
    decreases k,
{
    if k == 0 {
        x
    } else {
        advance(loop_position(x, (k - 1) as nat, loop_start, end), loop_start, end)
    }
}

/// The mono sample emitted at frame `f` of a request that starts at `offset`.
pub open spec fn emitted<T>(
    samples: Seq<T>,
    offset: int,
    loop_start: Option<usize>,
    end: int,
    f: nat,
    silence: T,
) -> T {
    match loop_start {
        Some(ls) => samples[loop_position(wrap_offset(offset, ls as int, end), f, ls as int, end)],
        None => if offset + f < end {
            samples[offset + f]
        } else {
            silence
        },
    }
}

/// The offset after a request of `n` frames that starts at `offset`, clamped
/// to the buffer length `len`.
pub open spec fn offset_after(offset: int, loop_start: Option<usize>, end: int, n: nat, len: int) -> int {
    match loop_start {
        Some(ls) => loop_position(wrap_offset(offset, ls as int, end), n, ls as int, end),
        None => {
            let o = if offset < end {
                offset + n
            } else {
                offset
            };
            if o < len {
                o
            } else {
                len
            }
        },
    }
}

/// The read state of one output stream: where the next request starts, the
/// loop start when looping, and the end of playable audio.
pub struct StreamCursor {
    pub offset: usize,
    pub loop_start: Option<usize>,
    pub end: usize,
}

impl StreamCursor {
    /// A loop, when there is one, is a non-empty range that ends at `end`.
    pub open spec fn wf(&self) -> bool {
        match self.loop_start {
            Some(ls) => ls < self.end,
            None => true,
        }
    }

    pub fn new(offset: usize, loop_start: Option<usize>, end: usize) -> (r: StreamCursor)
        ensures
            r.offset == offset,
            r.loop_start == loop_start,
            r.end == end,
    {
        StreamCursor { offset, loop_start, end }
    }

    /// Fills one device buffer of `channels` interleaved channels: frame `f`
    /// carries, on every channel, the mono sample that playback reaches `f`
    /// samples after the current offset (looping back to the loop start at
    /// the end, or silence past the end without a loop). The offset moves on
    /// by the whole buffer, and the new playhead is returned.
    pub fn fill<T: Copy>(&mut self, samples: &[T], buf: &mut [T], channels: usize, silence: T) -> (r: usize)
        requires
            old(self).wf(),
            old(self).end <= samples@.len(),
            channels >= 1,
            old(buf)@.len() as int % (channels as int) == 0,
        ensures
            final(self).wf(),
            final(self).loop_start == old(self).loop_start,
            final(self).end == old(self).end,
            final(self).offset as int == offset_after(
                old(self).offset as int,
                old(self).loop_start,
                old(self).end as int,
                (old(buf)@.len() as int / (channels as int)) as nat,
                samples@.len() as int,
            ),
            r == final(self).offset,
            r <= samples@.len(),
            final(buf)@.len() == old(buf)@.len(),
            forall|i: int|
                0 <= i < final(buf)@.len() ==> #[trigger] final(buf)@[i] == emitted(
                    samples@,
                    old(self).offset as int,
                    old(self).loop_start,
                    old(self).end as int,
                    (i / (channels as int)) as nat,
                    silence,
                ),
    {
        let blen = buf.len();
        let frames = blen / channels;
        proof {
            vstd::arithmetic::div_mod::lemma_fundamental_div_mod(blen as int, channels as int);
            assert(frames * channels == blen) by (nonlinear_arith)
                requires
                    blen == channels * (blen as int / channels as int) + blen as int % channels as int,
                    blen as int % channels as int == 0,
                    frames == blen as int / channels as int,
            ;
        }
        let ghost o = self.offset as int;
        let ghost e = self.end as int;
        let ghost ls_opt = self.loop_start;
        match self.loop_start {
            Some(ls) => {
                let mut pos = self.offset;
                if pos >= self.end {
                    pos = (pos - ls) % (self.end - ls) + ls;
                }
                let ghost start = pos as int;
                assert(start == wrap_offset(o, ls as int, e));
                let mut f: usize = 0;
                while f < frames
                    invariant
                        frames == buf@.len() as int / (channels as int),
                        frames * channels == blen,
                        blen == buf@.len(),
                        buf@.len() == old(buf)@.len(),
                        channels >= 1,
                        buf@.len() as int % (channels as int) == 0,
                        ls < e <= samples@.len(),
                        e == self.end,
                        ls_opt == Some(ls),
                        0 <= f <= frames,
                        pos as int == loop_position(start, f as nat, ls as int, e),
                        pos < e,
                        start == wrap_offset(o, ls as int, e),
                        forall|i: int|
                            0 <= i < f * channels ==> #[trigger] buf@[i] == emitted(
                                samples@,
                                o,
                                ls_opt,
                                e,
                                (i / (channels as int)) as nat,
                                silence,
                            ),
                    decreases frames - f,
                {
                    let v = samples[pos];
                    assert(v == emitted(samples@, o, ls_opt, e, f as nat, silence));
                    proof {
                        lemma_frame_bounds(f as int, frames as int, channels as int, buf@.len() as int);
                    }
                    let base = f * channels;
                    let mut c: usize = 0;
                    while c < channels
                        invariant
                            buf@.len() == old(buf)@.len(),
                            blen == buf@.len(),
                            base == f * channels,
                            base + channels <= buf@.len(),
                            0 <= c <= channels,
                            forall|i: int|
                                0 <= i < base ==> #[trigger] buf@[i] == emitted(
                                    samples@,
                                    o,
                                    ls_opt,
                                    e,
                                    (i / (channels as int)) as nat,
                                    silence,
                                ),
                            forall|i: int| base <= i < base + c ==> #[trigger] buf@[i] == v,
                        decreases channels - c,
                    {
                        buf[base + c] = v;
                        c = c + 1;
                    }
                    proof {
                        assert forall|i: int| 0 <= i < (f + 1) * channels implies #[trigger] buf@[i] == emitted(
                            samples@,
                            o,
                            ls_opt,
                            e,
                            (i / (channels as int)) as nat,
                            silence,
                        ) by {
                            if i >= base {
                                lemma_frame_of(i, f as int, channels as int);
                            }
                        }
                    }
                    pos = if pos + 1 < self.end {
                        pos + 1
                    } else {
                        ls
                    };
                    f = f + 1;
                }
                self.offset = pos;
                pos
            },
            None => {
                let mut f: usize = 0;
                while f < frames
                    invariant
                        frames == buf@.len() as int / (channels as int),
                        frames * channels == blen,
                        blen == buf@.len(),
                        buf@.len() == old(buf)@.len(),
                        channels >= 1,
                        buf@.len() as int % (channels as int) == 0,
                        e == self.end,
                        e <= samples@.len(),
                        o == self.offset,
                        ls_opt.is_none(),
                        0 <= f <= frames,
                        forall|i: int|
                            0 <= i < f * channels ==> #[trigger] buf@[i] == emitted(
                                samples@,
                                o,
                                ls_opt,
                                e,
                                (i / (channels as int)) as nat,
                                silence,
                            ),
                    decreases frames - f,
                {
                    let v = if self.offset < self.end && f < self.end - self.offset {
                        samples[self.offset + f]
                    } else {
                        silence
                    };
                    assert(v == emitted(samples@, o, ls_opt, e, f as nat, silence));
                    proof {
                        lemma_frame_bounds(f as int, frames as int, channels as int, buf@.len() as int);
                    }
                    let base = f * channels;
                    let mut c: usize = 0;
                    while c < channels
                        invariant
                            buf@.len() == old(buf)@.len(),
                            blen == buf@.len(),
                            base == f * channels,
                            base + channels <= buf@.len(),
                            0 <= c <= channels,
                            forall|i: int|
                                0 <= i < base ==> #[trigger] buf@[i] == emitted(
                                    samples@,
                                    o,
                                    ls_opt,
                                    e,
                                    (i / (channels as int)) as nat,
                                    silence,
                                ),
                            forall|i: int| base <= i < base + c ==> #[trigger] buf@[i] == v,
                        decreases channels - c,
                    {
                        buf[base + c] = v;
                        c = c + 1;
                    }
                    proof {
                        assert forall|i: int| 0 <= i < (f + 1) * channels implies #[trigger] buf@[i] == emitted(
                            samples@,
                            o,
                            ls_opt,
                            e,
                            (i / (channels as int)) as nat,
                            silence,
                        ) by {
                            if i >= base {
                                lemma_frame_of(i, f as int, channels as int);
                            }
                        }
                    }
                    f = f + 1;
                }
                let len = samples.len();
                let next = if self.offset < self.end {
                    if frames >= len - self.offset {
                        len
                    } else {
                        self.offset + frames
                    }
                } else if self.offset < len {
                    self.offset
                } else {
                    len
                };
                self.offset = next;
                next
            },
        }
    }
}

/// Looped playback that starts before the loop end never reads at or past it.
pub proof fn lemma_loop_position_in_bounds(x: int, k: nat, loop_start: int, end: int)
    requires
        0 <= loop_start < end,
        0 <= x < end,
    ensures
        0 <= loop_position(x, k, loop_start, end) < end,
    decreases k,
{
    if k > 0 {
        lemma_loop_position_in_bounds(x, (k - 1) as nat, loop_start, end);
    }
}

/// A request of `n` frames followed by one of `m` frames reads what one
/// request of `n + m` frames reads: successive device buffers continue one
/// another.
pub proof fn lemma_loop_position_continues(x: int, n: nat, m: nat, loop_start: int, end: int)
    ensures
        loop_position(loop_position(x, n, loop_start, end), m, loop_start, end) == loop_position(
            x,
            n + m,
            loop_start,
            end,
        ),
    decreases m,
{
    if m > 0 {
        lemma_loop_position_continues(x, n, (m - 1) as nat, loop_start, end);
        assert((n + m - 1) as nat == n + (m - 1) as nat);
    }
}

proof fn lemma_loop_position_closed_form(x: int, k: nat, loop_start: int, end: int)
    requires
        loop_start <= x < end,
    ensures
        loop_position(x, k, loop_start, end) == loop_start + (x - loop_start + k) % (end - loop_start),
    decreases k,
{
    let len = end - loop_start;
    if k == 0 {
        vstd::arithmetic::div_mod::lemma_small_mod((x - loop_start) as nat, len as nat);
    } else {
        lemma_loop_position_closed_form(x, (k - 1) as nat, loop_start, end);
        let prev = (x - loop_start + k - 1) % len;
        vstd::arithmetic::div_mod::lemma_fundamental_div_mod(x - loop_start + k - 1, len);
        vstd::arithmetic::div_mod::lemma_mod_bound(x - loop_start + k - 1, len);
        if prev + 1 < len {
            vstd::arithmetic::div_mod::lemma_mod_add_multiples_vanish(prev + 1, len);
            assert((x - loop_start + k) % len == prev + 1) by {
                vstd::arithmetic::div_mod::lemma_fundamental_div_mod_converse(
                    x - loop_start + k,
                    len,
                    (x - loop_start + k - 1) / len,
                    prev + 1,
                );
            }
        } else {
            assert((x - loop_start + k) % len == 0) by {
                let q = (x - loop_start + k - 1) / len;
                assert((q + 1) * len == q * len + len) by (nonlinear_arith);
                assert(q * len == len * q) by (nonlinear_arith);
                vstd::arithmetic::div_mod::lemma_fundamental_div_mod_converse(
                    x - loop_start + k,
                    len,
                    (x - loop_start + k - 1) / len + 1,
                    0,
                );
            }
        }
    }
}

/// Once looped playback is inside the loop, what it reads repeats with the
/// loop length as its period.
pub proof fn lemma_loop_periodic(x: int, j: nat, k: nat, loop_start: int, end: int)
    requires
        0 <= loop_start < end,
        loop_start <= loop_position(x, j, loop_start, end) < end,
        j <= k,
    ensures
        loop_position(x, k + (end - loop_start) as nat, loop_start, end) == loop_position(
            x,
            k,
            loop_start,
            end,
        ),
{
    let len = end - loop_start;
    let y = loop_position(x, j, loop_start, end);
    let d = (k - j) as nat;
    lemma_loop_position_continues(x, j, d, loop_start, end);
    lemma_loop_position_continues(x, j, d + len as nat, loop_start, end);
    assert(j + d == k);
    assert(j + (d + len as nat) == k + len as nat);
    lemma_loop_position_closed_form(y, d, loop_start, end);
    lemma_loop_position_closed_form(y, d + len as nat, loop_start, end);
    vstd::arithmetic::div_mod::lemma_mod_add_multiples_vanish(y - loop_start + d, len);
    assert(y - loop_start + (d + len as nat) == len + (y - loop_start + d));
}

/// Looped playback, from any offset and over any run of device buffers, reads
/// only inside the buffer: the offset is first folded before the loop end,
/// and every later read position stays before it. Once a read position lies
/// in the loop, what is read from there on repeats with the loop length as
/// its period.
pub proof fn lemma_looped_reads(offset: int, loop_start: int, end: int, len: int, j: nat, k: nat)
    requires
        0 <= loop_start < end <= len,
        0 <= offset,
    ensures
        0 <= wrap_offset(offset, loop_start, end) < end,
        0 <= loop_position(wrap_offset(offset, loop_start, end), k, loop_start, end) < len,
        j <= k && loop_start <= loop_position(wrap_offset(offset, loop_start, end), j, loop_start, end) < end
            ==> loop_position(wrap_offset(offset, loop_start, end), k + (end - loop_start) as nat, loop_start, end)
            == loop_position(wrap_offset(offset, loop_start, end), k, loop_start, end),
{
    if offset >= end {
        vstd::arithmetic::div_mod::lemma_mod_bound(offset - loop_start, end - loop_start);
    }
    let start = wrap_offset(offset, loop_start, end);
    lemma_loop_position_in_bounds(start, k, loop_start, end);
    if j <= k && loop_start <= loop_position(start, j, loop_start, end) < end {
        lemma_loop_periodic(start, j, k, loop_start, end);
    }
}

/// Successive device buffers continue one another: what a request of `f`
/// frames emits after a request of `n` frames (starting where that one left
/// the offset) is what one request of `n + f` frames emits at frame `n + f`.
pub proof fn lemma_fills_continue<T>(
    samples: Seq<T>,
    offset: int,
    loop_start: Option<usize>,
    end: int,
    n: nat,
    f: nat,
    silence: T,
)
    requires
        0 <= offset,
        end <= samples.len(),
        loop_start matches Some(ls) ==> ls < end,
    ensures
        emitted(samples, offset_after(offset, loop_start, end, n, samples.len() as int), loop_start, end, f, silence)
            == emitted(samples, offset, loop_start, end, n + f, silence),
{
    match loop_start {
        Some(ls) => {
            lemma_looped_reads(offset, ls as int, end, samples.len() as int, 0, n);
            let start = wrap_offset(offset, ls as int, end);
            let next = loop_position(start, n, ls as int, end);
            assert(wrap_offset(next, ls as int, end) == next);
            lemma_loop_position_continues(start, n, f, ls as int, end);
        },
        None => {},
    }
}

proof fn lemma_loop_position_straight(x: int, j: nat, loop_start: int, end: int)
    requires
        x + j < end,
    ensures
        loop_position(x, j, loop_start, end) == x + j,
    decreases j,
{
    if j > 0 {
        lemma_loop_position_straight(x, (j - 1) as nat, loop_start, end);
    }
}

/// What looped playback emits is periodic with the loop length as its
/// period from the first frame it reads inside the loop on: frame `k0`,
/// where `k0` is how far the (folded) start offset lies before the loop
/// start. With `lemma_fills_continue`, this holds of the frames of any run of
/// successive device buffers taken together.
pub proof fn lemma_looped_output_periodic<T>(
    samples: Seq<T>,
    offset: int,
    loop_start: usize,
    end: int,
    k: nat,
    silence: T,
)
    requires
        0 <= offset,
        loop_start < end <= samples.len(),
        k >= ({
            let start = wrap_offset(offset, loop_start as int, end);
            if start < loop_start { loop_start - start } else { 0 }
        }),
    ensures
        emitted(samples, offset, Some(loop_start), end, k + (end - loop_start) as nat, silence) == emitted(
            samples,
            offset,
            Some(loop_start),
            end,
            k,
            silence,
        ),
{
    let ls = loop_start as int;
    lemma_looped_reads(offset, ls, end, samples.len() as int, 0, 0);
    let start = wrap_offset(offset, ls, end);
    let k0: nat = if start < ls { (ls - start) as nat } else { 0 };
    if start < ls {
        lemma_loop_position_straight(start, k0, ls, end);
    }
    lemma_loop_periodic(start, k0, k, ls, end);
}

/// Across successive device buffers of looped playback: once `n` frames have
/// been emitted by earlier buffers, the next buffers emit frame `f` and frame
/// `f` plus the loop length alike, whenever `n + f` is at or past the first
/// frame read inside the loop.
pub proof fn lemma_successive_fills_periodic<T>(
    samples: Seq<T>,
    offset: int,
    loop_start: usize,
    end: int,
    n: nat,
    f: nat,
    silence: T,
)
    requires
        0 <= offset,
        loop_start < end <= samples.len(),
        n + f >= ({
            let start = wrap_offset(offset, loop_start as int, end);
            if start < loop_start { loop_start - start } else { 0 }
        }),
    ensures
        ({
            let next = offset_after(offset, Some(loop_start), end, n, samples.len() as int);
            emitted(samples, next, Some(loop_start), end, f + (end - loop_start) as nat, silence) == emitted(
                samples,
                next,
                Some(loop_start),
                end,
                f,
                silence,
            )
        }),
{
    let period = (end - loop_start) as nat;
    lemma_fills_continue(samples, offset, Some(loop_start), end, n, f, silence);
    lemma_fills_continue(samples, offset, Some(loop_start), end, n, f + period, silence);
    lemma_looped_output_periodic(samples, offset, loop_start, end, n + f, silence);
    assert(n + (f + period) == (n + f) + period);
}

proof fn lemma_frame_bounds(f: int, frames: int, channels: int, len: int)
    requires
        0 <= f < frames,
        channels >= 1,
        frames == len / channels,
        len >= 0,
    ensures
        f * channels + channels <= len,
        (f + 1) * channels == f * channels + channels,
{
    assert(channels * (len / channels) <= len) by {
        vstd::arithmetic::div_mod::lemma_fundamental_div_mod(len, channels);
    }
    assert(f * channels + channels <= len) by (nonlinear_arith)
        requires
            0 <= f < frames,
            channels >= 1,
            channels * frames <= len,
    ;
    assert((f + 1) * channels == f * channels + channels) by (nonlinear_arith);
}

proof fn lemma_frame_of(i: int, f: int, channels: int)
    requires
        channels >= 1,
        f >= 0,
        f * channels <= i < (f + 1) * channels,
    ensures
        i / channels == f,
{
    vstd::arithmetic::div_mod::lemma_fundamental_div_mod(i, channels);
    let q = i / channels;
    let r = i % channels;
    assert(q == f) by (nonlinear_arith)
        requires
            i == channels * q + r,
            0 <= r < channels,
            f * channels <= i < (f + 1) * channels,
            channels >= 1,
    ;
}

} // verus!
