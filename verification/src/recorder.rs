//! Decisions taken by the audio recorder while a recording runs.
//!
//! The audio callback converts samples, measures loudness and writes the
//! WAV file; what it writes and when it stops is decided here:
//! - [`VadGate`] keeps silence out of the recording, with pre-roll and
//!   tail padding around speech;
//! - [`SilenceAutoStop`] ends a wake-word recording after a stretch of
//!   silence that follows speech;
//! - [`DurationLimit`] reports, once, that the maximum duration is reached.

use vstd::prelude::*;
use std::collections::VecDeque;

verus! {

/// Maximum duration of a recording, in seconds.
pub const MAX_RECORDING_DURATION_SECS: u64 = 300;

/// Silence, in milliseconds, after which a wake-word recording stops.
pub const SILENCE_AUTO_STOP_MS: u64 = 1500;

/// Interval, in milliseconds, between two loudness decisions.
pub const LEVEL_TICK_MS: u64 = 33;

/// A recording lasts at most five minutes, a wake-word recording stops
/// after one and a half seconds of silence, and loudness is judged about
/// thirty times a second.
pub proof fn lemma_recorder_limits()
    ensures
        MAX_RECORDING_DURATION_SECS == 5 * 60,
        SILENCE_AUTO_STOP_MS == 1500,
        LEVEL_TICK_MS == 33,
{
}

/// The last `n` items of `s` (all of `s` when it is shorter).
pub open spec fn keep_last(s: Seq<i16>, n: nat) -> Seq<i16> {
    if s.len() <= n {
        s
    } else {
        s.subrange(s.len() - n, s.len() as int)
    }
}

/// `a` is what remains of `b` after some of its first items are dropped.
pub open spec fn is_suffix(a: Seq<i16>, b: Seq<i16>) -> bool {
    a.len() <= b.len() && a == b.subrange(b.len() - a.len(), b.len() as int)
}

// ---------------------------------------------------------------------
// Voice-activity filter
// ---------------------------------------------------------------------

/// Voice-activity filter: at each loudness tick it receives the samples
/// gathered since the previous tick and whether they hold speech, and
/// returns the samples to write.
///
/// Speech is always written. The first silent ticks after speech are
/// written too until `max_padding` samples of tail padding have gone out.
/// Further silence is held back, the most recent `max_padding` samples of
/// it in a buffer, and written ahead of the next speech as pre-roll.
pub struct VadGate {
    in_speech: bool,
    tail_left: usize,
    buffer: VecDeque<i16>,
    max_padding: usize,
}

impl VadGate {
    /// Whether the last tick held speech.
    pub closed spec fn in_speech(&self) -> bool {
        self.in_speech
    }

    /// Samples of tail padding still to be written after speech.
    pub closed spec fn tail_left(&self) -> nat {
        self.tail_left as nat
    }

    /// Silent samples held back as pre-roll, oldest first.
    pub closed spec fn buffered(&self) -> Seq<i16> {
        self.buffer@
    }

    /// Number of samples of padding kept before and after speech.
    pub closed spec fn max_padding(&self) -> nat {
        self.max_padding as nat
    }

    /// Well-formedness: the held-back samples never outnumber the padding, and
    /// silence is held back only while neither speech nor its tail goes out.
    pub open spec fn wf(&self) -> bool {
        &&& self.buffered().len() <= self.max_padding()
        &&& self.in_speech() ==> self.tail_left() == 0
        &&& (self.in_speech() || self.tail_left() > 0) ==> self.buffered().len() == 0
    }

    /// A filter at the start of a recording: in silence, nothing held back.
    pub fn new(max_padding: usize) -> (g: Self)
        ensures
            g.wf(),
            !g.in_speech(),
            g.tail_left() == 0,
            g.buffered().len() == 0,
            g.max_padding() == max_padding,
    {
        VadGate { in_speech: false, tail_left: 0, buffer: VecDeque::new(), max_padding }
    }

    /// One loudness tick: `pending` holds the samples gathered since the
    /// previous tick, `is_speech` whether their loudness reached the
    /// threshold. Returns the samples to write, in order.
    pub fn process(&mut self, pending: &Vec<i16>, is_speech: bool) -> (written: Vec<i16>)
        requires
            old(self).wf(),
        ensures
            final(self).wf(),
            final(self).max_padding() == old(self).max_padding(),
            // speech after silence: pre-roll then the tick's samples
            is_speech && !old(self).in_speech() ==> {
                &&& written@ == old(self).buffered() + pending@
                &&& final(self).in_speech()
                &&& final(self).buffered().len() == 0
            },
            // speech goes on
            is_speech && old(self).in_speech() ==> {
                &&& written@ == pending@
                &&& final(self).in_speech()
                &&& final(self).buffered().len() == 0
            },
            // first silence after speech: written, tail padding starts
            !is_speech && old(self).in_speech() ==> {
                &&& written@ == pending@
                &&& !final(self).in_speech()
                &&& final(self).tail_left() == if pending@.len() < old(self).max_padding() {
                    (old(self).max_padding() - pending@.len()) as nat
                } else {
                    0
                }
                &&& final(self).buffered().len() == 0
            },
            // silence within the tail padding: written, padding counts down
            !is_speech && !old(self).in_speech() && old(self).tail_left() > 0 ==> {
                &&& written@ == pending@
                &&& !final(self).in_speech()
                &&& final(self).tail_left() == if pending@.len() < old(self).tail_left() {
                    (old(self).tail_left() - pending@.len()) as nat
                } else {
                    0
                }
                &&& final(self).buffered().len() == 0
            },
            // silence beyond the padding: held back, most recent samples only
            !is_speech && !old(self).in_speech() && old(self).tail_left() == 0 ==> {
                &&& written@.len() == 0
                &&& !final(self).in_speech()
                &&& final(self).tail_left() == 0
                &&& final(self).buffered() == keep_last(
                    old(self).buffered() + pending@,
                    old(self).max_padding(),
                )
            },
            // no sample is duplicated or reordered: what is written, then
            // what stays held back, is what was held back and received,
            // less some of its oldest samples
            is_suffix(written@ + final(self).buffered(), old(self).buffered() + pending@),
            // speech is never dropped
            is_speech ==> is_suffix(pending@, written@),
    {
        let ghost old_buf = self.buffer@;
        let mut written: Vec<i16> = Vec::new();
        if is_speech {
            if !self.in_speech {
                // silence -> speech: flush the pre-roll first
                while self.buffer.len() > 0
                    invariant
                        self.max_padding == old(self).max_padding,
                        self.in_speech == old(self).in_speech,
                        self.tail_left == old(self).tail_left,
                        written@ + self.buffer@ == old_buf,
                    decreases self.buffer@.len(),
                {
                    let s = self.buffer.pop_front();
                    match s {
                        Some(x) => {
                            written.push(x);
                        },
                        None => {},
                    }
                    assert(written@ + self.buffer@ =~= old_buf);
                }
                assert(written@ =~= old_buf);
                self.in_speech = true;
                self.tail_left = 0;
            }
            push_all(&mut written, pending);
        } else if self.in_speech || self.tail_left > 0 {
            push_all(&mut written, pending);
            if self.in_speech {
                self.in_speech = false;
                self.tail_left = self.max_padding.saturating_sub(pending.len());
            } else {
                self.tail_left = self.tail_left.saturating_sub(pending.len());
            }
        } else {
            let mut k: usize = 0;
            while k < pending.len()
                invariant
                    self.max_padding == old(self).max_padding,
                    self.in_speech == old(self).in_speech,
                    self.tail_left == old(self).tail_left,
                    k <= pending.len(),
                    self.buffer@ == old_buf + pending@.take(k as int),
                decreases pending.len() - k,
            {
                self.buffer.push_back(pending[k]);
                k += 1;
                assert(self.buffer@ =~= old_buf + pending@.take(k as int));
            }
            assert(pending@.take(k as int) =~= pending@);
            let ghost all = self.buffer@;
            while self.buffer.len() > self.max_padding
                invariant
                    self.max_padding == old(self).max_padding,
                    self.in_speech == old(self).in_speech,
                    self.tail_left == old(self).tail_left,
                    self.buffer@.len() <= all.len(),
                    self.buffer@ == all.subrange(all.len() - self.buffer@.len(), all.len() as int),
                    self.buffer@.len() >= self.max_padding || self.buffer@ == all,
                decreases self.buffer@.len(),
            {
                let _ = self.buffer.pop_front();
                assert(self.buffer@ =~= all.subrange(
                    all.len() - self.buffer@.len(),
                    all.len() as int,
                ));
            }
            assert(all.subrange(0, all.len() as int) =~= all);
        }
        proof {
            let ab = old_buf + pending@;
            let wb = written@ + self.buffer@;
            if is_speech || old(self).in_speech() || old(self).tail_left() > 0 {
                assert(wb =~= ab.subrange(ab.len() - wb.len(), ab.len() as int));
            } else {
                assert(wb =~= self.buffer@);
            }
            if is_speech {
                assert(pending@ =~= written@.subrange(
                    written@.len() - pending@.len(),
                    written@.len() as int,
                ));
            }
        }
        written
    }
}

fn push_all(out: &mut Vec<i16>, items: &Vec<i16>)
    ensures
        final(out)@ == old(out)@ + items@,
{
    let mut k: usize = 0;
    while k < items.len()
        invariant
            k <= items.len(),
            out@ == old(out)@ + items@.take(k as int),
        decreases items.len() - k,
    {
        out.push(items[k]);
        k += 1;
        assert(out@ =~= old(out)@ + items@.take(k as int));
    }
    assert(items@.take(items.len() as int) =~= items@);
}

// ---------------------------------------------------------------------
// Silence auto-stop of wake-word recordings
// ---------------------------------------------------------------------

/// Silence auto-stop of a wake-word recording: once speech has been
/// heard, a stretch of silence of [`SILENCE_AUTO_STOP_MS`] stops the
/// recording, once.
pub struct SilenceAutoStop {
    speech_started: bool,
    silence_since: Option<u64>,
    triggered: bool,
}

impl SilenceAutoStop {
    /// Whether speech has been heard.
    pub closed spec fn speech_started(&self) -> bool {
        self.speech_started
    }

    /// When the current silence began (milliseconds into the recording).
    pub closed spec fn silence_since(&self) -> Option<u64> {
        self.silence_since
    }

    /// Whether the stop has been requested.
    pub closed spec fn triggered(&self) -> bool {
        self.triggered
    }

    pub fn new() -> (a: Self)
        ensures
            !a.speech_started(),
            a.silence_since() is None,
            !a.triggered(),
    {
        SilenceAutoStop { speech_started: false, silence_since: None, triggered: false }
    }

    /// One loudness tick at `now_ms` milliseconds into the recording:
    /// `loud` whether the loudness reached the speech threshold, `quiet`
    /// whether it stayed below the silence threshold. Returns whether the
    /// recording must stop now.
    pub fn observe(&mut self, loud: bool, quiet: bool, now_ms: u64) -> (stop: bool)
        ensures
            // nothing changes once the stop has been requested
            old(self).triggered() ==> !stop && *final(self) == *old(self),
            !old(self).triggered() ==> {
                let started = old(self).speech_started() || loud;
                let since = if !started {
                    old(self).silence_since()
                } else if !quiet {
                    None
                } else if old(self).silence_since() is Some {
                    old(self).silence_since()
                } else {
                    Some(now_ms)
                };
                let fire = started && quiet && now_ms >= since->0 && now_ms - since->0
                    >= SILENCE_AUTO_STOP_MS;
                &&& final(self).speech_started() == started
                &&& final(self).silence_since() == since
                &&& stop == fire
                &&& final(self).triggered() == fire
            },
            // a stop comes only after speech, on a quiet tick, after a
            // silence that began at least the auto-stop delay ago
            stop ==> {
                &&& !old(self).triggered()
                &&& final(self).triggered()
                &&& final(self).speech_started()
                &&& quiet
                &&& final(self).silence_since() matches Some(t) && t <= now_ms && now_ms - t
                    >= SILENCE_AUTO_STOP_MS
            },
    {
        if self.triggered {
            return false;
        }
        if loud {
            self.speech_started = true;
        }
        if self.speech_started {
            if quiet {
                if self.silence_since.is_none() {
                    self.silence_since = Some(now_ms);
                }
                match self.silence_since {
                    Some(start) => {
                        if now_ms >= start && now_ms - start >= SILENCE_AUTO_STOP_MS {
                            self.triggered = true;
                            return true;
                        }
                    },
                    None => {},
                }
            } else {
                self.silence_since = None;
            }
        }
        false
    }
}

// ---------------------------------------------------------------------
// Maximum duration
// ---------------------------------------------------------------------

/// Reports, once, that a recording has reached
/// [`MAX_RECORDING_DURATION_SECS`].
pub struct DurationLimit {
    reached: bool,
}

impl DurationLimit {
    /// Whether the limit has been reported.
    pub closed spec fn reached(&self) -> bool {
        self.reached
    }

    pub fn new() -> (d: Self)
        ensures
            !d.reached(),
    {
        DurationLimit { reached: false }
    }

    /// Called with the time elapsed since the recording began; returns
    /// whether the limit is reached now for the first time.
    pub fn check(&mut self, elapsed_secs: u64) -> (first: bool)
        ensures
            first == (!old(self).reached() && elapsed_secs >= MAX_RECORDING_DURATION_SECS),
            final(self).reached() == (old(self).reached() || first),
    {
        if !self.reached && elapsed_secs >= MAX_RECORDING_DURATION_SECS {
            self.reached = true;
            true
        } else {
            false
        }
    }
}

// ---------------------------------------------------------------------
// The voice-activity filter over a whole recording
// ---------------------------------------------------------------------

/// All the sample blocks, one after the other.
pub open spec fn concat_all(blocks: Seq<Seq<i16>>) -> Seq<i16>
    decreases blocks.len(),
{
    if blocks.len() == 0 {
        Seq::empty()
    } else {
        concat_all(blocks.drop_last()) + blocks.last()
    }
}

/// `f` places the items of `a`, in order, among those of `b`.
pub open spec fn embeds(f: Seq<int>, a: Seq<i16>, b: Seq<i16>) -> bool {
    &&& f.len() == a.len()
    &&& forall|i: int| 0 <= i < f.len() ==> 0 <= #[trigger] f[i] < b.len() && a[i] == b[f[i]]
    &&& forall|i: int, j: int| 0 <= i < j < f.len() ==> #[trigger] f[i] < #[trigger] f[j]
}

/// `a` is `b` with some items left out, the others in their order.
pub open spec fn is_subsequence(a: Seq<i16>, b: Seq<i16>) -> bool {
    exists|f: Seq<int>| embeds(f, a, b)
}

proof fn lemma_embeds_trans(f: Seq<int>, g: Seq<int>, a: Seq<i16>, b: Seq<i16>, c: Seq<i16>)
    requires
        embeds(f, a, b),
        embeds(g, b, c),
    ensures
        embeds(Seq::new(f.len(), |i: int| g[f[i]]), a, c),
{
    let h = Seq::new(f.len(), |i: int| g[f[i]]);
    assert forall|i: int| 0 <= i < h.len() implies 0 <= #[trigger] h[i] < c.len() && a[i] == c[h[i]] by {
        assert(0 <= f[i] < b.len());
        assert(0 <= g[f[i]] < c.len());
    }
    assert forall|i: int, j: int| 0 <= i < j < h.len() implies #[trigger] h[i] < #[trigger] h[j] by {
        assert(f[i] < f[j]);
        assert(0 <= f[j] < b.len());
        assert(g[f[i]] < g[f[j]]);
    }
}

/// Appending the same items to both sides keeps an embedding.
proof fn lemma_embeds_append(f: Seq<int>, a: Seq<i16>, b: Seq<i16>, c: Seq<i16>)
    requires
        embeds(f, a, b),
    ensures
        embeds(f + Seq::new(c.len(), |i: int| b.len() + i), a + c, b + c),
{
    let h = f + Seq::new(c.len(), |i: int| b.len() + i);
    assert forall|i: int| 0 <= i < h.len() implies 0 <= #[trigger] h[i] < (b + c).len() && (a
        + c)[i] == (b + c)[h[i]] by {
        if i < f.len() {
            assert(h[i] == f[i]);
        } else {
            assert(h[i] == b.len() + (i - f.len()));
        }
    }
    assert forall|i: int, j: int| 0 <= i < j < h.len() implies #[trigger] h[i] < #[trigger] h[j] by {
        if j < f.len() {
            assert(h[i] == f[i] && h[j] == f[j]);
        } else if i < f.len() {
            assert(h[i] == f[i]);
            assert(0 <= f[i] < b.len());
        }
    }
}

/// `x` followed by a suffix of `y` sits in order inside `x + y`.
proof fn lemma_embeds_suffix(x: Seq<i16>, s: Seq<i16>, y: Seq<i16>)
    requires
        is_suffix(s, y),
    ensures
        embeds(
            Seq::new(x.len(), |i: int| i) + Seq::new(s.len(), |i: int| x.len() + y.len() - s.len() + i),
            x + s,
            x + y,
        ),
{
    let h = Seq::new(x.len(), |i: int| i) + Seq::new(
        s.len(),
        |i: int| x.len() + y.len() - s.len() + i,
    );
    assert forall|i: int| 0 <= i < h.len() implies 0 <= #[trigger] h[i] < (x + y).len() && (x
        + s)[i] == (x + y)[h[i]] by {
        if i >= x.len() {
            assert(s[i - x.len()] == y[y.len() - s.len() + (i - x.len())]);
        }
    }
}

/// The first items of an embedded sequence are embedded.
proof fn lemma_embeds_prefix(f: Seq<int>, a: Seq<i16>, c: Seq<i16>, b: Seq<i16>)
    requires
        embeds(f, a + c, b),
    ensures
        embeds(f.take(a.len() as int), a, b),
{
    let h = f.take(a.len() as int);
    assert forall|i: int| 0 <= i < h.len() implies 0 <= #[trigger] h[i] < b.len() && a[i] == b[h[i]] by {
        assert(h[i] == f[i]);
        assert((a + c)[i] == a[i]);
    }
    assert forall|i: int, j: int| 0 <= i < j < h.len() implies #[trigger] h[i] < #[trigger] h[j] by {
        assert(h[i] == f[i] && h[j] == f[j]);
    }
}

proof fn lemma_run_with_buffer(
    inputs: Seq<Seq<i16>>,
    outputs: Seq<Seq<i16>>,
    buffers: Seq<Seq<i16>>,
)
    requires
        outputs.len() == inputs.len(),
        buffers.len() == inputs.len() + 1,
        buffers[0].len() == 0,
        forall|i: int|
            0 <= i < inputs.len() ==> is_suffix(
                #[trigger] outputs[i] + buffers[i + 1],
                buffers[i] + inputs[i],
            ),
    ensures
        is_subsequence(concat_all(outputs) + buffers.last(), concat_all(inputs)),
    decreases inputs.len(),
{
    let n = inputs.len() as int;
    if n == 0 {
        let f = Seq::<int>::empty();
        assert(concat_all(outputs) + buffers.last() =~= Seq::<i16>::empty());
        assert(embeds(f, concat_all(outputs) + buffers.last(), concat_all(inputs)));
    } else {
        let ins = inputs.drop_last();
        let outs = outputs.drop_last();
        let bufs = buffers.drop_last();
        assert forall|i: int| 0 <= i < ins.len() implies is_suffix(
            #[trigger] outs[i] + bufs[i + 1],
            bufs[i] + ins[i],
        ) by {
            assert(outs[i] == outputs[i]);
            assert(bufs[i + 1] == buffers[i + 1]);
            assert(bufs[i] == buffers[i]);
            assert(ins[i] == inputs[i]);
        }
        lemma_run_with_buffer(ins, outs, bufs);
        let w = concat_all(outs);
        let b = buffers[n - 1];
        assert(bufs.last() == b);
        let p = inputs[n - 1];
        let o = outputs[n - 1];
        let bn = buffers[n];
        let f = choose|f: Seq<int>| embeds(f, w + b, concat_all(ins));
        lemma_embeds_append(f, w + b, concat_all(ins), p);
        let f1 = f + Seq::new(p.len(), |i: int| concat_all(ins).len() + i);
        assert(concat_all(inputs) == concat_all(ins) + p);
        assert(is_suffix(o + bn, b + p));
        lemma_embeds_suffix(w, o + bn, b + p);
        let f2 = Seq::new(w.len(), |i: int| i) + Seq::new(
            (o + bn).len(),
            |i: int| w.len() + (b + p).len() - (o + bn).len() + i,
        );
        assert((w + b) + p =~= w + (b + p));
        lemma_embeds_trans(f2, f1, w + (o + bn), w + (b + p), concat_all(inputs));
        assert(concat_all(outputs) == w + o);
        assert(concat_all(outputs) + bn =~= w + (o + bn));
    }
}

/// Over a whole recording, the voice-activity filter writes the samples it received with
/// some silent ones left out: none is altered, repeated or reordered.
/// `buffers[i]` is what the voice-activity filter held back before tick `i`, starting
/// empty; each tick relates them as `VadGate::process` ensures.
pub proof fn lemma_vad_writes_in_order(
    inputs: Seq<Seq<i16>>,
    outputs: Seq<Seq<i16>>,
    buffers: Seq<Seq<i16>>,
)
    requires
        outputs.len() == inputs.len(),
        buffers.len() == inputs.len() + 1,
        buffers[0].len() == 0,
        forall|i: int|
            0 <= i < inputs.len() ==> is_suffix(
                #[trigger] outputs[i] + buffers[i + 1],
                buffers[i] + inputs[i],
            ),
    ensures
        is_subsequence(concat_all(outputs), concat_all(inputs)),
{
    lemma_run_with_buffer(inputs, outputs, buffers);
    let f = choose|f: Seq<int>| embeds(f, concat_all(outputs) + buffers.last(), concat_all(inputs));
    lemma_embeds_prefix(f, concat_all(outputs), buffers.last(), concat_all(inputs));
}

} // verus!
