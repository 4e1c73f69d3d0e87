//! The bookkeeping of the audio measurements: where each sample belongs, which
//! ones are loud, and when a block is complete.
//!
//! A sample is given by its bits (of a single precision number, as
//! `f32::to_bits` gives them). Without the sign, the bits of two numbers compare
//! as the numbers do, so loudness is decided on integers. Levels in decibels,
//! loudness in LUFS and the filters of the vocal estimate are real numbers, and
//! are computed by the driver.

use vstd::prelude::*;
use vstd::arithmetic::div_mod;

use crate::text;
use crate::text::contains;

verus! {

/// The bits of the amplitude 0.001 (-60 dBFS), from which on a sample is loud.
pub const SILENCE_BITS: u32 = 0x3A83_126F;

/// The bits of infinity; what is above it is not a number.
pub const INFINITY_BITS: u32 = 0x7F80_0000;

/// How the samples of a file are laid out.
#[derive(Debug, Clone, Copy, PartialEq, Eq)]
pub struct Layout {
    pub channels: u16,
    pub rate: u32,
}

impl Layout {
    /// Both are needed to measure anything.
    pub open spec fn is_valid(&self) -> bool {
        self.channels > 0 && self.rate > 0
    }

    /// The frames in a block of about a tenth of a second.
    pub open spec fn step(&self) -> nat {
        if self.rate >= 10 {
            (self.rate / 10) as nat
        } else {
            1
        }
    }

    /// The samples, of all channels, in a block.
    pub open spec fn hop(&self) -> nat {
        self.step() * self.channels as nat
    }

    /// The layout that a file header gives.
    pub fn of_header(channels: u16, rate: u32) -> (r: Result<Layout, String>)
        ensures
            r matches Ok(l) ==> l.is_valid() && l.channels == channels && l.rate == rate,
            r matches Err(e) ==> (channels == 0 || rate == 0) && e@ == "Invalid WAV header"@,
            r is Ok <==> channels > 0 && rate > 0,
    {
        if channels == 0 || rate == 0 {
            Err("Invalid WAV header".to_owned())
        } else {
            Ok(Layout { channels, rate })
        }
    }

    /// The frames in a block.
    fn step_len(&self) -> (r: u64)
        ensures
            r == self.step(),
            0 < r <= 0xFFFF_FFFF,
    {
        if self.rate >= 10 {
            (self.rate / 10) as u64
        } else {
            1
        }
    }

    /// The samples in a block.
    pub fn hop_len(&self) -> (r: u64)
        requires
            self.is_valid(),
        ensures
            r == self.hop(),
            r > 0,
    {
        let step: u64 = self.step_len();
        let channels: u64 = self.channels as u64;
        assert(0 < step * channels <= 0xFFFF_FFFF * 0xFFFF) by (nonlinear_arith)
            requires
                0 < step <= 0xFFFF_FFFF,
                0 < channels <= 0xFFFF,
        ;
        step * channels
    }
}

/// The value of a full scale sample of `bits` bits.
pub open spec fn scale_of(bits: int) -> nat {
    vstd::arithmetic::power2::pow2((bits - 1) as nat)
}

/// The value of a full scale sample of `bits` bits: 2 to the power of `bits - 1`.
pub fn full_scale(bits: u16) -> (r: i64)
    requires
        1 <= bits <= 63,
    ensures
        r == scale_of(bits as int),
{
    let shift: u32 = (bits - 1) as u32;
    proof {
        vstd::arithmetic::power2::lemma_pow2_strictly_increases(shift as nat, 63);
        vstd::arithmetic::power2::lemma2_to64_rest();
        vstd::bits::lemma_u64_shl_is_mul(1, shift as u64);
    }
    (1u64 << shift) as i64
}

/// The vocal estimate is made for files of this category.
pub open spec fn is_estimated(category: Seq<char>) -> bool {
    text::has(category, "instrumental"@)
}

/// Whether the vocal estimate is made for files of this category.
pub fn estimates_vocals(category: &str) -> (r: bool)
    ensures
        r == is_estimated(category@),
{
    contains(category, "instrumental")
}

// ---------------------------------------------------------------------------
// Samples
// ---------------------------------------------------------------------------

/// The bits of a sample without its sign.
pub open spec fn magnitude(bits: u32) -> u32 {
    bits & 0x7FFF_FFFF
}

/// The sample is a number of at least -60 dBFS.
pub open spec fn is_loud(bits: u32) -> bool {
    SILENCE_BITS <= magnitude(bits) <= INFINITY_BITS
}

/// The largest magnitude of a number among the samples; 0 where there is none.
pub open spec fn peak_of(samples: Seq<u32>) -> u32
    decreases samples.len(),
{
    if samples.len() == 0 {
        0
    } else {
        let before = peak_of(samples.drop_last());
        let last = magnitude(samples.last());
        if before < last <= INFINITY_BITS {
            last
        } else {
            before
        }
    }
}

/// The frame of the last loud sample.
pub open spec fn last_loud(samples: Seq<u32>, channels: nat) -> Option<nat>
    decreases samples.len(),
{
    if samples.len() == 0 {
        None
    } else if is_loud(samples.last()) {
        Some(((samples.len() - 1) as nat) / channels)
    } else {
        last_loud(samples.drop_last(), channels)
    }
}

/// The channel of the sample behind `n` samples.
pub open spec fn channel_of(n: nat, layout: Layout) -> nat {
    n % layout.channels as nat
}

/// The whole frames in `n` samples.
pub open spec fn frames_of(n: nat, layout: Layout) -> nat {
    n / layout.channels as nat
}

/// `n` samples fill their blocks.
pub open spec fn ends_block(n: nat, layout: Layout) -> bool {
    n % layout.hop() == 0
}

/// The frames in the complete blocks of `n` samples.
pub open spec fn complete_frames(n: nat, layout: Layout) -> nat {
    (n / layout.hop()) * layout.step()
}

/// What was measured of a stream of samples so far.
pub struct Tally {
    layout: Layout,
    samples: Ghost<Seq<u32>>,
    count: u64,
    buffered: u64,
    frames: u64,
    peak: u32,
    last_loud_frame: Option<u64>,
}

/// The model of a [`Tally`]: the samples that it was given.
#[verifier::ext_equal]
pub struct TallyView {
    pub layout: Layout,
    pub samples: Seq<u32>,
}

impl View for Tally {
    type V = TallyView;

    closed spec fn view(&self) -> TallyView {
        TallyView { layout: self.layout, samples: self.samples@ }
    }
}

/// What is known at the end of a stream.
#[derive(Debug, Clone, Copy, PartialEq, Eq)]
pub struct Summary {
    /// The bits of the largest magnitude.
    pub peak: u32,
    /// No sample is loud.
    pub is_silent: bool,
    /// The frame of the last loud sample.
    pub last_loud_frame: Option<u64>,
    /// How many samples there were.
    pub samples: u64,
    /// How many whole frames there were.
    pub frames: u64,
    /// The last block was not complete.
    pub has_rest: bool,
}

impl Tally {
    #[verifier::type_invariant]
    closed spec fn inv(&self) -> bool {
        let hop = self.layout.hop();
        let n = self.samples@.len();
        &&& self.layout.is_valid()
        &&& hop > 0
        &&& self.count == n
        &&& self.buffered == n % hop
        &&& self.frames == (n / hop) * self.layout.step()
        &&& self.frames <= n
        &&& self.peak == peak_of(self.samples@)
        &&& match self.last_loud_frame {
            Some(f) => last_loud(self.samples@, self.layout.channels as nat) == Some(f as nat),
            None => last_loud(self.samples@, self.layout.channels as nat) is None,
        }
    }

    /// A tally of no samples.
    pub fn new(layout: Layout) -> (r: Tally)
        requires
            layout.is_valid(),
        ensures
            r@.layout == layout,
            r@.samples == Seq::<u32>::empty(),
    {
        let hop: u64 = layout.hop_len();
        proof {
            let h = hop as int;
            assert(0int % h == 0 && 0int / h == 0) by (nonlinear_arith)
                requires
                    h > 0,
            ;
            assert(0 * layout.step() == 0) by (nonlinear_arith);
        }
        Tally { layout, samples: Ghost(Seq::empty()), count: 0, buffered: 0, frames: 0, peak: 0, last_loud_frame: None }
    }

    /// How many samples there were so far.
    pub fn count(&self) -> (r: u64)
        ensures
            r == self@.samples.len(),
    {
        proof {
            use_type_invariant(self);
        }
        self.count
    }

    /// The channel of the next sample.
    pub fn channel(&self) -> (r: usize)
        ensures
            r == channel_of(self@.samples.len(), self@.layout),
    {
        proof {
            use_type_invariant(self);
        }
        let channel: u64 = self.count % (self.layout.channels as u64);
        channel as usize
    }

    /// The frames in the blocks that are complete.
    pub fn frames(&self) -> (r: u64)
        ensures
            r == complete_frames(self@.samples.len(), self@.layout),
    {
        proof {
            use_type_invariant(self);
        }
        self.frames
    }

    /// The whole frames there were so far.
    fn whole_frames(&self) -> (r: u64)
        ensures
            r == frames_of(self@.samples.len(), self@.layout),
    {
        proof {
            use_type_invariant(self);
            lemma_frames_add_up(self@.samples.len(), self.layout.hop(), self.layout.step(), self.layout.channels as nat);
        }
        self.frames + self.buffered / (self.layout.channels as u64)
    }

    /// Takes a sample, and tells whether it completes a block.
    pub fn push(&mut self, bits: u32) -> (complete: bool)
        requires
            old(self)@.samples.len() < u64::MAX,
        ensures
            final(self)@.layout == old(self)@.layout,
            final(self)@.samples == old(self)@.samples.push(bits),
            complete == ends_block(final(self)@.samples.len(), final(self)@.layout),
    {
        proof {
            use_type_invariant(&*self);
        }
        let layout: Layout = self.layout;
        let ghost before = self.samples@;
        let ghost samples = before.push(bits);
        let ghost n = before.len();
        assert(samples.drop_last() == before);
        let magnitude: u32 = bits & 0x7FFF_FFFF;
        let peak: u32 = if magnitude > self.peak && magnitude <= INFINITY_BITS {
            magnitude
        } else {
            self.peak
        };
        let last_loud_frame: Option<u64> = if magnitude >= SILENCE_BITS && magnitude <= INFINITY_BITS {
            Some(self.count / (layout.channels as u64))
        } else {
            self.last_loud_frame
        };
        let hop: u64 = layout.hop_len();
        let step: u64 = layout.step_len();
        proof {
            lemma_next(n, hop as nat, step as nat, layout.channels as nat);
        }
        let complete: bool = self.buffered + 1 == hop;
        let buffered: u64 = if complete {
            0
        } else {
            self.buffered + 1
        };
        let frames: u64 = if complete {
            self.frames + step
        } else {
            self.frames
        };
        let count: u64 = self.count + 1;
        *self = Tally { layout, samples: Ghost(samples), count, buffered, frames, peak, last_loud_frame };
        complete
    }

    /// Ends the stream.
    pub fn finish(self) -> (r: Summary)
        ensures
            r.peak == peak_of(self@.samples),
            r.is_silent == (r.peak < SILENCE_BITS),
            r.last_loud_frame is Some <==> last_loud(self@.samples, self@.layout.channels as nat) is Some,
            r.last_loud_frame matches Some(f) ==> last_loud(self@.samples, self@.layout.channels as nat) == Some(f as nat),
            r.samples == self@.samples.len(),
            r.is_silent <==> r.last_loud_frame is None,
            r.frames == frames_of(self@.samples.len(), self@.layout),
            r.has_rest == !ends_block(self@.samples.len(), self@.layout),
    {
        proof {
            use_type_invariant(&self);
        }
        proof {
            lemma_silent_means_no_loud_frame(self@.samples, self@.layout.channels as nat);
        }
        let frames: u64 = self.whole_frames();
        Summary {
            peak: self.peak,
            is_silent: self.peak < SILENCE_BITS,
            last_loud_frame: self.last_loud_frame,
            samples: self.count,
            frames,
            has_rest: self.buffered != 0,
        }
    }
}

/// How the block position moves on with one more sample.
proof fn lemma_next(n: nat, hop: nat, step: nat, channels: nat)
    requires
        hop == step * channels,
        step > 0,
        channels > 0,
    ensures
        n % hop < hop,
        n % hop + 1 == hop ==> (n + 1) % hop == 0 && (n + 1) / hop == n / hop + 1,
        n % hop + 1 != hop ==> (n + 1) % hop == n % hop + 1 && (n + 1) / hop == n / hop,
        (n / hop + 1) * step == (n / hop) * step + step,
        ((n + 1) / hop) * step <= n + 1,
{
    let m = n as int + 1;
    let (h, q, r) = (hop as int, n as int / hop as int, n as int % hop as int);
    assert(h > 0 && step <= h) by (nonlinear_arith)
        requires
            h == step * channels,
            step > 0,
            channels > 0,
    ;
    div_mod::lemma_fundamental_div_mod(n as int, h);
    if r + 1 == h {
        assert(m == (q + 1) * h + 0) by (nonlinear_arith)
            requires
                m == h * q + r + 1,
                r + 1 == h,
        ;
        div_mod::lemma_fundamental_div_mod_converse(m, h, q + 1, 0);
    } else {
        assert(m == q * h + (r + 1)) by (nonlinear_arith)
            requires
                m == h * q + r + 1,
        ;
        div_mod::lemma_fundamental_div_mod_converse(m, h, q, r + 1);
    }
    div_mod::lemma_fundamental_div_mod(m, h);
    let p = m / h;
    assert((q + 1) * step == q * step + step) by (nonlinear_arith);
    assert(p * step <= m) by (nonlinear_arith)
        requires
            m == h * p + m % h,
            m % h >= 0,
            0 < step <= h,
            p >= 0,
    ;
}

// ---------------------------------------------------------------------------
// The sum of the stems
// ---------------------------------------------------------------------------

/// What the header of a stem says.
#[derive(Debug, Clone, Copy, PartialEq, Eq)]
pub struct StemHead {
    pub channels: u16,
    pub rate: u32,
    /// The length in frames.
    pub frames: u32,
}

impl StemHead {
    /// The stem can be summed.
    pub open spec fn is_readable(&self) -> bool {
        self.channels > 0 && self.rate > 0
    }

    /// Whether the stem can be summed.
    pub fn readable(&self) -> (r: bool)
        ensures
            r == self.is_readable(),
    {
        self.channels > 0 && self.rate > 0
    }
}

/// How a sum of stems is made. The layout is that of the first stem, and the sum
/// lasts as long as the longest.
#[derive(Debug, Clone, Copy, PartialEq, Eq)]
pub struct StemsPlan {
    pub layout: Layout,
    pub frames: u32,
    pub count: usize,
}

/// The stems that can be summed, in their order.
pub open spec fn readable_among(heads: Seq<StemHead>) -> Seq<StemHead> {
    heads.filter(|h: StemHead| h.is_readable())
}

/// The length of the longest of the stems.
pub open spec fn longest(heads: Seq<StemHead>) -> u32
    decreases heads.len(),
{
    if heads.len() == 0 {
        0
    } else if heads.last().frames > longest(heads.drop_last()) {
        heads.last().frames
    } else {
        longest(heads.drop_last())
    }
}

/// Why the stems cannot be measured.
pub open spec fn no_plan_text(heads: Seq<StemHead>) -> Seq<char> {
    if heads.len() == 0 {
        "no stems"@
    } else {
        "no readable stems"@
    }
}

/// Plans the sum of the stems with these headers.
pub fn plan_stems(heads: &Vec<StemHead>) -> (r: Result<StemsPlan, String>)
    ensures
        r is Ok <==> readable_among(heads@).len() > 0,
        r matches Err(e) ==> e@ == no_plan_text(heads@),
        r matches Ok(plan) ==> {
            let readable = readable_among(heads@);
            &&& plan.layout.is_valid()
            &&& plan.layout.channels == readable[0].channels
            &&& plan.layout.rate == readable[0].rate
            &&& plan.frames == longest(readable)
            &&& plan.count == readable.len()
        },
{
    if heads.len() == 0 {
        assert(readable_among(heads@).len() == 0) by {
            reveal(Seq::filter);
        }
        return Err("no stems".to_owned());
    }
    let mut plan: StemsPlan = StemsPlan { layout: Layout { channels: 0, rate: 0 }, frames: 0, count: 0 };
    let mut i: usize = 0;
    proof {
        reveal(Seq::filter);
        assert(heads@.take(0) == Seq::<StemHead>::empty());
    }
    while i < heads.len()
        invariant
            i <= heads@.len(),
            plan.count <= i,
            plan.count == readable_among(heads@.take(i as int)).len(),
            plan.frames == longest(readable_among(heads@.take(i as int))),
            plan.count > 0 ==> {
                let readable = readable_among(heads@.take(i as int));
                &&& plan.layout.is_valid()
                &&& plan.layout.channels == readable[0].channels
                &&& plan.layout.rate == readable[0].rate
            },
        decreases heads@.len() - i,
    {
        let head: StemHead = heads[i];
        let ghost upto = heads@.take(i + 1);
        let ghost before = readable_among(heads@.take(i as int));
        proof {
            reveal(Seq::filter);
            assert(upto.drop_last() == heads@.take(i as int));
            assert(upto.last() == head);
            assert(before.push(head).drop_last() == before);
        }
        if head.readable() {
            if plan.count == 0 {
                plan.layout = Layout { channels: head.channels, rate: head.rate };
            }
            if head.frames > plan.frames {
                plan.frames = head.frames;
            }
            plan.count += 1;
        }
        i += 1;
    }
    assert(heads@.take(i as int) == heads@);
    if plan.count == 0 {
        Err("no readable stems".to_owned())
    } else {
        Ok(plan)
    }
}

// ---------------------------------------------------------------------------
// Laws
// ---------------------------------------------------------------------------

/// The frames of the complete blocks and those of the rest are all the frames of
/// the stream.
pub proof fn lemma_frames_add_up(n: nat, hop: nat, step: nat, channels: nat)
    requires
        hop == step * channels,
        step > 0,
        channels > 0,
    ensures
        (n / hop) * step + (n % hop) / channels == n / channels,
        (n % hop) / channels <= n,
{
    let (h, c, q, r) = (hop as int, channels as int, n as int / hop as int, n as int % hop as int);
    assert(h > 0) by (nonlinear_arith)
        requires
            h == step * channels,
            step > 0,
            channels > 0,
    ;
    div_mod::lemma_fundamental_div_mod(n as int, h);
    div_mod::lemma_fundamental_div_mod(r, c);
    let (a, b) = (r / c, r % c);
    assert(n == (q * step + a) * c + b) by (nonlinear_arith)
        requires
            n == h * q + r,
            r == c * a + b,
            h == step * c,
    ;
    div_mod::lemma_fundamental_div_mod_converse(n as int, c, q * step + a, b);
    assert(0 <= a <= r) by (nonlinear_arith)
        requires
            r == c * a + b,
            c > 0,
            b >= 0,
            r >= 0,
            b < c,
    ;
    assert(q * step >= 0) by (nonlinear_arith)
        requires
            q >= 0,
            step > 0,
    ;
    assert(r <= n) by (nonlinear_arith)
        requires
            n == h * q + r,
            q >= 0,
            h > 0,
    ;
}

/// A stream is silent exactly when it has no loud frame.
pub proof fn lemma_silent_means_no_loud_frame(samples: Seq<u32>, channels: nat)
    ensures
        peak_of(samples) < SILENCE_BITS <==> last_loud(samples, channels) is None,
    decreases samples.len(),
{
    if samples.len() > 0 {
        lemma_silent_means_no_loud_frame(samples.drop_last(), channels);
    }
}

/// No sample that is a number is above the peak.
pub proof fn lemma_peak_is_highest(samples: Seq<u32>, i: int)
    requires
        0 <= i < samples.len(),
        magnitude(samples[i]) <= INFINITY_BITS,
    ensures
        magnitude(samples[i]) <= peak_of(samples),
    decreases samples.len(),
{
    if i < samples.len() - 1 {
        assert(samples.drop_last()[i] == samples[i]);
        lemma_peak_is_highest(samples.drop_last(), i);
    }
}

/// The sum of stems lasts as long as the longest of them: none is longer, and one
/// is that long.
pub proof fn lemma_sum_lasts_as_long_as_longest(heads: Seq<StemHead>)
    ensures
        forall|i: int| 0 <= i < heads.len() ==> (#[trigger] heads[i]).frames <= longest(heads),
        heads.len() > 0 ==> exists|i: int| 0 <= i < heads.len() && (#[trigger] heads[i]).frames == longest(heads),
    decreases heads.len(),
{
    if heads.len() > 0 {
        let rest = heads.drop_last();
        lemma_sum_lasts_as_long_as_longest(rest);
        assert forall|i: int| 0 <= i < heads.len() implies (#[trigger] heads[i]).frames <= longest(heads) by {
            if i < rest.len() {
                assert(rest[i] == heads[i]);
            }
        }
        if longest(heads) == heads.last().frames {
            assert(heads[heads.len() - 1].frames == longest(heads));
        } else {
            let i = choose|i: int| 0 <= i < rest.len() && (#[trigger] rest[i]).frames == longest(rest);
            assert(heads[i].frames == longest(heads));
        }
    }
}

/// The sample is a number of at least 0.001, told by its bits without the sign.
pub open spec fn reaches_silence_level(bits: u32) -> bool {
    let size = bits as int % 0x8000_0000;
    0x3A83_126F <= size <= 0x7F80_0000
}

/// The sign does not matter for the size of a sample, and a sample is loud where
/// it reaches the level of silence.
pub proof fn lemma_loudness_is_told_by_bits(bits: u32)
    ensures
        magnitude(bits) as int == bits as int % 0x8000_0000,
        is_loud(bits) <==> reaches_silence_level(bits),
{
    assert(bits & 0x7FFF_FFFF == bits % 0x8000_0000) by (bit_vector);
}

/// The last loud frame is the place of the last loud sample: that sample is loud,
/// lies in that frame, and no sample behind it is loud. There is none exactly
/// where no sample is loud.
pub proof fn lemma_last_loud_frame_is_that_of_last_loud_sample(samples: Seq<u32>, channels: nat)
    requires
        channels > 0,
    ensures
        last_loud(samples, channels) is None <==> forall|i: int| 0 <= i < samples.len() ==> !reaches_silence_level(#[trigger] samples[i]),
        last_loud(samples, channels) matches Some(f) ==> exists|i: int|
            {
                &&& 0 <= i < samples.len()
                &&& reaches_silence_level(#[trigger] samples[i])
                &&& f * channels <= i < (f + 1) * channels
                &&& forall|j: int| i < j < samples.len() ==> !reaches_silence_level(#[trigger] samples[j])
            },
    decreases samples.len(),
{
    if samples.len() > 0 {
        let rest = samples.drop_last();
        let last = samples.len() - 1;
        lemma_loudness_is_told_by_bits(samples[last]);
        lemma_last_loud_frame_is_that_of_last_loud_sample(rest, channels);
        assert forall|i: int| 0 <= i < rest.len() implies #[trigger] rest[i] == samples[i] by {}
        if is_loud(samples[last]) {
            let f = (last as nat / channels) as int;
            let c = channels as int;
            div_mod::lemma_fundamental_div_mod(last, c);
            assert(f * c <= last < (f + 1) * c) by (nonlinear_arith)
                requires
                    last == c * f + last % c,
                    0 <= last % c < c,
            ;
            assert(reaches_silence_level(samples[last]));
        } else {
            if let Some(f) = last_loud(rest, channels) {
                let i = choose|i: int|
                    {
                        &&& 0 <= i < rest.len()
                        &&& reaches_silence_level(#[trigger] rest[i])
                        &&& f * channels <= i < (f + 1) * channels
                        &&& forall|j: int| i < j < rest.len() ==> !reaches_silence_level(#[trigger] rest[j])
                    };
                assert(reaches_silence_level(samples[i]));
                assert forall|j: int| i < j < samples.len() implies !reaches_silence_level(#[trigger] samples[j]) by {
                    if j < last {
                        assert(rest[j] == samples[j]);
                    }
                }
            } else {
                assert forall|j: int| 0 <= j < samples.len() implies !reaches_silence_level(#[trigger] samples[j]) by {
                    if j < last {
                        assert(rest[j] == samples[j]);
                    }
                }
            }
        }
    }
}

/// The peak is the size of a sample, unless no sample is a number other than zero;
/// and no sample that is a number is larger.
pub proof fn lemma_peak_is_a_sample(samples: Seq<u32>)
    ensures
        peak_of(samples) == 0 || exists|i: int|
            0 <= i < samples.len() && peak_of(samples) == (#[trigger] samples[i]) as int % 0x8000_0000,
        peak_of(samples) <= 0x7F80_0000,
        forall|i: int|
            0 <= i < samples.len() && (#[trigger] samples[i]) as int % 0x8000_0000 <= 0x7F80_0000 ==> samples[i] as int % 0x8000_0000 <= peak_of(samples),
    decreases samples.len(),
{
    if samples.len() > 0 {
        let rest = samples.drop_last();
        let last = samples.len() - 1;
        lemma_peak_is_a_sample(rest);
        lemma_loudness_is_told_by_bits(samples[last]);
        assert forall|i: int| 0 <= i < rest.len() implies #[trigger] rest[i] == samples[i] by {}
        if peak_of(samples) == peak_of(rest) {
            if peak_of(rest) != 0 {
                let i = choose|i: int| 0 <= i < rest.len() && peak_of(rest) == (#[trigger] rest[i]) as int % 0x8000_0000;
                assert(samples[i] == rest[i]);
            }
        } else {
            assert(peak_of(samples) == samples[last] as int % 0x8000_0000);
        }
        assert forall|i: int| 0 <= i < samples.len() && (#[trigger] samples[i]) as int % 0x8000_0000 <= 0x7F80_0000 implies samples[i] as int % 0x8000_0000 <= peak_of(samples) by {
            if i < last {
                assert(rest[i] == samples[i]);
            }
        }
    }
}

/// The levels are those of -60 dBFS and of infinity.
pub proof fn lemma_levels()
    ensures
        SILENCE_BITS == 0x3A83_126F,
        INFINITY_BITS == 0x7F80_0000,
{
}

/// A block is as many whole frames as fit a tenth of a second, and one at least.
pub proof fn lemma_block_is_a_tenth_of_a_second(layout: Layout)
    requires
        layout.is_valid(),
    ensures
        layout.channels > 0 && layout.rate > 0,
        layout.hop() == layout.step() * layout.channels,
        layout.step() >= 1,
        layout.rate >= 10 ==> 10 * layout.step() <= layout.rate < 10 * (layout.step() + 1),
        layout.rate < 10 ==> layout.step() == 1,
{
}

/// Full scale is 1 for samples of one bit, and doubles with every further bit.
pub proof fn lemma_full_scale_doubles_with_every_bit(bits: int)
    requires
        bits >= 1,
    ensures
        scale_of(1) == 1,
        scale_of(bits + 1) == 2 * scale_of(bits),
{
    vstd::arithmetic::power2::lemma2_to64();
    vstd::arithmetic::power2::lemma_pow2_unfold(bits as nat);
}

/// The vocal estimate is made for every category that has "instrumental" in it,
/// wherever it stands, and for no other.
pub proof fn lemma_instrumentals_are_estimated(category: Seq<char>)
    ensures
        is_estimated(category) <==> exists|x: Seq<char>, y: Seq<char>| text::is_cut(category, x, "instrumental"@, y),
{
    text::lemma_has_means_cut(category, "instrumental"@);
}

/// Without stems the message says so; with stems, that none can be read.
pub proof fn lemma_missing_stems_are_told(heads: Seq<StemHead>)
    ensures
        heads.len() == 0 ==> no_plan_text(heads) == "no stems"@,
        heads.len() > 0 ==> no_plan_text(heads) == "no readable stems"@,
{
}

/// A layout can be measured exactly where it has a channel and a sample rate.
pub proof fn lemma_layout_needs_channels_and_rate(channels: u16, rate: u32)
    ensures
        (Layout { channels, rate }).is_valid() <==> channels >= 1 && rate >= 1,
{
}

/// The samples of a stream go to the channels in turn, the first one to the first
/// channel.
pub proof fn lemma_channels_take_turns(n: nat, layout: Layout)
    requires
        layout.is_valid(),
    ensures
        channel_of(0, layout) == 0,
        channel_of(n, layout) < layout.channels,
        channel_of(n + 1, layout) == if channel_of(n, layout) + 1 == layout.channels {
            0
        } else {
            channel_of(n, layout) + 1
        },
{
    let c = layout.channels as nat;
    assert(1 * c == c) by (nonlinear_arith);
    lemma_next(n, c, 1, c);
    assert(0nat % c == 0) by (nonlinear_arith)
        requires
            c > 0,
    ;
}

/// A block is complete with every `hop` samples, and only then; the frames in the
/// complete blocks are those of all the samples but the ones of the last block,
/// and of all of them where it is complete.
pub proof fn lemma_blocks_complete_in_step(n: nat, layout: Layout)
    requires
        layout.is_valid(),
    ensures
        ends_block(0, layout),
        ends_block(n + layout.hop(), layout) <==> ends_block(n, layout),
        0 < n < layout.hop() ==> !ends_block(n, layout),
        complete_frames(n, layout) * layout.channels <= n < complete_frames(n, layout) * layout.channels + layout.hop(),
        ends_block(n, layout) <==> complete_frames(n, layout) * layout.channels == n,
{
    let (h, c, s) = (layout.hop() as int, layout.channels as int, layout.step() as int);
    assert(h > 0) by (nonlinear_arith)
        requires
            h == s * c,
            s > 0,
            c > 0,
    ;
    let q = n as int / h;
    let r = n as int % h;
    div_mod::lemma_fundamental_div_mod(n as int, h);
    assert((q * s) * c == h * q) by (nonlinear_arith)
        requires
            h == s * c,
    ;
    assert(n + h == (q + 1) * h + r) by (nonlinear_arith)
        requires
            n == h * q + r,
    ;
    div_mod::lemma_fundamental_div_mod_converse(n + h, h, q + 1, r);
    assert(0int % h == 0) by (nonlinear_arith)
        requires
            h > 0,
    ;
    if n < h {
        assert(n as int == 0 * h + n);
        div_mod::lemma_fundamental_div_mod_converse(n as int, h, 0, n as int);
    }
}

/// A stem is summed where its header gives channels and a rate. The first such
/// stem gives the layout, and as many are summed as there are.
pub proof fn lemma_first_readable_stem_gives_layout(heads: Seq<StemHead>, i: int)
    requires
        0 <= i < heads.len(),
        heads[i].channels > 0 && heads[i].rate > 0,
        forall|j: int| 0 <= j < i ==> (#[trigger] heads[j]).channels == 0 || heads[j].rate == 0,
    ensures
        readable_among(heads).len() > 0,
        readable_among(heads)[0] == heads[i],
    decreases heads.len(),
{
    reveal(Seq::filter);
    let rest = heads.drop_last();
    if i < rest.len() {
        assert forall|j: int| 0 <= j < i implies (#[trigger] rest[j]).channels == 0 || rest[j].rate == 0 by {
            assert(rest[j] == heads[j]);
        }
        lemma_first_readable_stem_gives_layout(rest, i);
    } else {
        assert forall|j: int| 0 <= j < rest.len() implies (#[trigger] rest[j]).channels == 0 || rest[j].rate == 0 by {
            assert(rest[j] == heads[j]);
        }
        lemma_unreadable_stems_are_left_out(rest);
    }
}

/// Stems whose headers give no channels or no rate are left out, and no others.
pub proof fn lemma_unreadable_stems_are_left_out(heads: Seq<StemHead>)
    ensures
        readable_among(heads).len() == 0 <==> forall|j: int| 0 <= j < heads.len() ==> (#[trigger] heads[j]).channels == 0 || heads[j].rate == 0,
        forall|head: StemHead| #[trigger] heads.push(head).len() > 0 ==> readable_among(heads.push(head)) == if head.channels > 0 && head.rate > 0 {
            readable_among(heads).push(head)
        } else {
            readable_among(heads)
        },
    decreases heads.len(),
{
    reveal(Seq::filter);
    assert forall|head: StemHead| #[trigger] heads.push(head).len() > 0 implies readable_among(heads.push(head)) == if head.channels > 0 && head.rate > 0 {
        readable_among(heads).push(head)
    } else {
        readable_among(heads)
    } by {
        assert(heads.push(head).drop_last() == heads);
    }
    if heads.len() > 0 {
        let rest = heads.drop_last();
        lemma_unreadable_stems_are_left_out(rest);
        assert(heads == rest.push(heads.last()));
        assert(heads[heads.len() - 1] == heads.last());
        if readable_among(heads).len() == 0 {
            assert forall|j: int| 0 <= j < heads.len() implies (#[trigger] heads[j]).channels == 0 || heads[j].rate == 0 by {
                if j < rest.len() {
                    assert(rest[j] == heads[j]);
                }
            }
        }
        if forall|j: int| 0 <= j < heads.len() ==> (#[trigger] heads[j]).channels == 0 || heads[j].rate == 0 {
            assert forall|j: int| 0 <= j < rest.len() implies (#[trigger] rest[j]).channels == 0 || rest[j].rate == 0 by {
                assert(rest[j] == heads[j]);
            }
        }
    }
}

/// A frame is one sample of each channel.
pub proof fn lemma_frame_is_one_sample_of_each_channel(n: nat, layout: Layout)
    requires
        layout.is_valid(),
    ensures
        frames_of(n, layout) * layout.channels <= n < (frames_of(n, layout) + 1) * layout.channels,
{
    let c = layout.channels as int;
    let f = n as int / c;
    div_mod::lemma_fundamental_div_mod(n as int, c);
    assert(f * c <= n < (f + 1) * c) by (nonlinear_arith)
        requires
            n == c * f + n as int % c,
            0 <= n as int % c < c,
    ;
}

} // verus!
