//! The transport: the musical clock that owns play/stop state, tempo, time
//! signature, the loop region and the current sample position.
//!
//! Sample time is the ground truth; musical time (beats) is derived from it.
//! `tick` advances the position by one block, wrapping at the loop end
//! sample-exactly: a block that reaches or crosses the loop end is split
//! into two ranges whose lengths sum to the block size, with no gap and no
//! overlap; a block ending exactly at the loop end wraps with an empty
//! remainder, so the loop keeps cycling.

use vstd::prelude::*;

verus! {

/// Positions stay below this bound so a position plus a block size never
/// overflows a `u64`.
pub const POSITION_LIMIT: u64 = 0x4000000000000000;

/// A half-open range of sample positions, `[start, end)`.
#[derive(Clone, Copy, PartialEq, Eq, Structural, Debug)]
pub struct TimeRange {
    /// First sample position of the range.
    pub start: u64,
    /// One past the last sample position of the range.
    pub end: u64,
}

impl TimeRange {
    /// The number of samples the range covers.
    pub open spec fn len(self) -> int {
        self.end as int - self.start as int
    }

    /// A range runs forward.
    pub open spec fn wf(self) -> bool {
        self.start <= self.end
    }
}

/// The musical clock.
#[derive(Clone, Copy, PartialEq, Eq, Structural, Debug)]
pub struct Transport {
    /// Tempo in millibeats per minute (120000 is 120 BPM); always positive.
    pub tempo_mbpm: u64,
    /// Time signature numerator; always positive.
    pub sig_num: u32,
    /// Time signature denominator; always positive.
    pub sig_den: u32,
    /// Whether the loop region is active.
    pub loop_enabled: bool,
    /// First sample of the loop region.
    pub loop_start: u64,
    /// One past the last sample of the loop region.
    pub loop_end: u64,
    /// Whether the metronome is audible.
    pub metronome: bool,
    /// The current sample position.
    pub position: u64,
    /// Whether the transport is rolling.
    pub playing: bool,
}

impl Transport {
    /// A well-formed transport: positive tempo and signature, an ordered
    /// loop region, and a position with headroom below the overflow bound.
    pub open spec fn wf(self) -> bool {
        &&& self.tempo_mbpm > 0
        &&& self.sig_num > 0
        &&& self.sig_den > 0
        &&& self.loop_enabled ==> self.loop_start <= self.loop_end
        &&& self.position < POSITION_LIMIT
        &&& self.loop_end < POSITION_LIMIT
    }

    /// A stopped transport at position zero with common defaults: 120 BPM,
    /// 4/4, no loop.
    pub fn new() -> (t: Transport)
        ensures
            t.wf(),
            t.tempo_mbpm == 120000u64,
            t.sig_num == 4u32,
            t.sig_den == 4u32,
            !t.loop_enabled,
            !t.playing,
            !t.metronome,
            t.position == 0u64,
            t.loop_start == 0u64,
            t.loop_end == 0u64,
    {
        Transport {
            tempo_mbpm: 120000,
            sig_num: 4,
            sig_den: 4,
            loop_enabled: false,
            loop_start: 0,
            loop_end: 0,
            metronome: false,
            position: 0,
            playing: false,
        }
    }

    /// Whether a block of `block_size` samples starting at the current
    /// position reaches the loop end. A block that ends exactly at the
    /// loop end wraps too (with an empty remainder), so the position lands
    /// on the loop start and the loop keeps cycling.
    pub open spec fn wraps(self, block_size: int) -> bool {
        &&& self.loop_enabled
        &&& (self.position as int) < self.loop_end as int
        &&& self.position as int + block_size >= self.loop_end as int
    }

    /// The transport after `tick(block_size)`: only the position moves,
    /// wrapping at the loop end.
    pub open spec fn advanced(self, block_size: int) -> Transport {
        if self.wraps(block_size) {
            Transport {
                position: (self.loop_start as int + (block_size - (self.loop_end as int
                    - self.position as int))) as u64,
                ..self
            }
        } else {
            Transport { position: (self.position as int + block_size) as u64, ..self }
        }
    }

    /// Advance the position by `block_size` samples, honoring the loop
    /// region: a block that straddles the loop end is split sample-exactly
    /// into the tail of the loop and a remainder starting at the loop
    /// start; the two ranges sum to exactly `block_size` samples with no
    /// gap and no overlap.
    pub fn tick(&mut self, block_size: u64) -> (r: (TimeRange, Option<TimeRange>))
        requires
            old(self).wf(),
            block_size <= 0x100000u64,
            old(self).position + block_size < POSITION_LIMIT,
            old(self).loop_start + block_size < POSITION_LIMIT,
        ensures
            final(self).wf(),
            r.0.wf(),
            r.0.start == old(self).position,
            // only tempo-independent position state changes
            final(self).tempo_mbpm == old(self).tempo_mbpm,
            final(self).sig_num == old(self).sig_num,
            final(self).sig_den == old(self).sig_den,
            final(self).loop_enabled == old(self).loop_enabled,
            final(self).loop_start == old(self).loop_start,
            final(self).loop_end == old(self).loop_end,
            final(self).metronome == old(self).metronome,
            final(self).playing == old(self).playing,
            // the wrap split
            old(self).wraps(block_size as int) ==> {
                &&& r.1 is Some
                &&& r.0.end == old(self).loop_end
                &&& r.1->Some_0.start == old(self).loop_start
                &&& r.0.len() + r.1->Some_0.len() == block_size as int
                &&& r.1->Some_0.wf()
                &&& final(self).position == r.1->Some_0.end
            },
            !old(self).wraps(block_size as int) ==> {
                &&& r.1 is None
                &&& r.0.len() == block_size as int
                &&& final(self).position == r.0.end
            },
    {
        let pos = self.position;
        if self.loop_enabled && pos < self.loop_end && block_size >= self.loop_end - pos {
            let first = TimeRange { start: pos, end: self.loop_end };
            let remainder = block_size - (self.loop_end - pos);
            let second = TimeRange {
                start: self.loop_start,
                end: self.loop_start + remainder,
            };
            self.position = second.end;
            (first, Some(second))
        } else {
            let range = TimeRange { start: pos, end: pos + block_size };
            self.position = range.end;
            (range, None)
        }
    }

    /// Set the position directly; loop state is untouched and playback
    /// resumes from the given position.
    pub fn seek(&mut self, position: u64)
        requires
            old(self).wf(),
            position < POSITION_LIMIT,
        ensures
            final(self).wf(),
            *final(self) == (Transport { position, ..*old(self) }),
    {
        self.position = position;
    }

    /// Start rolling; the position is unchanged.
    pub fn play(&mut self)
        requires
            old(self).wf(),
        ensures
            final(self).wf(),
            *final(self) == (Transport { playing: true, ..*old(self) }),
    {
        self.playing = true;
    }

    /// Stop rolling; the position is unchanged.
    pub fn stop(&mut self)
        requires
            old(self).wf(),
        ensures
            final(self).wf(),
            *final(self) == (Transport { playing: false, ..*old(self) }),
    {
        self.playing = false;
    }

    /// Stop rolling and rewind the position to zero.
    pub fn stop_and_rewind(&mut self)
        requires
            old(self).wf(),
        ensures
            final(self).wf(),
            *final(self) == (Transport { playing: false, position: 0u64, ..*old(self) }),
    {
        self.playing = false;
        self.position = 0;
    }

    /// Change the tempo; the sample position is unchanged, so sample time
    /// stays continuous and only the derived musical time changes.
    pub fn set_tempo(&mut self, tempo_mbpm: u64)
        requires
            old(self).wf(),
            tempo_mbpm > 0,
        ensures
            final(self).wf(),
            *final(self) == (Transport { tempo_mbpm, ..*old(self) }),
    {
        self.tempo_mbpm = tempo_mbpm;
    }

    /// Change the time signature; the sample position is unchanged.
    pub fn set_time_signature(&mut self, sig_num: u32, sig_den: u32)
        requires
            old(self).wf(),
            sig_num > 0,
            sig_den > 0,
        ensures
            final(self).wf(),
            *final(self) == (Transport { sig_num, sig_den, ..*old(self) }),
    {
        self.sig_num = sig_num;
        self.sig_den = sig_den;
    }

    /// Configure the loop region.
    pub fn set_loop(&mut self, enabled: bool, loop_start: u64, loop_end: u64)
        requires
            old(self).wf(),
            enabled ==> loop_start <= loop_end,
            loop_end < POSITION_LIMIT,
        ensures
            final(self).wf(),
            *final(self) == (Transport { loop_enabled: enabled, loop_start, loop_end, ..*old(self) }),
    {
        self.loop_enabled = enabled;
        self.loop_start = loop_start;
        self.loop_end = loop_end;
    }

    /// The position in millibeats, derived from sample time: sample time is
    /// the ground truth and this conversion is pure derivation. The result
    /// saturates at the top of the `u64` range.
    pub fn position_millibeats(&self, sample_rate: u32) -> (mb: u64)
        requires
            self.wf(),
            sample_rate > 0,
        ensures
            mb as int == sat_u64(
                (self.position as int * self.tempo_mbpm as int) / (60 * sample_rate as int),
            ),
    {
        assert((self.position as u128) * (self.tempo_mbpm as u128)
            < 340282366920938463463374607431768211455u128) by (nonlinear_arith)
            requires
                (self.position as u128) < 0x4000000000000000u128,
                (self.tempo_mbpm as u128) < 18446744073709551616u128,
        ;
        let num: u128 = (self.position as u128) * (self.tempo_mbpm as u128);
        let mb: u128 = num / (60 * (sample_rate as u128));
        if mb > 0xFFFFFFFFFFFFFFFFu128 {
            u64::MAX
        } else {
            mb as u64
        }
    }
}

/// Mathematical saturation of a nonnegative integer into the `u64` range.
pub open spec fn sat_u64(x: int) -> int {
    if x > u64::MAX as int {
        u64::MAX as int
    } else {
        x
    }
}

/// Loop correctness: whenever a block straddles the loop end, the samples
/// played out of the tail of the loop and the samples played from the
/// loop start up to the new position sum to exactly the block size: no
/// sample is skipped and none is duplicated across the wrap, and both
/// parts are non-empty.
pub proof fn lemma_loop_wrap_exact(t: Transport, block_size: int)
    requires
        t.wf(),
        0 < block_size <= 0x100000,
        t.wraps(block_size),
    ensures
        ({
            let first_part = t.loop_end as int - t.position as int;
            let second_part = t.advanced(block_size).position as int - t.loop_start as int;
            &&& first_part + second_part == block_size
            &&& first_part > 0
            &&& second_part >= 0
        }),
{
}

} // verus!
