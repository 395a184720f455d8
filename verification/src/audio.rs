//! Placement of timestamped audio on the output sample timeline,
//! independent of video encoder backpressure.
use vstd::prelude::*;

verus! {

/// Output sample index nearest to output time `nanos` at `rate` samples per
/// second (halves round up), saturating at `u64::MAX`.
pub open spec fn sample_at(nanos: u64, rate: u32) -> u64 {
    let exact = (2 * nanos * rate + 1_000_000_000) / 2_000_000_000int;
    if exact <= u64::MAX {
        exact as u64
    } else {
        u64::MAX
    }
}

fn sample_at_exec(nanos: u64, rate: u32) -> (r: u64)
    ensures
        r == sample_at(nanos, rate),
{
    assert(2 * nanos * rate + 1_000_000_000 <= u128::MAX) by (nonlinear_arith)
        requires
            nanos <= u64::MAX,
            rate <= u32::MAX,
    ;
    let exact: u128 = (2 * nanos as u128 * rate as u128 + 1_000_000_000) / 2_000_000_000;
    if exact <= u64::MAX as u128 {
        exact as u64
    } else {
        u64::MAX
    }
}

/// Where one active slice of an audio buffer lands in the output.
#[derive(Debug, Clone, Copy, PartialEq, Eq, Structural)]
pub struct SlicePlan {
    /// Silent samples to write first, filling a gap before the slice.
    pub silence: u64,
    /// Output sample index of the slice's start.
    pub start: u64,
    /// First output sample to fill from the buffer (earlier ones were
    /// already written).
    pub first: u64,
    /// One past the last output sample of the slice.
    pub end: u64,
}

/// The output audio stream's position and bookkeeping.
#[derive(Debug, Clone, Copy)]
pub struct AudioTimeline {
    pub rate: u32,
    /// Output samples written so far.
    pub written: u64,
    /// Silent samples inserted to fill gaps.
    pub inserted_silence: u64,
    /// Samples of later buffers that overlapped samples already written.
    pub overlap_samples: u64,
}

/// The plan for a slice starting at output time `output_start` and lasting
/// `length` nanoseconds, given the samples already written.
pub open spec fn plan_for(written: u64, rate: u32, output_start: u64, length: u64) -> SlicePlan {
    let start = sample_at(output_start, rate);
    let end = sample_at(crate::model::sat_add(output_start, length), rate);
    SlicePlan {
        silence: crate::model::sat_sub(start, written),
        start,
        first: if written >= start {
            written
        } else {
            start
        },
        end,
    }
}

impl AudioTimeline {
    /// A stream at `rate` samples per second with nothing written.
    pub fn new(rate: u32) -> (r: Self)
        ensures
            r.rate == rate,
            r.written == 0,
            r.inserted_silence == 0,
            r.overlap_samples == 0,
    {
        AudioTimeline { rate, written: 0, inserted_silence: 0, overlap_samples: 0 }
    }

    /// Places the slice starting at output time `output_start` (ns) and
    /// lasting `length` ns: a gap before it is filled with silence, samples
    /// already written are not written again (and are counted as overlap),
    /// and the stream then ends at the slice's end unless it already reached
    /// further.
    pub fn place(&mut self, output_start: u64, length: u64) -> (plan: SlicePlan)
        ensures
            plan == plan_for(old(self).written, old(self).rate, output_start, length),
            final(self).rate == old(self).rate,
            final(self).written == (if plan.end >= plan.first {
                plan.end
            } else {
                plan.first
            }),
            final(self).inserted_silence == crate::model::sat_add(
                old(self).inserted_silence,
                plan.silence,
            ),
            final(self).overlap_samples == crate::model::sat_add(
                old(self).overlap_samples,
                if crate::model::sat_sub(old(self).written, plan.start) <= crate::model::sat_sub(
                    plan.end,
                    plan.start,
                ) {
                    crate::model::sat_sub(old(self).written, plan.start)
                } else {
                    crate::model::sat_sub(plan.end, plan.start)
                },
            ),
    {
        let start = sample_at_exec(output_start, self.rate);
        let end = sample_at_exec(output_start.saturating_add(length), self.rate);
        let behind = self.written.saturating_sub(start);
        let span = end.saturating_sub(start);
        let overlap = if behind <= span {
            behind
        } else {
            span
        };
        self.overlap_samples = self.overlap_samples.saturating_add(overlap);
        let silence = start.saturating_sub(self.written);
        self.inserted_silence = self.inserted_silence.saturating_add(silence);
        let first = if self.written >= start {
            self.written
        } else {
            start
        };
        self.written = if end >= first {
            end
        } else {
            first
        };
        SlicePlan { silence, start, first, end }
    }

    /// An empty stream still gets one silent sample so the file is valid.
    pub fn needs_padding(&self) -> (r: bool)
        ensures
            r == (self.written == 0),
    {
        self.written == 0
    }
}

/// The written position never moves backwards, and the planned samples are
/// exactly those between the stream's old and new end.
pub proof fn lemma_audio_stream_only_grows(a: AudioTimeline, output_start: u64, length: u64)
    ensures
        ({
            let plan = plan_for(a.written, a.rate, output_start, length);
            let new_written = if plan.end >= plan.first {
                plan.end
            } else {
                plan.first
            };
            &&& new_written >= a.written
            &&& a.written + plan.silence == plan.first
            &&& new_written == plan.first + crate::model::sat_sub(plan.end, plan.first)
        }),
{
}

} // verus!
