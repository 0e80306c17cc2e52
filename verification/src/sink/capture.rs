//! A sink that keeps every period it is given.

use vstd::prelude::*;

use crate::sink::{AudioSink, SampleFormat, SinkError, SinkErrorView, SinkParams, SINK_CHANNELS};

verus! {

#[derive(Debug)]
pub struct CaptureSink {
    pub params: SinkParams,
    /// Everything handed to the sink, in order. Made as large as it may get,
    /// so that a write never grows it.
    pub captured: Vec<i32>,
    pub capacity: usize,
    pub periods_written: u64,
    pub drained: bool,
}

/// A count that stops at its limit.
pub open spec fn counted(n: u64) -> u64 {
    if n < u64::MAX {
        (n + 1) as u64
    } else {
        n
    }
}

impl CaptureSink {
    pub open spec fn wf(&self) -> bool {
        &&& self.captured@.len() <= self.capacity
        &&& self.params.period_frames * SINK_CHANNELS <= usize::MAX
        &&& self.captured@.len() % SINK_CHANNELS as nat == 0
    }

    /// A sink that accepts at most this many frames.
    pub fn new(rate: u32, period_frames: usize, capacity_frames: usize) -> (r: CaptureSink)
        requires
            period_frames * SINK_CHANNELS <= usize::MAX,
            capacity_frames * SINK_CHANNELS <= usize::MAX,
        ensures
            r.wf(),
            r.params == (SinkParams {
                rate,
                channels: SINK_CHANNELS as u32,
                format: SampleFormat::S24Le,
                period_frames,
                periods: 2,
            }),
            r.captured@ == Seq::<i32>::empty(),
            r.capacity == capacity_frames * SINK_CHANNELS,
            r.periods_written == 0,
            !r.drained,
    {
        let capacity: usize = capacity_frames * SINK_CHANNELS;
        CaptureSink {
            params: SinkParams {
                rate,
                channels: SINK_CHANNELS as u32,
                format: SampleFormat::S24Le,
                period_frames,
                periods: 2,
            },
            captured: Vec::with_capacity(capacity),
            capacity,
            periods_written: 0,
            drained: false,
        }
    }

    pub fn captured(&self) -> (r: &[i32])
        ensures
            r@ == self.captured@,
    {
        self.captured.as_slice()
    }

    pub fn frames_written(&self) -> (r: usize)
        ensures
            r == self.captured@.len() / SINK_CHANNELS as nat,
    {
        self.captured.len() / SINK_CHANNELS
    }

    pub fn periods_written(&self) -> (r: u64)
        ensures
            r == self.periods_written,
    {
        self.periods_written
    }

    pub fn was_drained(&self) -> (r: bool)
        ensures
            r == self.drained,
    {
        self.drained
    }

    /// Forgets what was captured and keeps the room for it.
    pub fn reset(&mut self)
        requires
            old(self).wf(),
        ensures
            final(self).wf(),
            final(self).captured@ == Seq::<i32>::empty(),
            final(self).periods_written == 0,
            !final(self).drained,
            final(self).params == old(self).params,
            final(self).capacity == old(self).capacity,
    {
        self.captured.clear();
        self.periods_written = 0;
        self.drained = false;
    }
}

impl AudioSink for CaptureSink {
    open spec fn valid(&self) -> bool {
        self.wf()
    }

    open spec fn settled(&self) -> SinkParams {
        self.params
    }

    fn params(&self) -> (r: SinkParams) {
        self.params
    }

    /// Keeps the period where it is a whole number of frames and there is
    /// room, and changes nothing otherwise.
    fn write_period(&mut self, period: &[i32]) -> (r: Result<(), SinkError>)
        ensures
            r is Ok <==> period@.len() % SINK_CHANNELS as nat == 0 && old(self).captured@.len()
                + period@.len() <= old(self).capacity,
            r is Ok ==> final(self).captured@ == old(self).captured@ + period@
                && final(self).periods_written == counted(old(self).periods_written),
            r is Err ==> final(self).captured@ == old(self).captured@
                && final(self).periods_written == old(self).periods_written,
            r is Err && period@.len() % SINK_CHANNELS as nat == 0 ==> r->Err_0@
                == SinkErrorView::Device(
                "capture buffer full — construct it with more capacity"@,
            ),
            final(self).drained == old(self).drained,
            final(self).capacity == old(self).capacity,
    {
        if period.len() % SINK_CHANNELS != 0 {
            return Err(
                SinkError::WrongPeriodLength {
                    given: period.len(),
                    expected: self.params.period_frames * SINK_CHANNELS,
                },
            );
        }
        if period.len() > self.capacity - self.captured.len() {
            return Err(
                SinkError::Device(
                    "capture buffer full — construct it with more capacity".to_owned(),
                ),
            );
        }
        let ghost was = self.captured@;
        self.captured.extend_from_slice(period);
        assert(self.captured@ =~= was + period@);
        if self.periods_written < u64::MAX {
            self.periods_written = self.periods_written + 1;
        }
        Ok(())
    }

    fn drain(&mut self) -> (r: Result<(), SinkError>)
        ensures
            r is Ok,
            final(self).drained,
            final(self).captured@ == old(self).captured@,
            final(self).periods_written == old(self).periods_written,
            final(self).capacity == old(self).capacity,
    {
        self.drained = true;
        Ok(())
    }
}

/// A period written is one more, for as long as there is a number for it.
pub proof fn law_every_period_is_counted(n: u64)
    ensures
        n < 0xffff_ffff_ffff_ffff ==> counted(n) == n + 1,
        counted(0xffff_ffff_ffff_ffff) == 0xffff_ffff_ffff_ffffu64,
{
}

} // verus!
