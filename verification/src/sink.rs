//! The output device, behind a trait.
//!
//! Exactly one thing varies between the deck and a test: where a finished
//! period goes. Periods are interleaved stereo in the ring's own layout, so
//! nothing between the file and the converter converts anything.

use vstd::prelude::*;

use crate::file::RING_CHANNELS;
use crate::text::{decimal, push_decimal, push_signed, quote, quoted, signed_decimal};

pub mod alsa;
pub mod capture;

pub use alsa::AlsaSink;
pub use capture::CaptureSink;

verus! {

/// Samples per frame on the wire.
pub const SINK_CHANNELS: usize = RING_CHANNELS;

/// The only sample format in play: 24 bits, right-aligned in a 32-bit word.
#[derive(Debug, Clone, Copy, PartialEq, Eq, Structural)]
pub enum SampleFormat {
    S24Le,
}

impl SampleFormat {
    pub fn name(self) -> (r: &'static str)
        ensures
            r@ == "S24_LE"@,
    {
        "S24_LE"
    }
}

/// What is in force, as the device granted it.
#[derive(Debug, Clone, Copy, PartialEq, Eq, Structural)]
pub struct SinkParams {
    pub rate: u32,
    pub channels: u32,
    pub format: SampleFormat,
    pub period_frames: usize,
    pub periods: u32,
}

#[derive(Debug, Clone, PartialEq, Eq)]
pub enum SinkError {
    /// The device name is not that of raw hardware.
    NotHardwareDevice(String),
    /// The device does not take the source's exact rate.
    RateRefused { asked: u32 },
    /// The device reported something other than what was requested.
    Substituted { field: &'static str, asked: String, got: String },
    /// The period was late and the device ran dry.
    Underrun,
    /// The buffer is not a whole number of frames.
    WrongPeriodLength { given: usize, expected: usize },
    /// Anything the device itself reported, off the audio thread.
    Device(String),
    /// A device error on the audio thread, carried without allocating.
    DeviceRt { func: &'static str, errno: i32 },
}

/// A sink's error as a mathematical value.
pub enum SinkErrorView {
    NotHardwareDevice(Seq<char>),
    RateRefused { asked: u32 },
    Substituted { field: Seq<char>, asked: Seq<char>, got: Seq<char> },
    Underrun,
    WrongPeriodLength { given: int, expected: int },
    Device(Seq<char>),
    DeviceRt { func: Seq<char>, errno: i32 },
}

impl View for SinkError {
    type V = SinkErrorView;

    open spec fn view(&self) -> SinkErrorView {
        match *self {
            SinkError::NotHardwareDevice(d) => SinkErrorView::NotHardwareDevice(d@),
            SinkError::RateRefused { asked } => SinkErrorView::RateRefused { asked },
            SinkError::Substituted { field, asked, got } => SinkErrorView::Substituted {
                field: field@,
                asked: asked@,
                got: got@,
            },
            SinkError::Underrun => SinkErrorView::Underrun,
            SinkError::WrongPeriodLength { given, expected } => SinkErrorView::WrongPeriodLength {
                given: given as int,
                expected: expected as int,
            },
            SinkError::Device(m) => SinkErrorView::Device(m@),
            SinkError::DeviceRt { func, errno } => SinkErrorView::DeviceRt { func: func@, errno },
        }
    }
}

impl SinkError {
    pub open spec fn text(e: SinkErrorView) -> Seq<char> {
        match e {
            SinkErrorView::DeviceRt { func, errno } => func
                + " failed on the audio thread: errno "@ + signed_decimal(errno as int),
            SinkErrorView::NotHardwareDevice(d) => quoted(d)
                + " is not a hw: device — default mixes and plughw resamples, silently"@,
            SinkErrorView::RateRefused { asked } => "the device will not take "@ + decimal(
                asked as nat,
            ) + " Hz exactly"@,
            SinkErrorView::Substituted { field, asked, got } => "device substituted "@ + field
                + ": asked "@ + asked + ", got "@ + got,
            SinkErrorView::Underrun => "underrun — the period was late"@,
            SinkErrorView::WrongPeriodLength { given, expected } => "period is "@ + decimal(
                given as nat,
            ) + " samples, device wants "@ + decimal(expected as nat),
            SinkErrorView::Device(m) => "device: "@ + m,
        }
    }

    pub fn to_text(&self) -> (r: String)
        ensures
            r@ == SinkError::text(self@),
    {
        let mut out: String = String::new();
        match self {
            SinkError::DeviceRt { func, errno } => {
                out.append(func);
                out.append(" failed on the audio thread: errno ");
                push_signed(&mut out, *errno as i64);
            },
            SinkError::NotHardwareDevice(d) => {
                let named: String = quote(d.as_str());
                out.append(named.as_str());
                out.append(" is not a hw: device — default mixes and plughw resamples, silently");
            },
            SinkError::RateRefused { asked } => {
                out.append("the device will not take ");
                push_decimal(&mut out, *asked as u128);
                out.append(" Hz exactly");
            },
            SinkError::Substituted { field, asked, got } => {
                out.append("device substituted ");
                out.append(field);
                out.append(": asked ");
                out.append(asked.as_str());
                out.append(", got ");
                out.append(got.as_str());
            },
            SinkError::Underrun => {
                out.append("underrun — the period was late");
            },
            SinkError::WrongPeriodLength { given, expected } => {
                out.append("period is ");
                push_decimal(&mut out, *given as u128);
                out.append(" samples, device wants ");
                push_decimal(&mut out, *expected as u128);
            },
            SinkError::Device(m) => {
                out.append("device: ");
                out.append(m.as_str());
            },
        }
        assert(out@ =~= SinkError::text(self@));
        out
    }
}

/// What a period that is not a whole number of frames is answered.
pub open spec fn wrong_length(given: nat, params: SinkParams) -> SinkErrorView {
    SinkErrorView::WrongPeriodLength {
        given: given as int,
        expected: params.period_frames * SINK_CHANNELS,
    }
}

/// Where a finished period goes.
pub trait AudioSink {
    /// The sink can be written to.
    spec fn valid(&self) -> bool;

    /// What the device settled on.
    spec fn settled(&self) -> SinkParams;

    fn params(&self) -> (r: SinkParams)
        requires
            self.valid(),
        ensures
            r == self.settled(),
    ;

    /// Frames the device wants per write.
    fn period_frames(&self) -> (r: usize)
        requires
            self.valid(),
        ensures
            r == self.settled().period_frames,
    {
        self.params().period_frames
    }

    /// Hands one period to the device. Called from the audio thread.
    fn write_period(&mut self, period: &[i32]) -> (r: Result<(), SinkError>)
        requires
            old(self).valid(),
        ensures
            final(self).valid(),
            final(self).settled() == old(self).settled(),
            period@.len() % SINK_CHANNELS as nat != 0 ==> r is Err && r->Err_0@ == wrong_length(
                period@.len(),
                old(self).settled(),
            ),
    ;

    /// Blocks until everything queued has been played.
    fn drain(&mut self) -> (r: Result<(), SinkError>)
        requires
            old(self).valid(),
        ensures
            final(self).valid(),
            final(self).settled() == old(self).settled(),
    ;

    /// Checks that the device is running what it was asked for. A sink with no
    /// device has nothing that could have been substituted underneath it.
    fn verify_in_force(&self) -> (r: Result<(), SinkError>)
        requires
            self.valid(),
        default_ensures
            r is Ok,
    {
        Ok(())
    }
}

} // verus!
