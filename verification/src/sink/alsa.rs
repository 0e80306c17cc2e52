//! What is asked of the sound card, and what it is held to.
//!
//! A device converts quietly if it is asked wrongly, so only raw hardware is
//! opened, the rate is asked for exactly, and everything that was granted is
//! read back and compared.

use vstd::prelude::*;

use crate::media::same_text;
use crate::scan::{
    all_white, find, first_at, first_word, law_a_word_of_digits_is_its_number, law_the_first_is_found,
    law_the_first_word_is_found, law_trimming_takes_the_space_around, lines, lines_of, none_white, number,
    number_of, same_chars, starts, starts_with, texts, trim, trimmed, white, word,
};
use crate::sink::{SampleFormat, SinkError, SinkErrorView, SinkParams, SINK_CHANNELS};
use crate::text::{
    chars_of, decimal, decimal_text, law_a_number_is_written_as_what_it_is, push_decimal, push_signed,
    quote, quoted, signed_decimal, string_of,
};
use vstd::slice::slice_subrange;

verus! {

/// Whether a name is that of raw hardware.
pub open spec fn hardware(name: Seq<char>) -> bool {
    name == "hw"@ || starts(name, "hw:"@)
}

/// True only for a raw hardware device: everything else may mix or resample,
/// and does not say so.
pub fn is_hardware_device(name: &str) -> (r: bool)
    ensures
        r == hardware(name@),
{
    let cs: Vec<char> = chars_of(name);
    let prefix: Vec<char> = chars_of("hw:");
    same_text(name, "hw") || starts_with(cs.as_slice(), prefix.as_slice())
}

/// No resampling, no conversion of channels or of the format, and no software
/// volume. Blocking.
pub const NO_AUTO_RESAMPLE: u32 = 0x0001_0000;

pub const NO_AUTO_CHANNELS: u32 = 0x0002_0000;

pub const NO_AUTO_FORMAT: u32 = 0x0004_0000;

pub const NO_SOFTVOL: u32 = 0x0008_0000;

/// The mode a device is opened in: each of the four flags, and nothing else.
pub fn open_flags() -> (r: u32)
    ensures
        r == NO_AUTO_RESAMPLE + NO_AUTO_CHANNELS + NO_AUTO_FORMAT + NO_SOFTVOL,
{
    NO_AUTO_RESAMPLE + NO_AUTO_CHANNELS + NO_AUTO_FORMAT + NO_SOFTVOL
}

/// What the kernel reports of a running stream.
#[derive(Debug, Clone, PartialEq, Eq)]
pub struct ProcHwParams {
    pub access: String,
    pub format: String,
    pub channels: u32,
    pub rate: u32,
    pub period_size: u64,
    pub buffer_size: u64,
}

/// The same as a mathematical value, with a place for each value that may not
/// have been found.
pub struct Gathered {
    pub access: Option<Seq<char>>,
    pub format: Option<Seq<char>>,
    pub channels: Option<nat>,
    pub rate: Option<nat>,
    pub period_size: Option<nat>,
    pub buffer_size: Option<nat>,
}

impl View for ProcHwParams {
    type V = Gathered;

    open spec fn view(&self) -> Gathered {
        Gathered {
            access: Some(self.access@),
            format: Some(self.format@),
            channels: Some(self.channels as nat),
            rate: Some(self.rate as nat),
            period_size: Some(self.period_size as nat),
            buffer_size: Some(self.buffer_size as nat),
        }
    }
}

/// Nothing found yet.
pub open spec fn nothing() -> Gathered {
    Gathered {
        access: None,
        format: None,
        channels: None,
        rate: None,
        period_size: None,
        buffer_size: None,
    }
}

/// Whether everything has been found.
pub open spec fn complete(g: Gathered) -> bool {
    g.access is Some && g.format is Some && g.channels is Some && g.rate is Some
        && g.period_size is Some && g.buffer_size is Some
}

/// The value on a line: the first word after the colon.
pub open spec fn value_on(line: Seq<char>) -> Seq<char> {
    match first_word(line.skip(first_at(line, ':') + 1)) {
        Some(w) => w,
        None => Seq::empty(),
    }
}

pub open spec fn key_on(line: Seq<char>) -> Seq<char> {
    trimmed(line.take(first_at(line, ':')))
}

/// What one line adds. A key that comes again replaces what came before.
pub open spec fn gather(g: Gathered, line: Seq<char>) -> Gathered {
    let key = key_on(line);
    let value = value_on(line);
    if key == "access"@ {
        Gathered { access: Some(value), ..g }
    } else if key == "format"@ {
        Gathered { format: Some(value), ..g }
    } else if key == "channels"@ {
        Gathered { channels: number_of(value, u32::MAX as nat), ..g }
    } else if key == "rate"@ {
        Gathered { rate: number_of(value, u32::MAX as nat), ..g }
    } else if key == "period_size"@ {
        Gathered { period_size: number_of(value, u64::MAX as nat), ..g }
    } else if key == "buffer_size"@ {
        Gathered { buffer_size: number_of(value, u64::MAX as nat), ..g }
    } else {
        g
    }
}

/// What all the lines say. A line without a colon makes it no set of
/// parameters at all.
pub open spec fn gathered(lines: Seq<Seq<char>>) -> Option<Gathered>
    decreases lines.len(),
{
    if lines.len() == 0 {
        Some(nothing())
    } else {
        let line = lines.last();
        match gathered(lines.drop_last()) {
            Some(g) if first_at(line, ':') < line.len() => Some(gather(g, line)),
            _ => None,
        }
    }
}

/// The parameters a text holds, where it holds all of them.
pub open spec fn params_in(text: Seq<char>) -> Option<Gathered> {
    match gathered(lines_of(text)) {
        Some(g) if complete(g) => Some(g),
        _ => None,
    }
}

/// A number that was found, as a mathematical value.
pub open spec fn found(n: Option<u64>) -> Option<nat> {
    match n {
        Some(v) => Some(v as nat),
        None => None,
    }
}

spec fn held(
    access: Option<String>,
    format: Option<String>,
    channels: Option<u64>,
    rate: Option<u64>,
    period_size: Option<u64>,
    buffer_size: Option<u64>,
) -> Gathered {
    Gathered {
        access: crate::media::text_option(access),
        format: crate::media::text_option(format),
        channels: found(channels),
        rate: found(rate),
        period_size: found(period_size),
        buffer_size: found(buffer_size),
    }
}

fn keyed(key: &[char], name: &str) -> (r: bool)
    ensures
        r == (key@ == name@),
{
    let cs: Vec<char> = chars_of(name);
    same_chars(key, cs.as_slice())
}

/// Reads the parameters out of the kernel's text. A closed stream has none.
pub fn parse_proc_hw_params(text: &str) -> (r: Option<ProcHwParams>)
    ensures
        r is Some <==> params_in(text@) is Some,
        r matches Some(p) ==> Some(p@) == params_in(text@),
{
    let mut access: Option<String> = None;
    let mut format: Option<String> = None;
    let mut channels: Option<u64> = None;
    let mut rate: Option<u64> = None;
    let mut period_size: Option<u64> = None;
    let mut buffer_size: Option<u64> = None;
    let cs: Vec<char> = chars_of(text);
    let all: Vec<Vec<char>> = lines(cs.as_slice());
    let ghost ls = lines_of(text@);
    let mut i: usize = 0;
    assert(ls.take(0) =~= Seq::empty());
    while i < all.len()
        invariant
            i <= all@.len(),
            texts(all@) == ls,
            gathered(ls.take(i as int)) == Some(
                held(access, format, channels, rate, period_size, buffer_size),
            ),
            channels matches Some(n) ==> n <= u32::MAX,
            rate matches Some(n) ==> n <= u32::MAX,
            ls == lines_of(text@),
        decreases all@.len() - i,
    {
        let line: &[char] = all[i].as_slice();
        assert(line@ == ls[i as int]);
        assert(ls.take(i + 1).drop_last() =~= ls.take(i as int));
        let colon: usize = find(line, ':');
        if colon >= line.len() {
            proof {
                lemma_never_gathered(ls, i + 1);
            }
            return None;
        }
        let key: Vec<char> = trim(slice_subrange(line, 0, colon));
        assert(line@.subrange(0, colon as int) =~= line@.take(colon as int));
        assert(key@ == key_on(line@));
        let rest: &[char] = slice_subrange(line, colon + 1, line.len());
        assert(rest@ =~= line@.skip(colon + 1));
        let value: Vec<char> = match word(rest) {
            Some(w) => w,
            None => Vec::new(),
        };
        assert(value@ =~= value_on(line@));
        let k: &[char] = key.as_slice();
        let v: &[char] = value.as_slice();
        if keyed(k, "access") {
            access = Some(string_of(v));
        } else if keyed(k, "format") {
            format = Some(string_of(v));
        } else if keyed(k, "channels") {
            channels = number(v, u32::MAX as u64);
        } else if keyed(k, "rate") {
            rate = number(v, u32::MAX as u64);
        } else if keyed(k, "period_size") {
            period_size = number(v, u64::MAX);
        } else if keyed(k, "buffer_size") {
            buffer_size = number(v, u64::MAX);
        }
        i = i + 1;
    }
    assert(ls.take(i as int) =~= ls);
    match (access, format, channels, rate, period_size, buffer_size) {
        (
            Some(access),
            Some(format),
            Some(channels),
            Some(rate),
            Some(period_size),
            Some(buffer_size),
        ) => Some(
            ProcHwParams {
                access,
                format,
                channels: channels as u32,
                rate: rate as u32,
                period_size,
                buffer_size,
            },
        ),
        _ => None,
    }
}

proof fn lemma_never_gathered(ls: Seq<Seq<char>>, n: int)
    requires
        0 < n <= ls.len(),
        gathered(ls.take(n)) is None,
    ensures
        gathered(ls) is None,
    decreases ls.len() - n,
{
    if n < ls.len() {
        assert(ls.take(n + 1).drop_last() =~= ls.take(n));
        lemma_never_gathered(ls, n + 1);
    } else {
        assert(ls.take(n) =~= ls);
    }
}

/// Where the kernel reports what a stream is running.
pub open spec fn proc_path(card: i32, device: u32) -> Seq<char> {
    "/proc/asound/card"@ + signed_decimal(card as int) + "/pcm"@ + decimal(device as nat)
        + "p/sub0/hw_params"@
}

pub fn proc_hw_params_path(card: i32, device: u32) -> (r: String)
    ensures
        r@ == proc_path(card, device),
{
    let mut out: String = String::new();
    out.append("/proc/asound/card");
    push_signed(&mut out, card as i64);
    out.append("/pcm");
    push_decimal(&mut out, device as u128);
    out.append("p/sub0/hw_params");
    assert(out@ =~= proc_path(card, device));
    out
}

/// What a file that was read, or the reason it was not, says is running.
pub open spec fn proc_read(card: i32, device: u32, file: Result<Seq<char>, Seq<char>>) -> Result<
    Gathered,
    SinkErrorView,
> {
    let path = proc_path(card, device);
    match file {
        Err(reason) => Err(SinkErrorView::Device(path + ": "@ + reason)),
        Ok(text) => match params_in(text) {
            Some(p) => Ok(p),
            None => Err(SinkErrorView::Device(path + " did not parse: "@ + quoted(text))),
        },
    }
}

/// What was read of a file, as a mathematical value.
pub open spec fn file_view(file: Result<String, String>) -> Result<Seq<char>, Seq<char>> {
    match file {
        Ok(text) => Ok(text@),
        Err(reason) => Err(reason@),
    }
}

pub open spec fn params_view(r: Result<ProcHwParams, SinkError>) -> Result<Gathered, SinkErrorView> {
    match r {
        Ok(p) => Ok(p@),
        Err(e) => Err(e@),
    }
}

/// The kernel's own view of the running stream, from the text of its file.
pub fn read_proc_hw_params(card: i32, device: u32, file: Result<String, String>) -> (r: Result<
    ProcHwParams,
    SinkError,
>)
    ensures
        params_view(r) == proc_read(card, device, file_view(file)),
{
    match file {
        Err(reason) => {
            let mut out: String = proc_hw_params_path(card, device);
            out.append(": ");
            out.append(reason.as_str());
            Err(SinkError::Device(out))
        },
        Ok(text) => match parse_proc_hw_params(text.as_str()) {
            Some(p) => Ok(p),
            None => {
                let mut out: String = proc_hw_params_path(card, device);
                out.append(" did not parse: ");
                let shown: String = quote(text.as_str());
                out.append(shown.as_str());
                Err(SinkError::Device(out))
            },
        },
    }
}

/// What to ask the card for: everything exactly, but for the period and how
/// many of them there are.
#[derive(Debug)]
pub struct Request {
    pub name: String,
    pub flags: u32,
    pub channels: u32,
    pub rate: u32,
    pub period_frames: usize,
    pub periods: u32,
}

/// What the card granted, read back.
#[derive(Debug)]
pub struct Granted {
    pub rate: u32,
    /// As the card's library names it.
    pub format: String,
    pub channels: u32,
    pub period_frames: usize,
    pub periods: u32,
    pub card: i32,
    pub device: u32,
}

/// Why a grant is not what was asked for: the first thing that differs.
pub open spec fn substituted(rate: u32, g: Granted) -> Option<SinkErrorView> {
    if g.rate != rate {
        Some(
            SinkErrorView::Substituted {
                field: "rate"@,
                asked: decimal(rate as nat),
                got: decimal(g.rate as nat),
            },
        )
    } else if g.format@ != "S24LE"@ {
        Some(
            SinkErrorView::Substituted { field: "format"@, asked: "S24_LE"@, got: g.format@ },
        )
    } else if g.channels != SINK_CHANNELS {
        Some(
            SinkErrorView::Substituted {
                field: "channels"@,
                asked: decimal(SINK_CHANNELS as nat),
                got: decimal(g.channels as nat),
            },
        )
    } else {
        None
    }
}

/// A sink on a card that was opened.
#[derive(Debug)]
pub struct AlsaSink {
    pub params: SinkParams,
    pub card: i32,
    pub device: u32,
}

/// Why what is running is not what was granted: the first thing that differs.
pub open spec fn not_in_force(params: SinkParams, p: ProcHwParams) -> Option<SinkErrorView> {
    if p.rate != params.rate {
        Some(
            SinkErrorView::Substituted {
                field: "rate (in force)"@,
                asked: decimal(params.rate as nat),
                got: decimal(p.rate as nat),
            },
        )
    } else if p.format@ != "S24_LE"@ {
        Some(
            SinkErrorView::Substituted {
                field: "format (in force)"@,
                asked: "S24_LE"@,
                got: p.format@,
            },
        )
    } else if p.channels != params.channels {
        Some(
            SinkErrorView::Substituted {
                field: "channels (in force)"@,
                asked: decimal(params.channels as nat),
                got: decimal(p.channels as nat),
            },
        )
    } else {
        None
    }
}

/// What writing part of a period came to.
#[derive(Debug, Clone, Copy, PartialEq, Eq)]
pub enum Written {
    Frames(usize),
    /// The device ran dry, and this is what preparing it again came to.
    RanDry { prepared: Result<(), Failure> },
    Failed(Failure),
}

/// A call of the card's library that failed.
#[derive(Debug, Clone, Copy, PartialEq, Eq)]
pub struct Failure {
    pub func: &'static str,
    pub errno: i32,
}

/// What to do next about a period.
#[derive(Debug)]
pub enum Progress {
    /// Write what there is from this sample on.
    Write(usize),
    Done(Result<(), SinkError>),
}

impl AlsaSink {
    /// What to ask a device for, where it is one that may be asked.
    pub fn request(device: &str, rate: u32, period_frames: usize, periods: u32) -> (r: Result<
        Request,
        SinkError,
    >)
        ensures
            r is Ok <==> hardware(device@) && first_at(device@, '\0') >= device@.len(),
            r matches Err(e) ==> e@ == SinkErrorView::NotHardwareDevice(device@),
            r matches Ok(q) ==> q.name@ == device@ && q.flags == NO_AUTO_RESAMPLE + NO_AUTO_CHANNELS
                + NO_AUTO_FORMAT + NO_SOFTVOL && q.channels == SINK_CHANNELS && q.rate == rate
                && q.period_frames == period_frames && q.periods == periods,
    {
        let cs: Vec<char> = chars_of(device);
        let nul: usize = find(cs.as_slice(), '\0');
        if !is_hardware_device(device) || nul < cs.len() {
            return Err(SinkError::NotHardwareDevice(device.to_owned()));
        }
        Ok(
            Request {
                name: device.to_owned(),
                flags: open_flags(),
                channels: SINK_CHANNELS as u32,
                rate,
                period_frames,
                periods,
            },
        )
    }

    /// The sink, where the card granted what the track needs. The period and
    /// how many of them there are may differ: latency is a preference, and the
    /// rate is correctness.
    pub fn open(request: &Request, granted: Granted) -> (r: Result<AlsaSink, SinkError>)
        ensures
            r is Ok <==> substituted(request.rate, granted) is None,
            r matches Err(e) ==> Some(e@) == substituted(request.rate, granted),
            r matches Ok(s) ==> s.params == (SinkParams {
                rate: request.rate,
                channels: granted.channels,
                format: SampleFormat::S24Le,
                period_frames: granted.period_frames,
                periods: granted.periods,
            }) && s.card == granted.card && s.device == granted.device,
    {
        if granted.rate != request.rate {
            return Err(
                SinkError::Substituted {
                    field: "rate",
                    asked: decimal_text(request.rate as u128),
                    got: decimal_text(granted.rate as u128),
                },
            );
        }
        if !same_text(granted.format.as_str(), "S24LE") {
            return Err(
                SinkError::Substituted {
                    field: "format",
                    asked: "S24_LE".to_owned(),
                    got: granted.format,
                },
            );
        }
        if granted.channels != SINK_CHANNELS as u32 {
            return Err(
                SinkError::Substituted {
                    field: "channels",
                    asked: decimal_text(SINK_CHANNELS as u128),
                    got: decimal_text(granted.channels as u128),
                },
            );
        }
        Ok(
            AlsaSink {
                params: SinkParams {
                    rate: request.rate,
                    channels: granted.channels,
                    format: SampleFormat::S24Le,
                    period_frames: granted.period_frames,
                    periods: granted.periods,
                },
                card: granted.card,
                device: granted.device,
            },
        )
    }

    pub fn card(&self) -> (r: i32)
        ensures
            r == self.card,
    {
        self.card
    }

    /// Whether the stream runs what was granted, from what the kernel reports
    /// of it.
    pub fn hw_params_in_force(&self, reported: Result<ProcHwParams, SinkError>) -> (r: Result<
        ProcHwParams,
        SinkError,
    >)
        ensures
            match reported {
                Err(e) => r is Err && r->Err_0 == e,
                Ok(p) => match not_in_force(self.params, p) {
                    Some(why) => r is Err && r->Err_0@ == why,
                    None => r is Ok && r->Ok_0 == p,
                },
            },
    {
        let p: ProcHwParams = match reported {
            Ok(p) => p,
            Err(e) => {
                return Err(e);
            },
        };
        if p.rate != self.params.rate {
            return Err(
                SinkError::Substituted {
                    field: "rate (in force)",
                    asked: decimal_text(self.params.rate as u128),
                    got: decimal_text(p.rate as u128),
                },
            );
        }
        if !same_text(p.format.as_str(), "S24_LE") {
            return Err(
                SinkError::Substituted {
                    field: "format (in force)",
                    asked: "S24_LE".to_owned(),
                    got: p.format,
                },
            );
        }
        if p.channels != self.params.channels {
            return Err(
                SinkError::Substituted {
                    field: "channels (in force)",
                    asked: decimal_text(self.params.channels as u128),
                    got: decimal_text(p.channels as u128),
                },
            );
        }
        Ok(p)
    }

    /// What to do about a period of this many samples.
    pub fn begin(&self, samples: usize) -> (r: Progress)
        requires
            self.params.period_frames * SINK_CHANNELS <= usize::MAX,
        ensures
            match r {
                Progress::Write(from) => samples % SINK_CHANNELS == 0 && samples > 0 && from == 0,
                Progress::Done(Ok(_)) => samples == 0,
                Progress::Done(Err(e)) => samples % SINK_CHANNELS != 0 && e@
                    == crate::sink::wrong_length(samples as nat, self.params),
            },
    {
        if samples % SINK_CHANNELS != 0 {
            return Progress::Done(
                Err(
                    SinkError::WrongPeriodLength {
                        given: samples,
                        expected: self.params.period_frames * SINK_CHANNELS,
                    },
                ),
            );
        }
        if samples == 0 {
            Progress::Done(Ok(()))
        } else {
            Progress::Write(0)
        }
    }

    /// What to do after a write that started at a sample. A device that ran
    /// dry is prepared again, and the period counts as late.
    pub fn after(from: usize, samples: usize, wrote: Written) -> (r: Progress)
        requires
            wrote matches Written::Frames(n) ==> from + n * SINK_CHANNELS <= usize::MAX,
        ensures
            match wrote {
                Written::Frames(n) => if from + n * SINK_CHANNELS < samples {
                    r == Progress::Write((from + n * SINK_CHANNELS) as usize)
                } else {
                    r == Progress::Done(Ok(()))
                },
                Written::RanDry { prepared: Ok(_) } => r == Progress::Done(
                    Err(SinkError::Underrun),
                ),
                Written::RanDry { prepared: Err(f) } => r == Progress::Done(
                    Err(SinkError::DeviceRt { func: f.func, errno: f.errno }),
                ),
                Written::Failed(f) => r == Progress::Done(
                    Err(SinkError::DeviceRt { func: f.func, errno: f.errno }),
                ),
            },
    {
        match wrote {
            Written::Frames(n) => {
                let written: usize = from + n * SINK_CHANNELS;
                if written < samples {
                    Progress::Write(written)
                } else {
                    Progress::Done(Ok(()))
                }
            },
            Written::RanDry { prepared: Ok(_) } => Progress::Done(Err(SinkError::Underrun)),
            Written::RanDry { prepared: Err(f) } => Progress::Done(
                Err(SinkError::DeviceRt { func: f.func, errno: f.errno }),
            ),
            Written::Failed(f) => Progress::Done(
                Err(SinkError::DeviceRt { func: f.func, errno: f.errno }),
            ),
        }
    }
}

/// One element of a card's mixer.
#[derive(Debug)]
pub struct Control {
    pub name: String,
    pub playback_volume: bool,
    pub playback_switch: bool,
    pub capture_volume: bool,
}

/// Whether an element can scale or mute the stream. One that only selects an
/// input cannot.
pub open spec fn scales(c: Control) -> bool {
    c.playback_volume || c.playback_switch || c.capture_volume
}

/// The names of the elements that can.
pub open spec fn scalers(controls: Seq<Control>) -> Seq<Seq<char>>
    decreases controls.len(),
{
    if controls.len() == 0 {
        Seq::empty()
    } else if scales(controls.last()) {
        scalers(controls.drop_last()).push(controls.last().name@)
    } else {
        scalers(controls.drop_last())
    }
}

/// Names in quotes, with commas between them.
pub open spec fn listed(names: Seq<Seq<char>>) -> Seq<char>
    decreases names.len(),
{
    if names.len() == 0 {
        Seq::empty()
    } else if names.len() == 1 {
        quoted(names[0])
    } else {
        listed(names.drop_last()) + ", "@ + quoted(names.last())
    }
}

/// Why a card may not be used: it has something to scale the stream with.
pub fn assert_no_mixer_controls(card: i32, controls: &[Control]) -> (r: Result<(), SinkError>)
    ensures
        r is Ok <==> scalers(controls@).len() == 0,
        r matches Err(e) ==> e@ == SinkErrorView::Device(
            "card "@ + signed_decimal(card as int) + " exposes volume or mute controls ["@ + listed(
                scalers(controls@),
            ) + "] — the driver scales the stream even on hw:"@,
        ),
{
    let mut names: String = String::new();
    let mut any: bool = false;
    let mut i: usize = 0;
    assert(controls@.take(0) =~= Seq::empty());
    assert(names@ =~= listed(Seq::empty()));
    while i < controls.len()
        invariant
            i <= controls@.len(),
            any == (scalers(controls@.take(i as int)).len() > 0),
            names@ == listed(scalers(controls@.take(i as int))),
        decreases controls@.len() - i,
    {
        let ghost upto = controls@.take(i + 1);
        assert(upto.drop_last() =~= controls@.take(i as int));
        assert(upto.last() == controls@[i as int]);
        let c: &Control = &controls[i];
        if c.playback_volume || c.playback_switch || c.capture_volume {
            let ghost before = scalers(controls@.take(i as int));
            let ghost now = scalers(upto);
            assert(now == before.push(c.name@));
            assert(now.drop_last() =~= before);
            let ghost said = names@;
            let shown: String = quote(c.name.as_str());
            if any {
                names.append(", ");
                names.append(shown.as_str());
                assert(names@ =~= said + ", "@ + quoted(c.name@));
            } else {
                names.append(shown.as_str());
                assert(said =~= Seq::empty());
                assert(names@ =~= quoted(c.name@));
            }
            any = true;
        }
        i = i + 1;
    }
    assert(controls@.take(i as int) =~= controls@);
    if !any {
        return Ok(());
    }
    let mut out: String = String::new();
    out.append("card ");
    push_signed(&mut out, card as i64);
    out.append(" exposes volume or mute controls [");
    out.append(names.as_str());
    out.append("] — the driver scales the stream even on hw:");
    assert(out@ =~= "card "@ + signed_decimal(card as int) + " exposes volume or mute controls ["@
        + listed(scalers(controls@)) + "] — the driver scales the stream even on hw:"@);
    Err(SinkError::Device(out))
}

/// Raw hardware is `hw`, or `hw` and a colon and whatever comes behind it, and
/// nothing else is.
pub proof fn law_what_is_hardware(name: Seq<char>)
    ensures
        hardware(name) <==> name.len() >= 2 && name[0] == 'h' && name[1] == 'w' && (name.len() == 2
            || name[2] == ':'),
{
    reveal_strlit("hw");
    reveal_strlit("hw:");
    if name.len() == 2 && name[0] == 'h' && name[1] == 'w' {
        assert(name =~= "hw"@);
    }
    if name.len() > 2 && name[0] == 'h' && name[1] == 'w' && name[2] == ':' {
        assert(name.take(3) =~= "hw:"@);
    }
    if starts(name, "hw:"@) {
        assert(name.take(3)[0] == 'h' && name.take(3)[1] == 'w' && name.take(3)[2] == ':');
    }
}

/// A line is its key, a colon and its value: the key stands before the first
/// colon, with any space around it, and the value is the first word behind it.
proof fn lemma_a_line_is_a_key_and_a_value(key: Seq<char>, value: Seq<char>, rest: Seq<char>)
    requires
        key.len() > 0,
        none_white(key),
        !key.contains(':'),
        value.len() > 0,
        none_white(value),
        rest.len() == 0 || white(rest[0]),
    ensures
        key_on(key + seq![':', ' '] + value + rest) == key,
        value_on(key + seq![':', ' '] + value + rest) == value,
        first_at(key + seq![':', ' '] + value + rest, ':') == key.len(),
        key.len() < (key + seq![':', ' '] + value + rest).len(),
{
    let line = key + seq![':', ' '] + value + rest;
    let tail = seq![' '] + value + rest;
    assert(line =~= key.push(':') + tail);
    law_the_first_is_found(key, ':', tail);
    assert(line.take(key.len() as int) =~= key);
    assert(line.skip(key.len() as int + 1) =~= tail);
    let none = Seq::<char>::empty();
    assert(!white(key[0]) && !white(key[key.len() - 1]));
    law_trimming_takes_the_space_around(none, key, none);
    assert(none + key + none =~= key);
    law_the_first_word_is_found(seq![' '], value, rest);
}

/// Each line of what is in force fills the field it names, with what it says,
/// and no other: the access and the format as they stand, the channels, the
/// rate and the two sizes as the numbers they are; and a line of another name
/// changes nothing.
pub proof fn law_a_line_fills_the_field_it_names(
    g: Gathered,
    name: Seq<char>,
    word: Seq<char>,
    n: nat,
    rest: Seq<char>,
)
    requires
        n <= u32::MAX,
        word.len() > 0,
        none_white(word),
        rest.len() == 0 || white(rest[0]),
    ensures
        name == "access"@ ==> gather(g, name + seq![':', ' '] + word + rest) == (Gathered {
            access: Some(word),
            ..g
        }),
        name == "format"@ ==> gather(g, name + seq![':', ' '] + word + rest) == (Gathered {
            format: Some(word),
            ..g
        }),
        name == "channels"@ ==> gather(g, name + seq![':', ' '] + decimal(n) + rest) == (Gathered {
            channels: Some(n),
            ..g
        }),
        name == "rate"@ ==> gather(g, name + seq![':', ' '] + decimal(n) + rest) == (Gathered {
            rate: Some(n),
            ..g
        }),
        name == "period_size"@ ==> gather(g, name + seq![':', ' '] + decimal(n) + rest) == (
        Gathered { period_size: Some(n), ..g }),
        name == "buffer_size"@ ==> gather(g, name + seq![':', ' '] + decimal(n) + rest) == (
        Gathered { buffer_size: Some(n), ..g }),
        name == "subformat"@ ==> gather(g, name + seq![':', ' '] + word + rest) == g,
{
    reveal_strlit("access");
    reveal_strlit("format");
    reveal_strlit("subformat");
    reveal_strlit("channels");
    reveal_strlit("rate");
    reveal_strlit("period_size");
    reveal_strlit("buffer_size");
    law_a_number_is_written_as_what_it_is(n);
    assert forall|i: int| 0 <= i < decimal(n).len() implies !white(#[trigger] decimal(n)[i]) by {
        assert(48 <= decimal(n)[i] as int <= 57);
    }
    law_a_word_of_digits_is_its_number(decimal(n), u32::MAX as nat);
    law_a_word_of_digits_is_its_number(decimal(n), u64::MAX as nat);
    assert("access"@[0] != "format"@[0]);
    assert("period_size"@[0] != "buffer_size"@[0]);
    if name == "access"@ || name == "format"@ || name == "channels"@ || name == "rate"@ || name
        == "period_size"@ || name == "buffer_size"@ || name == "subformat"@ {
        assert(forall|i: int| 0 <= i < name.len() ==> #[trigger] name[i] != ':');
        lemma_a_line_is_a_key_and_a_value(name, word, rest);
        lemma_a_line_is_a_key_and_a_value(name, decimal(n), rest);
    }
}

/// Where a stream is described: the card and the device are the numbers in the
/// path, each in its own place.
pub proof fn law_the_path_has_the_card_and_the_device(card: i32, device: u32)
    requires
        card >= 0,
    ensures
        ({
            let p = proc_path(card, device);
            let c = decimal(card as nat).len() as int;
            let d = decimal(device as nat).len() as int;
            &&& p.take(17) == "/proc/asound/card"@
            &&& crate::text::number(p.subrange(17, 17 + c)) == card
            &&& p.subrange(17 + c, 21 + c) == "/pcm"@
            &&& crate::text::number(p.subrange(21 + c, 21 + c + d)) == device
            &&& p.skip(21 + c + d) == "p/sub0/hw_params"@
        }),
{
    reveal_strlit("/proc/asound/card");
    reveal_strlit("/pcm");
    reveal_strlit("p/sub0/hw_params");
    law_a_number_is_written_as_what_it_is(card as nat);
    law_a_number_is_written_as_what_it_is(device as nat);
    let p = proc_path(card, device);
    let c = decimal(card as nat).len() as int;
    let d = decimal(device as nat).len() as int;
    assert(p.take(17) =~= "/proc/asound/card"@);
    assert(p.subrange(17, 17 + c) =~= decimal(card as nat));
    assert(p.subrange(17 + c, 21 + c) =~= "/pcm"@);
    assert(p.subrange(21 + c, 21 + c + d) =~= decimal(device as nat));
    assert(p.skip(21 + c + d) =~= "p/sub0/hw_params"@);
}

/// A device is used only as it was asked for: at that very rate, with 24 bits
/// in 32 and two channels, as it was granted and as it is in force, and what
/// differs is named with both values.
pub proof fn law_nothing_is_substituted(rate: u32, g: Granted, params: SinkParams, p: ProcHwParams)
    ensures
        substituted(rate, g) is None <==> g.rate == rate && g.format@ == "S24LE"@ && g.channels == 2,
        not_in_force(params, p) is None <==> p.rate == params.rate && p.format@ == "S24_LE"@
            && p.channels == params.channels,
        g.rate != rate ==> substituted(rate, g) == Some(
            SinkErrorView::Substituted {
                field: "rate"@,
                asked: decimal(rate as nat),
                got: decimal(g.rate as nat),
            },
        ),
        p.rate != params.rate ==> not_in_force(params, p) == Some(
            SinkErrorView::Substituted {
                field: "rate (in force)"@,
                asked: decimal(params.rate as nat),
                got: decimal(p.rate as nat),
            },
        ),
{
}

/// The controls that are named are those that scale the samples, with a volume
/// of either direction or a switch, in the order they were found.
pub proof fn law_every_control_that_scales_is_named(controls: Seq<Control>)
    ensures
        scalers(controls) == controls.filter(
            |c: Control| c.playback_volume || c.playback_switch || c.capture_volume,
        ).map_values(|c: Control| c.name@),
    decreases controls.len(),
{
    reveal(Seq::filter);
    let pred = |c: Control| c.playback_volume || c.playback_switch || c.capture_volume;
    let name = |c: Control| c.name@;
    if controls.len() == 0 {
        assert(scalers(controls) =~= controls.filter(pred).map_values(name));
    } else {
        law_every_control_that_scales_is_named(controls.drop_last());
        let kept = controls.drop_last().filter(pred);
        assert(kept.push(controls.last()).map_values(name) =~= kept.map_values(name).push(
            controls.last().name@,
        ));
    }
}

/// The lines are taken in turn, so that a later one replaces an earlier one,
/// and a text is read only where every line has a colon and each of the six
/// fields was found.
pub proof fn law_the_lines_are_taken_in_turn(lines: Seq<Seq<char>>, line: Seq<char>, text: Seq<char>)
    ensures
        gathered(lines) matches Some(g) ==> (line.contains(':') ==> gathered(lines.push(line)) == Some(
            gather(g, line),
        )),
        !line.contains(':') || gathered(lines) is None ==> gathered(lines.push(line)) is None,
        params_in(text) matches Some(g) ==> gathered(lines_of(text)) == Some(g) && g.access is Some
            && g.format is Some && g.channels is Some && g.rate is Some && g.period_size is Some
            && g.buffer_size is Some,
        gathered(lines_of(text)) matches Some(g) ==> (g.access is Some && g.format is Some
            && g.channels is Some && g.rate is Some && g.period_size is Some && g.buffer_size is Some
            ==> params_in(text) == Some(g)),
{
    assert(lines.push(line).drop_last() =~= lines);
    crate::scan::lemma_first_at(line, ':');
    if line.contains(':') && first_at(line, ':') >= line.len() {
        let i = choose|i: int| 0 <= i < line.len() && line[i] == ':';
        assert(line[i] != ':');
    }
    if first_at(line, ':') < line.len() {
        assert(line.contains(line[first_at(line, ':')]));
    }
}

/// Names are listed with a comma between them, each in its quotes.
pub proof fn law_names_are_listed_in_order(names: Seq<Seq<char>>, name: Seq<char>)
    ensures
        listed(seq![name]) == quoted(name),
        names.len() > 0 ==> listed(names.push(name)) == listed(names) + seq![',', ' '] + quoted(name),
{
    reveal_strlit(", ");
    assert(", "@ =~= seq![',', ' ']);
    assert(names.push(name).drop_last() =~= names);
}

} // verus!
