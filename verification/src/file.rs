//! The file layer.
//!
//! Shared between the browser, which needs length, rate and depth and must
//! refuse an unplayable file before PLAY is pressed, and the window thread,
//! which fills the ring. The scope is exactly what the output can send:
//! 44.1/88.2/176.4 and 48/96/192 kHz, int16 or int24.

use vstd::prelude::*;

use crate::sndfile::ffi;
use crate::sndfile::ffi::SF_INFO;
use crate::sndfile::SndFileError;
use crate::text::{copied, decimal, push_decimal};

verus! {

/// The six rates, and nothing else.
pub const SUPPORTED_RATES: [u32; 6] = [44_100, 88_200, 176_400, 48_000, 96_000, 192_000];

/// Samples per frame in the ring, always. Mono is duplicated on the way in,
/// which is lossless and leaves the callback with one layout.
pub const RING_CHANNELS: usize = 2;

#[derive(Debug, Clone, Copy, PartialEq, Eq, Structural)]
pub enum Depth {
    Int16,
    Int24,
}

impl Depth {
    /// How far a read left-justifies this depth.
    pub open spec fn shift(self) -> u32 {
        match self {
            Depth::Int16 => 16,
            Depth::Int24 => 8,
        }
    }

    pub fn left_justify_shift(self) -> (r: u32)
        ensures
            r == self.shift(),
    {
        match self {
            Depth::Int16 => 16,
            Depth::Int24 => 8,
        }
    }

    pub open spec fn label(self) -> &'static str {
        match self {
            Depth::Int16 => "16 bit",
            Depth::Int24 => "24 bit",
        }
    }

    pub fn name(self) -> (r: &'static str)
        ensures
            r == self.label(),
    {
        match self {
            Depth::Int16 => "16 bit",
            Depth::Int24 => "24 bit",
        }
    }

    pub open spec fn bytes(self) -> int {
        match self {
            Depth::Int16 => 2,
            Depth::Int24 => 3,
        }
    }
}

#[derive(Debug, Clone, Copy, PartialEq, Eq, Structural)]
pub enum Container {
    Wav,
    WavEx,
    Aiff,
    Rf64,
    Wave64,
}

/// The container a header's format names, if it is one that plays.
pub open spec fn container_of(format: i32) -> Option<Container> {
    let major = format & ffi::SF_FORMAT_TYPEMASK;
    if major == ffi::SF_FORMAT_WAV {
        Some(Container::Wav)
    } else if major == ffi::SF_FORMAT_WAVEX {
        Some(Container::WavEx)
    } else if major == ffi::SF_FORMAT_AIFF {
        Some(Container::Aiff)
    } else if major == ffi::SF_FORMAT_RF64 {
        Some(Container::Rf64)
    } else if major == ffi::SF_FORMAT_W64 {
        Some(Container::Wave64)
    } else {
        None
    }
}

/// The depth a header's format names, if it is one that plays.
pub open spec fn depth_of(format: i32) -> Option<Depth> {
    let sub = format & ffi::SF_FORMAT_SUBMASK;
    if sub == ffi::SF_FORMAT_PCM_16 {
        Some(Depth::Int16)
    } else if sub == ffi::SF_FORMAT_PCM_24 {
        Some(Depth::Int24)
    } else {
        None
    }
}

impl Container {
    fn from_format(format: i32) -> (r: Option<Container>)
        ensures
            r == container_of(format),
    {
        let major: i32 = format & ffi::SF_FORMAT_TYPEMASK;
        if major == ffi::SF_FORMAT_WAV {
            Some(Container::Wav)
        } else if major == ffi::SF_FORMAT_WAVEX {
            Some(Container::WavEx)
        } else if major == ffi::SF_FORMAT_AIFF {
            Some(Container::Aiff)
        } else if major == ffi::SF_FORMAT_RF64 {
            Some(Container::Rf64)
        } else if major == ffi::SF_FORMAT_W64 {
            Some(Container::Wave64)
        } else {
            None
        }
    }

    pub open spec fn narrow(self) -> bool {
        self == Container::Wav || self == Container::WavEx || self == Container::Aiff
    }

    /// True for the containers whose chunk sizes are 32-bit, so a track past
    /// the 2 GiB ceiling may carry a wrapped size field.
    pub fn has_32_bit_size_fields(self) -> (r: bool)
        ensures
            r == self.narrow(),
    {
        match self {
            Container::Wav => true,
            Container::WavEx => true,
            Container::Aiff => true,
            Container::Rf64 => false,
            Container::Wave64 => false,
        }
    }

    pub open spec fn label(self) -> &'static str {
        match self {
            Container::Wav => "WAV",
            Container::WavEx => "WAVE-EX",
            Container::Aiff => "AIFF",
            Container::Rf64 => "RF64",
            Container::Wave64 => "Wave64",
        }
    }

    pub fn name(self) -> (r: &'static str)
        ensures
            r == self.label(),
    {
        match self {
            Container::Wav => "WAV",
            Container::WavEx => "WAVE-EX",
            Container::Aiff => "AIFF",
            Container::Rf64 => "RF64",
            Container::Wave64 => "Wave64",
        }
    }
}

/// Why a file will not play. Every one of these is decidable from the header
/// alone, which is what lets the browser refuse on highlight.
#[derive(Debug, Clone, Copy, PartialEq, Eq, Structural)]
pub enum Reject {
    /// Not WAV, WAVE-EX, AIFF, RF64 or Wave64.
    Container,
    /// Not PCM int16 or int24.
    Depth { found: i32 },
    /// Outside the six rates.
    Rate { found: u32 },
    /// More than stereo, or none. Mono and stereo both play.
    Channels { found: u32 },
}

/// What was found in place of a depth that plays.
pub open spec fn subtype_label(subtype: i32) -> &'static str {
    if subtype == ffi::SF_FORMAT_PCM_S8 || subtype == ffi::SF_FORMAT_PCM_U8 {
        "8 bit"
    } else if subtype == ffi::SF_FORMAT_PCM_32 {
        "32 bit integer"
    } else if subtype == ffi::SF_FORMAT_FLOAT {
        "32 bit float"
    } else if subtype == ffi::SF_FORMAT_DOUBLE {
        "64 bit float"
    } else {
        "compressed or unsupported sample format"
    }
}

/// Names what was found, so the display can be specific.
fn describe_subtype(subtype: i32) -> (r: &'static str)
    ensures
        r == subtype_label(subtype),
{
    if subtype == ffi::SF_FORMAT_PCM_S8 || subtype == ffi::SF_FORMAT_PCM_U8 {
        "8 bit"
    } else if subtype == ffi::SF_FORMAT_PCM_32 {
        "32 bit integer"
    } else if subtype == ffi::SF_FORMAT_FLOAT {
        "32 bit float"
    } else if subtype == ffi::SF_FORMAT_DOUBLE {
        "64 bit float"
    } else {
        "compressed or unsupported sample format"
    }
}

impl Reject {
    /// What the display says: why, not just that.
    pub open spec fn text(self) -> Seq<char> {
        match self {
            Reject::Container => "container not WAV / AIFF / RF64 / Wave64"@,
            Reject::Depth { found } => subtype_label(found)@ + " — needs 16 or 24 bit PCM"@,
            Reject::Rate { found } => decimal(found as nat) + " Hz — outside 44.1-192 kHz"@,
            Reject::Channels { found } => decimal(found as nat)
                + " channels — needs mono or stereo"@,
        }
    }

    pub fn to_text(&self) -> (r: String)
        ensures
            r@ == self.text(),
    {
        let mut out: String = String::new();
        match *self {
            Reject::Container => {
                out.append("container not WAV / AIFF / RF64 / Wave64");
            },
            Reject::Depth { found } => {
                out.append(describe_subtype(found));
                out.append(" — needs 16 or 24 bit PCM");
            },
            Reject::Rate { found } => {
                push_decimal(&mut out, found as u128);
                out.append(" Hz — outside 44.1-192 kHz");
            },
            Reject::Channels { found } => {
                push_decimal(&mut out, found as u128);
                out.append(" channels — needs mono or stereo");
            },
        }
        assert(out@ =~= self.text());
        out
    }
}

#[derive(Debug)]
pub enum OpenError {
    /// libsndfile could not open or parse the file at all.
    Unreadable(SndFileError),
    /// Opened and parsed; the header says it cannot be played.
    Rejected(Reject),
}

impl OpenError {
    pub open spec fn text(self) -> Seq<char> {
        match self {
            OpenError::Unreadable(e) => "unreadable: "@ + e.message@,
            OpenError::Rejected(r) => r.text(),
        }
    }

    pub fn to_text(&self) -> (r: String)
        ensures
            r@ == self.text(),
    {
        match self {
            OpenError::Unreadable(e) => {
                let mut out: String = String::new();
                out.append("unreadable: ");
                out.append(e.message.as_str());
                assert(out@ =~= self.text());
                out
            },
            OpenError::Rejected(r) => r.to_text(),
        }
    }
}

/// What the browser shows for one row, and what the transport needs to load a
/// track.
#[derive(Debug, Clone, PartialEq, Eq)]
pub struct TrackInfo {
    pub path: Vec<u8>,
    pub frames: u64,
    pub rate: u32,
    pub channels: u32,
    pub depth: Depth,
    pub container: Container,
    pub seekable: bool,
}

/// A track's description as a mathematical value.
pub struct TrackView {
    pub path: Seq<u8>,
    pub frames: u64,
    pub rate: u32,
    pub channels: u32,
    pub depth: Depth,
    pub container: Container,
    pub seekable: bool,
}

impl View for TrackInfo {
    type V = TrackView;

    open spec fn view(&self) -> TrackView {
        TrackView {
            path: self.path@,
            frames: self.frames,
            rate: self.rate,
            channels: self.channels,
            depth: self.depth,
            container: self.container,
            seekable: self.seekable,
        }
    }
}

impl TrackView {
    pub open spec fn audio_bytes(self) -> int {
        self.frames * self.channels * self.depth.bytes()
    }
}

impl TrackInfo {
    /// A copy with the same description.
    pub fn duplicate(&self) -> (r: TrackInfo)
        ensures
            r@ == self@,
    {
        TrackInfo {
            path: copied(self.path.as_slice()),
            frames: self.frames,
            rate: self.rate,
            channels: self.channels,
            depth: self.depth,
            container: self.container,
            seekable: self.seekable,
        }
    }

    /// Bytes the source occupies as audio data, used to spot a wrapped 32-bit
    /// chunk size. Headers are excluded.
    pub fn audio_bytes(&self) -> (r: u64)
        requires
            self@.audio_bytes() <= u64::MAX,
        ensures
            r == self@.audio_bytes(),
    {
        let bytes_per_sample: u64 = match self.depth {
            Depth::Int16 => 2,
            Depth::Int24 => 3,
        };
        proof {
            assert(self.frames * self.channels <= self.frames * self.channels * self.depth.bytes())
                by (nonlinear_arith)
                requires
                    self.frames >= 0,
                    self.channels >= 0,
                    self.depth.bytes() >= 1,
            ;
        }
        self.frames * (self.channels as u64) * bytes_per_sample
    }

    /// A container with 32-bit sizes whose data would have overrun 2 GiB was
    /// written by a tool that may have wrapped the field, and the declared
    /// length cannot be trusted.
    pub fn declared_length_is_suspect(&self) -> (r: bool)
        requires
            self.container.narrow() ==> self@.audio_bytes() <= u64::MAX,
        ensures
            r == (self.container.narrow() && self@.audio_bytes() >= 0x8000_0000),
    {
        self.container.has_32_bit_size_fields() && self.audio_bytes() >= 0x8000_0000
    }
}

pub open spec fn rate_plays(rate: int) -> bool {
    rate == 44_100 || rate == 88_200 || rate == 176_400 || rate == 48_000 || rate == 96_000 || rate
        == 192_000
}

fn is_supported(rate: u32) -> (r: bool)
    ensures
        r == rate_plays(rate as int),
{
    let mut i: usize = 0;
    while i < SUPPORTED_RATES.len()
        invariant
            i <= 6,
            forall|k: int| 0 <= k < i ==> SUPPORTED_RATES@[k] != rate,
        decreases 6 - i,
    {
        if SUPPORTED_RATES[i] == rate {
            return true;
        }
        i = i + 1;
    }
    assert(SUPPORTED_RATES@[0] != rate && SUPPORTED_RATES@[1] != rate && SUPPORTED_RATES@[2] != rate
        && SUPPORTED_RATES@[3] != rate && SUPPORTED_RATES@[4] != rate && SUPPORTED_RATES@[5]
        != rate);
    false
}

/// What a parsed header comes to: the most fundamental objection first.
pub open spec fn vetted(info: SF_INFO) -> Result<(Container, Depth, u32, u32), Reject> {
    if container_of(info.format) is None {
        Err(Reject::Container)
    } else if depth_of(info.format) is None {
        Err(Reject::Depth { found: info.format & ffi::SF_FORMAT_SUBMASK })
    } else if info.samplerate < 0 {
        Err(Reject::Rate { found: 0 })
    } else if !rate_plays(info.samplerate as int) {
        Err(Reject::Rate { found: info.samplerate as u32 })
    } else if info.channels < 0 {
        Err(Reject::Channels { found: 0 })
    } else if info.channels < 1 || info.channels > 2 {
        Err(Reject::Channels { found: info.channels as u32 })
    } else {
        Ok(
            (
                container_of(info.format)->0,
                depth_of(info.format)->0,
                info.samplerate as u32,
                info.channels as u32,
            ),
        )
    }
}

/// Decides playability from a parsed header.
pub fn vet(info: &SF_INFO) -> (r: Result<(Container, Depth, u32, u32), Reject>)
    ensures
        r == vetted(*info),
{
    let container: Container = match Container::from_format(info.format) {
        Some(c) => c,
        None => {
            return Err(Reject::Container);
        },
    };
    let sub: i32 = info.format & ffi::SF_FORMAT_SUBMASK;
    let depth: Depth = if sub == ffi::SF_FORMAT_PCM_16 {
        Depth::Int16
    } else if sub == ffi::SF_FORMAT_PCM_24 {
        Depth::Int24
    } else {
        return Err(Reject::Depth { found: sub });
    };
    if info.samplerate < 0 {
        return Err(Reject::Rate { found: 0 });
    }
    let rate: u32 = info.samplerate as u32;
    if !is_supported(rate) {
        return Err(Reject::Rate { found: rate });
    }
    if info.channels < 1 || info.channels > 2 {
        let found: u32 = if info.channels < 0 {
            0
        } else {
            info.channels as u32
        };
        return Err(Reject::Channels { found });
    }
    Ok((container, depth, rate, info.channels as u32))
}

/// An open, playable track: the description its header gave.
#[derive(Debug)]
pub struct Track {
    pub info: TrackInfo,
}

/// The description of a header that was let through.
pub open spec fn described(path: Seq<u8>, raw: SF_INFO) -> TrackView {
    let (container, depth, rate, channels) = vetted(raw)->Ok_0;
    TrackView {
        path,
        frames: if raw.frames < 0 {
            0
        } else {
            raw.frames as u64
        },
        rate,
        channels,
        depth,
        container,
        seekable: raw.seekable != 0,
    }
}

/// One channel of one frame, as the ring holds it, from what was read: the
/// sample is shifted down from the top of its word, and mono stands in both
/// channels.
pub open spec fn ring_sample(read: Seq<i32>, mono: bool, i: int) -> i32 {
    if mono {
        read[i / 2] >> 8
    } else {
        read[i] >> 8
    }
}

impl Track {
    /// Vets what opening a file gave: the header libsndfile parsed, or why it
    /// could not.
    pub fn open(path: &[u8], opened: Result<SF_INFO, SndFileError>) -> (r: Result<
        Track,
        OpenError,
    >)
        ensures
            match r {
                Ok(track) => opened matches Ok(raw) && vetted(raw) is Ok && track.info@
                    == described(path@, raw),
                Err(OpenError::Unreadable(e)) => opened matches Err(said) && e == said,
                Err(OpenError::Rejected(why)) => opened matches Ok(raw) && vetted(raw) == Err::<
                    (Container, Depth, u32, u32),
                    Reject,
                >(why),
            },
    {
        let raw: SF_INFO = match opened {
            Ok(raw) => raw,
            Err(e) => {
                return Err(OpenError::Unreadable(e));
            },
        };
        match vet(&raw) {
            Ok((container, depth, rate, channels)) => Ok(
                Track {
                    info: TrackInfo {
                        path: copied(path),
                        frames: if raw.frames < 0 {
                            0
                        } else {
                            raw.frames as u64
                        },
                        rate,
                        channels,
                        depth,
                        container,
                        seekable: raw.seekable != 0,
                    },
                },
            ),
            Err(why) => Err(OpenError::Rejected(why)),
        }
    }

    pub fn info(&self) -> (r: &TrackInfo)
        ensures
            *r == self.info,
    {
        &self.info
    }

    /// Turns the frames a read put at the front of `dst` into the output's own
    /// layout, interleaved stereo with the sample right-aligned in its word,
    /// and returns how many there are.
    ///
    /// Everything this does is an arithmetic shift and, for mono, a copy: the
    /// chain from source to output is lossless.
    pub fn read_into_ring(&self, dst: &mut [i32], read: Result<i64, SndFileError>) -> (r: Result<
        usize,
        SndFileError,
    >)
        requires
            old(dst)@.len() % 2 == 0,
            read matches Ok(got) ==> 0 <= got <= old(dst)@.len() / 2,
        ensures
            final(dst)@.len() == old(dst)@.len(),
            match r {
                Ok(got) => {
                    &&& read matches Ok(n) && n == got
                    &&& forall|i: int|
                        0 <= i < 2 * got ==> #[trigger] final(dst)@[i] == ring_sample(
                            old(dst)@,
                            self.info.channels == 1,
                            i,
                        )
                    &&& forall|i: int| 2 * got <= i < final(dst)@.len() ==> final(dst)@[i] == old(dst)@[i]
                },
                Err(e) => read == Err::<i64, SndFileError>(e) && final(dst)@ == old(dst)@,
            },
    {
        let got: usize = match read {
            Ok(got) => {
                let samples: usize = dst.len();
                got as usize
            },
            Err(e) => {
                return Err(e);
            },
        };
        let mono: bool = self.info.channels == 1;
        let ghost was = dst@;
        if mono {
            // Expanded in place, back to front, so a mono source costs no
            // scratch buffer.
            let mut i: usize = got;
            while i > 0
                invariant
                    i <= got,
                    2 * got <= dst@.len(),
                    dst@.len() == was.len(),
                    forall|k: int| 0 <= k < i ==> dst@[k] == was[k],
                    forall|k: int| 2 * i <= k < 2 * got ==> #[trigger] dst@[k] == was[k / 2],
                    forall|k: int| 2 * got <= k < dst@.len() ==> dst@[k] == was[k],
                decreases i,
            {
                i = i - 1;
                let v: i32 = dst[i];
                dst[i * 2] = v;
                dst[i * 2 + 1] = v;
            }
        }
        let ghost spread = dst@;
        let samples: usize = got * RING_CHANNELS;
        let mut i: usize = 0;
        while i < samples
            invariant
                i <= samples,
                samples <= dst@.len(),
                dst@.len() == spread.len(),
                forall|k: int| 0 <= k < i ==> #[trigger] dst@[k] == spread[k] >> 8,
                forall|k: int| i <= k < dst@.len() ==> dst@[k] == spread[k],
            decreases samples - i,
        {
            dst[i] = dst[i] >> 8;
            i = i + 1;
        }
        Ok(got)
    }
}

/// The shift that left-aligns a sample on the way in and the one that
/// right-aligns it for the ring lose nothing: a 24-bit sample arrives as
/// itself, and a 16-bit one as itself scaled to 24 bits.
pub proof fn law_the_shifts_are_lossless(v: i32)
    ensures
        -0x80_0000 <= v < 0x80_0000 ==> (v << 8u32) >> 8u32 == v,
        -0x8000 <= v < 0x8000 ==> (v << 16u32) >> 8u32 == 256 * v,
{
    assert(-0x80_0000i32 <= v && v < 0x80_0000i32 ==> (v << 8u32) >> 8u32 == v) by (bit_vector);
    assert(-0x8000i32 <= v && v < 0x8000i32 ==> (v << 16u32) >> 8u32 == 256 * v) by (bit_vector);
}

/// A file plays exactly when it is in one of the containers, 16 or 24 bit, at
/// one of the rates, mono or stereo; and every one that does not is refused
/// for its container first, then its depth, its rate and its channels.
pub proof fn law_a_header_plays_exactly_in_scope(info: SF_INFO)
    ensures
        vetted(info) is Ok <==> container_of(info.format) is Some && depth_of(info.format) is Some
            && rate_plays(info.samplerate as int) && 1 <= info.channels <= 2,
        vetted(info) == Err::<(Container, Depth, u32, u32), Reject>(Reject::Container)
            <==> container_of(info.format) is None,
        vetted(info) is Err && vetted(info)->Err_0 is Depth <==> container_of(info.format) is Some
            && depth_of(info.format) is None,
        vetted(info) is Err && vetted(info)->Err_0 is Rate <==> container_of(info.format) is Some
            && depth_of(info.format) is Some && !rate_plays(info.samplerate as int),
{
}

/// What a header says is what the deck takes the track for: a file plays exactly
/// where its format is one of five containers by number and 16 or 24 bit PCM, it
/// has one channel or two, and its rate is 44.1 or 48 kHz, once, twice or four
/// times over; and it is taken for what the numbers say, at that rate, with
/// those channels and frames.
pub proof fn law_a_track_is_what_its_header_says(path: Seq<u8>, raw: SF_INFO)
    ensures
        ({
            let major = raw.format & 0x0fff_0000i32;
            let sub = raw.format & 0x0000_ffffi32;
            let rate = raw.samplerate as int;
            &&& vetted(raw) is Ok <==> (major == 0x1_0000 || major == 0x2_0000 || major == 0xb_0000
                || major == 0x13_0000 || major == 0x22_0000) && (sub == 2 || sub == 3) && (rate
                == 44_100 || rate == 2 * 44_100 || rate == 4 * 44_100 || rate == 48_000 || rate == 2
                * 48_000 || rate == 4 * 48_000) && (raw.channels == 1 || raw.channels == 2)
            &&& vetted(raw) is Ok ==> {
                let t = described(path, raw);
                &&& t.path == path
                &&& t.rate == rate
                &&& t.channels == raw.channels
                &&& raw.frames >= 0 ==> t.frames == raw.frames
                &&& raw.frames < 0 ==> t.frames == 0
                &&& t.seekable <==> raw.seekable != 0
                &&& t.depth == Depth::Int16 <==> sub == 2
                &&& t.container == Container::Wav <==> major == 0x1_0000
                &&& t.container == Container::Aiff <==> major == 0x2_0000
                &&& t.container == Container::Wave64 <==> major == 0xb_0000
                &&& t.container == Container::WavEx <==> major == 0x13_0000
                &&& t.container == Container::Rf64 <==> major == 0x22_0000
                &&& t.audio_bytes() == t.frames * t.channels * (if sub == 2 {
                    2int
                } else {
                    3
                })
            }
        }),
{
}

/// A refusal says what was found: a rate that is none of those, channels that
/// are neither one nor two, or a format that is no such PCM, each as the header
/// has it.
pub proof fn law_a_refusal_says_what_was_found(raw: SF_INFO)
    ensures
        vetted(raw) matches Err(Reject::Rate { found }) ==> found == (if raw.samplerate < 0 {
            0
        } else {
            raw.samplerate as int
        }),
        vetted(raw) matches Err(Reject::Channels { found }) ==> found == (if raw.channels < 0 {
            0
        } else {
            raw.channels as int
        }) && found != 1 && found != 2,
        vetted(raw) matches Err(Reject::Depth { found }) ==> found == raw.format & 0x0000_ffffi32
            && found != 2 && found != 3,
{
}

/// What a read becomes in the ring is the sample itself: of a stereo track each
/// channel in its own place, of a mono track the one channel in both, a 24-bit
/// sample as it is and a 16-bit one scaled to 24 bits, from where the read left
/// it at the top of its word.
pub proof fn law_a_read_is_the_sample_itself(read: Seq<i32>, v: i32, depth: Depth, i: int, ch: int)
    requires
        0 <= i,
        0 <= ch < 2,
        depth == Depth::Int16 ==> -0x8000 <= v < 0x8000,
        depth == Depth::Int24 ==> -0x80_0000 <= v < 0x80_0000,
    ensures
        2 * i + ch < read.len() && read[2 * i + ch] == v << depth.shift() ==> ring_sample(
            read,
            false,
            2 * i + ch,
        ) == v * (if depth == Depth::Int16 {
            256int
        } else {
            1
        }),
        i < read.len() && read[i] == v << depth.shift() ==> ring_sample(read, true, 2 * i + ch) == v
            * (if depth == Depth::Int16 {
            256int
        } else {
            1
        }),
        depth.shift() == (if depth == Depth::Int16 {
            16int
        } else {
            8
        }),
{
    law_the_shifts_are_lossless(v);
    assert((2 * i + ch) / 2 == i);
}

/// Every container and depth has a name of its own, and only those with a size
/// field of 32 bits are narrow.
pub proof fn law_containers_read_apart(a: Container, b: Container)
    ensures
        a != b ==> a.label()@ != b.label()@,
        Depth::Int16.label()@ != Depth::Int24.label()@,
        a.narrow() <==> a != Container::Rf64 && a != Container::Wave64,
{
    reveal_strlit("WAV");
    reveal_strlit("WAVE-EX");
    reveal_strlit("AIFF");
    reveal_strlit("RF64");
    reveal_strlit("Wave64");
    reveal_strlit("16 bit");
    reveal_strlit("24 bit");
    assert("16 bit"@[0] != "24 bit"@[0]);
    if a != b {
        let (x, y) = (a.label()@, b.label()@);
        assert(x.len() != y.len() || x[0] != y[0]);
    }
}

/// A refusal says why: the rate and the channels with the number that was
/// found in front, and none of the four reads like another.
pub proof fn law_a_refusal_reads_as_what_it_is(found: u32)
    ensures
        ({
            let t = (Reject::Rate { found }).text();
            let u = (Reject::Channels { found }).text();
            let n = decimal(found as nat).len() as int;
            &&& crate::text::number(t.take(n)) == found
            &&& crate::text::number(u.take(n)) == found
            &&& t[n + 1] == 'H'
            &&& u[n + 1] == 'c'
        }),
        Reject::Container.text()[0] == 'c',
        (Reject::Depth { found: 5 }).text()[0] == '8' && (Reject::Depth { found: 1 }).text()[0] == '8',
        (Reject::Depth { found: 4 }).text().take(7) =~= seq!['3', '2', ' ', 'b', 'i', 't', ' '],
        (Reject::Depth { found: 4 }).text()[7] == 'i',
        (Reject::Depth { found: 6 }).text()[0] == '3' && (Reject::Depth { found: 6 }).text()[7] == 'f',
        (Reject::Depth { found: 7 }).text()[0] == '6' && (Reject::Depth { found: 7 }).text()[7] == 'f',
{
    reveal_strlit(" Hz — outside 44.1-192 kHz");
    reveal_strlit(" channels — needs mono or stereo");
    reveal_strlit("container not WAV / AIFF / RF64 / Wave64");
    reveal_strlit("8 bit");
    reveal_strlit("32 bit integer");
    reveal_strlit("32 bit float");
    reveal_strlit("64 bit float");
    crate::text::law_a_number_is_written_as_what_it_is(found as nat);
    let n = decimal(found as nat).len() as int;
    assert((Reject::Rate { found }).text().take(n) =~= decimal(found as nat));
    assert((Reject::Channels { found }).text().take(n) =~= decimal(found as nat));
}

} // verus!
