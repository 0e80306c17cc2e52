//! The track lifecycle: what a load refuses, and what it leaves untouched when
//! it does.
//!
//! Nothing is changed until every step that can fail has passed: the file, the
//! device, the rate. The rate is the check that no layer below can make: a
//! device opened at another rate plays every sample at the wrong speed.

use vstd::prelude::*;

use crate::app::audio::{Report, Stopped};
use crate::cue::{CueError, CueStore};
use crate::engine::Engine;
use crate::file::{OpenError, TrackInfo};
use crate::loaded::Loaded;
use crate::path::{absolute, joined, law_a_path_below_a_folder_is_what_was_joined_to_it, plain};
use crate::ring::WINDOW_BYTES_PLACEHOLDER;
use crate::rt::RtRequest;
use crate::sink::SinkError;
use crate::text::{decimal, push_decimal};
use crate::transport::{ended, reset, State, Transport, RATE_PAUSED, UNIT};

verus! {

/// The parts of a load that are the deck's rather than the track's.
#[derive(Debug, Clone, Copy)]
pub struct Config {
    /// How much of a track is kept resident.
    pub window_bytes: usize,
    /// None at a desk, where a refused promotion is the ordinary case.
    pub rt: Option<RtRequest>,
}

impl Default for Config {
    fn default() -> (r: Config)
        ensures
            r.window_bytes == WINDOW_BYTES_PLACEHOLDER,
            r.rt is None,
    {
        Config { window_bytes: WINDOW_BYTES_PLACEHOLDER, rt: None }
    }
}

/// Why a load did not happen.
#[derive(Debug)]
pub enum LoadError {
    Open(OpenError),
    Sink(SinkError),
    /// The device was opened at a rate the track is not.
    WrongRate { track: u32, sink: u32 },
    /// The track is not on the medium, so that a cue set on it would go
    /// nowhere.
    Cue(CueError),
}

impl LoadError {
    pub open spec fn text(self) -> Seq<char> {
        match self {
            LoadError::Open(e) => e.text(),
            LoadError::Sink(e) => SinkError::text(e@),
            LoadError::WrongRate { track, sink } => "the sink opened at "@ + decimal(sink as nat)
                + " Hz for a "@ + decimal(track as nat)
                + " Hz track — the output rate follows the source, per track"@,
            LoadError::Cue(e) => e.text(),
        }
    }

    pub fn to_text(&self) -> (r: String)
        ensures
            r@ == self.text(),
    {
        match self {
            LoadError::Open(e) => e.to_text(),
            LoadError::Sink(e) => e.to_text(),
            LoadError::WrongRate { track, sink } => {
                let mut out: String = String::new();
                out.append("the sink opened at ");
                push_decimal(&mut out, *sink as u128);
                out.append(" Hz for a ");
                push_decimal(&mut out, *track as u128);
                out.append(" Hz track — the output rate follows the source, per track");
                assert(out@ =~= self.text());
                out
            },
            LoadError::Cue(e) => e.to_text(),
        }
    }
}

/// What a run turned out to have done.
#[derive(Debug, Clone)]
pub struct Ended {
    pub why: Stopped,
    pub report: Report,
    /// What the reader of the medium said when it failed, if it did.
    pub failure: Option<String>,
}

/// The cue point a track starts with: what is stored for it, or zero where
/// nothing is kept.
pub open spec fn cue_for(cues: Option<&CueStore>, path: Seq<u8>) -> Option<u64> {
    match cues {
        None => Some(0),
        Some(store) => match store.key_of(path) {
            Some(key) => Some(store.frame_at(key)),
            None => None,
        },
    }
}

/// Loads a track: paused at frame zero, with its stored cue restored. `sink`
/// is the rate the device was opened at for it, which is of no account where
/// the file did not open.
pub fn load(
    opened: Result<TrackInfo, OpenError>,
    sink: Result<u32, SinkError>,
    cues: Option<&CueStore>,
    loaded: &mut Loaded,
    transport: &mut Transport,
) -> (r: Result<Engine, LoadError>)
    requires
        cues matches Some(store) ==> store.wf(),
    ensures
        match opened {
            Err(e) => r == Err::<Engine, LoadError>(LoadError::Open(e)) && *final(loaded) == *old(loaded) && *final(transport) == *old(transport),
            Ok(info) => match sink {
                Err(e) => r == Err::<Engine, LoadError>(LoadError::Sink(e)) && *final(loaded)
                    == *old(loaded) && *final(transport) == *old(transport),
                Ok(rate) => if rate != info.rate {
                    r == Err::<Engine, LoadError>(
                        LoadError::WrongRate { track: info.rate, sink: rate },
                    ) && *final(loaded) == *old(loaded) && *final(transport) == *old(transport)
                } else {
                    match cue_for(cues, info.path@) {
                        None => r matches Err(
                            LoadError::Cue(CueError::OutsideMedium { path }),
                        ) && path@ == info.path@ && final(loaded).track is None && *final(transport)
                            == *old(transport),
                        Some(cue) => {
                            &&& r matches Ok(engine) && engine.position == 0 && engine.track_frames
                                == info.frames
                            &&& final(loaded).track matches Some(t) && *t == info
                            &&& *final(transport) == reset(*old(transport), State::Paused, cue)
                        },
                    }
                },
            },
        },
{
    let info: TrackInfo = match opened {
        Ok(info) => info,
        Err(e) => {
            return Err(LoadError::Open(e));
        },
    };
    let rate: u32 = match sink {
        Ok(rate) => rate,
        Err(e) => {
            return Err(LoadError::Sink(e));
        },
    };
    if rate != info.rate {
        return Err(LoadError::WrongRate { track: info.rate, sink: rate });
    }
    let frames: u64 = info.frames;
    loaded.load(Box::new(info));
    let cue: u64 = match cues {
        Some(store) => match loaded.cue(store) {
            Ok(frame) => frame,
            Err(e) => {
                loaded.unload();
                return Err(LoadError::Cue(e));
            },
        },
        None => 0,
    };
    transport.track_loaded(cue);
    Ok(Engine::at(frames, transport.position()))
}

/// What one turn of the control loop owes a track of this many frames: the
/// deck is paused where it has played out. A seek that is queued is answered
/// first.
pub open spec fn serviced(t: Transport, frames: u64) -> Transport {
    if t.rate != RATE_PAUSED && t.seek is None && t.position >= 1000 * frames {
        ended(t)
    } else {
        t
    }
}

pub fn service(transport: &mut Transport, frames: u64)
    ensures
        *final(transport) == serviced(*old(transport), frames),
{
    if transport.rate() == RATE_PAUSED {
        return;
    }
    if let Some(at) = transport.settled_position() {
        if at >= UNIT * (frames as i128) {
            transport.reached_end();
        }
    }
}

/// A track that was loaded waits at its head, paused, with nothing queued: no
/// load lands inside audible playback.
pub proof fn law_a_load_waits_at_the_head(t: Transport, cue: u64)
    ensures
        reset(t, State::Paused, cue).rate == RATE_PAUSED,
        reset(t, State::Paused, cue).position == 0,
        reset(t, State::Paused, cue).seek is None,
        reset(t, State::Paused, cue).cue == cue,
{
}

/// A track on the medium is loaded with the cue that was set on it, and with
/// none where nothing keeps cues.
pub proof fn law_a_track_is_loaded_with_its_cue(store: &CueStore, r: Seq<u8>, frame: u64)
    requires
        absolute(store.mount_point@),
        plain(r),
    ensures
        store@.contains_key(r) && store@[r] == frame ==> cue_for(
            Some(store),
            joined(store.mount_point@, r),
        ) == Some(frame),
        !store@.contains_key(r) ==> cue_for(Some(store), joined(store.mount_point@, r)) == Some(0u64),
        cue_for(None, joined(store.mount_point@, r)) == Some(0u64),
{
    law_a_path_below_a_folder_is_what_was_joined_to_it(store.mount_point@, r, r);
}

/// A deck that moves is paused when it has reached the last frame and not
/// before, and a jump that is queued is let through.
pub proof fn law_the_end_is_reached_at_the_last_frame(t: Transport, frames: u64)
    requires
        t.state != State::Stopped,
        t.rate != RATE_PAUSED,
    ensures
        t.position < 1000 * frames ==> serviced(t, frames) == t,
        t.seek is Some ==> serviced(t, frames) == t,
        t.position >= 1000 * frames && t.seek is None ==> serviced(t, frames).rate == 0 && serviced(
            t,
            frames,
        ).state == State::Paused && serviced(t, frames).position == t.position,
{
}

} // verus!
