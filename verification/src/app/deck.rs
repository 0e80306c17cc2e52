//! The deck: one press in, the modules moved.
//!
//! ENTER acts on the browser's selection; a track search and a cue act on the
//! playing track. What a press needs from the medium, and what it leaves owed,
//! comes back as an [`Ask`].

use vstd::prelude::*;

use crate::app::track::{cue_for, serviced, Config, LoadError};
use crate::browser::{
    found, known, listed, path_of, Activation, BrowseError, Browser, EntryKind, Fetched, Item,
    Needs, VerdictView,
};
use crate::cue::{file_of, with_cue, CueError, CueStore, Save};
use crate::engine::Engine;
use crate::file::{OpenError, TrackInfo};
use crate::input::{fed, Action, Button, Held, RawEvent};
use crate::loaded::{file_names, next_name, Loaded, Step};
use crate::path::{joined, law_a_name_in_a_folder_is_found_there, plain_name};
use crate::sink::SinkError;
use crate::text::copied;
use crate::transport::{
    cue_pressed, cue_released, paused, played, reset, seek_ended, seeking, Cued, State, Transport,
    RATE_PAUSED,
};

verus! {

/// Why a press could not be carried out.
#[derive(Debug)]
pub enum DeckError {
    Load(LoadError),
    Browse(BrowseError),
    Cue(CueError),
}

impl DeckError {
    pub open spec fn text(self) -> Seq<char> {
        match self {
            DeckError::Load(e) => e.text(),
            DeckError::Browse(e) => e.text(),
            DeckError::Cue(e) => e.text(),
        }
    }

    pub fn to_text(&self) -> (r: String)
        ensures
            r@ == self.text(),
    {
        match self {
            DeckError::Load(e) => e.to_text(),
            DeckError::Browse(e) => e.to_text(),
            DeckError::Cue(e) => e.to_text(),
        }
    }
}

/// What a press needs, or leaves owed.
#[derive(Debug)]
pub enum Ask {
    Nothing,
    /// Read this folder, where there is one, for [`Deck::search`].
    Search { step: Step, folder: Option<Vec<u8>> },
    /// Read this, for [`Deck::entered`].
    Enter(Needs),
    /// Read this folder, where there is one, for [`Deck::went_back`].
    Back(Option<Vec<u8>>),
    /// Write the cues.
    Save(Save),
    /// Tell the reader of the medium that the position jumps here.
    Relocate(u64),
}

/// Whether an action is one the decoder gives: only a button that is held says
/// that it was released.
pub open spec fn given(action: Action) -> bool {
    action matches Action::Release(b) ==> b.momentary()
}

/// PLAY and PAUSE are one button.
pub open spec fn toggled(t: Transport) -> Transport {
    if t.rate == RATE_PAUSED {
        played(t)
    } else {
        paused(t)
    }
}

/// A selection moved by detents: it stops at either end.
pub open spec fn scrolled_to(selected: int, len: int, detents: int) -> int {
    if selected + detents < 0 {
        0
    } else if selected + detents >= len {
        if len > 0 {
            len - 1
        } else {
            0
        }
    } else {
        selected + detents
    }
}

/// The deck, apart from its threads.
#[derive(Debug)]
pub struct Deck {
    pub loaded: Loaded,
    /// None where there is no medium.
    pub browser: Option<Browser>,
    /// None where the medium has no name to keep cues under.
    pub cues: Option<CueStore>,
    /// A track's threads are running.
    pub playing: bool,
    pub config: Config,
    /// What a seek returns to on release.
    pub was_playing: bool,
}

impl Deck {
    pub open spec fn wf(&self) -> bool {
        &&& self.browser matches Some(b) ==> b.wf()
        &&& self.cues matches Some(s) ==> s.wf()
        &&& self.playing <==> self.loaded.track is Some
    }

    pub fn new(browser: Option<Browser>, cues: Option<CueStore>, config: Config) -> (r: Deck)
        requires
            browser matches Some(b) ==> b.wf(),
            cues matches Some(s) ==> s.wf(),
        ensures
            r.wf(),
            r.loaded.track is None,
            r.browser == browser,
            r.cues == cues,
            !r.playing,
            r.config == config,
            !r.was_playing,
    {
        Deck {
            loaded: Loaded::nothing(),
            browser,
            cues,
            playing: false,
            config,
            was_playing: false,
        }
    }

    pub fn loaded(&self) -> (r: &Loaded)
        ensures
            *r == self.loaded,
    {
        &self.loaded
    }

    pub fn browser(&self) -> (r: Option<&Browser>)
        ensures
            r is Some <==> self.browser is Some,
            r matches Some(b) ==> *b == self.browser->0,
    {
        match &self.browser {
            Some(b) => Some(b),
            None => None,
        }
    }

    pub fn playing(&self) -> (r: bool)
        ensures
            r == self.playing,
    {
        self.playing
    }

    /// One turn of the control loop, independent of any press. `finished` says
    /// that the track's threads are gone, and then the track is not playable
    /// any more: it is let go. True where it was.
    pub fn service(&mut self, t: &mut Transport, finished: bool) -> (r: bool)
        requires
            old(self).wf(),
        ensures
            final(self).wf(),
            r == (old(self).playing && finished),
            if r {
                final(self).loaded.track is None && !final(self).playing && *final(t) == reset(
                    *old(t),
                    State::Stopped,
                    0,
                )
            } else {
                *final(self) == *old(self) && *final(t) == (if old(self).playing {
                    serviced(*old(t), (old(self).loaded.track->0).frames)
                } else {
                    *old(t)
                })
            },
            final(self).browser == old(self).browser,
            final(self).cues == old(self).cues,
            final(self).config == old(self).config,
            final(self).was_playing == old(self).was_playing,
    {
        if !self.playing {
            return false;
        }
        if finished {
            return self.unload(t);
        }
        if let Some(track) = self.loaded.track() {
            crate::app::track::service(t, track.frames);
        }
        false
    }

    /// One press.
    pub fn apply(&mut self, t: &mut Transport, action: Action) -> (r: Result<Ask, DeckError>)
        requires
            old(self).wf(),
            given(action),
        ensures
            final(self).wf(),
            final(self).loaded == old(self).loaded,
            final(self).playing == old(self).playing,
            final(self).config == old(self).config,
            !(action is Browse) ==> final(self).browser == old(self).browser,
            !(action matches Action::Press(Button::Ff) || action matches Action::Press(
                Button::Rew,
            )) ==> final(self).was_playing == old(self).was_playing,
            !(action matches Action::Press(Button::Cue) || action matches Action::Release(
                Button::Cue,
            )) ==> final(self).cues == old(self).cues,
            match action {
                Action::Press(Button::PlayPause) => *final(t) == toggled(*old(t)) && r == Ok::<
                    Ask,
                    DeckError,
                >(Ask::Nothing),
                Action::Press(Button::Cue) => *final(t) == cue_pressed(*old(t)).0 && old(self).owes(cue_pressed(*old(t)).1, *final(self), r),
                Action::Release(Button::Cue) => *final(t) == cue_released(*old(t)).0 && old(self).owes(cue_released(*old(t)).1, *final(self), r),
                Action::Press(Button::Ff) => *final(t) == seeking(*old(t), true)
                    && final(self).was_playing == (old(t).rate != RATE_PAUSED) && r == Ok::<
                    Ask,
                    DeckError,
                >(Ask::Nothing),
                Action::Press(Button::Rew) => *final(t) == seeking(*old(t), false)
                    && final(self).was_playing == (old(t).rate != RATE_PAUSED) && r == Ok::<
                    Ask,
                    DeckError,
                >(Ask::Nothing),
                Action::Release(_) => *final(t) == seek_ended(*old(t), old(self).was_playing) && r
                    == Ok::<Ask, DeckError>(Ask::Nothing),
                Action::Press(Button::TrackNext) => *final(t) == *old(t) && old(self).searches(
                    Step::Next,
                    r,
                ),
                Action::Press(Button::TrackPrev) => *final(t) == *old(t) && old(self).searches(
                    Step::Previous,
                    r,
                ),
                Action::Press(Button::Enter) => *final(t) == *old(t) && match old(self).browser {
                    None => r == Ok::<Ask, DeckError>(Ask::Nothing),
                    Some(b) => r matches Ok(Ask::Enter(needs)) && match needs {
                        Needs::Nothing => b.need() is None,
                        Needs::Folder(path) => b.need() == Some(
                            EntryKind::Folder,
                        ) && path@ == b.entry_path(b.selected as int),
                        Needs::Header(path) => b.need() == Some(
                            EntryKind::File,
                        ) && path@ == b.entry_path(b.selected as int),
                    },
                },
                Action::Press(Button::Back) => *final(t) == *old(t) && match old(self).browser {
                    None => r == Ok::<Ask, DeckError>(Ask::Nothing),
                    Some(b) => r matches Ok(Ask::Back(above)) && match above {
                        None => b.below@.len() == 0,
                        Some(path) => b.below@.len() > 0 && path@ == path_of(
                            b.root@,
                            b.below@.drop_last(),
                        ),
                    },
                },
                Action::Browse(detents) => *final(t) == *old(t) && r == Ok::<Ask, DeckError>(
                    Ask::Nothing,
                ) && match old(self).browser {
                    None => final(self).browser is None,
                    Some(b) => final(self).browser == Some(
                        Browser {
                            selected: scrolled_to(
                                b.selected as int,
                                b.entries@.len() as int,
                                detents as int,
                            ) as usize,
                            ..b
                        },
                    ),
                },
            },
    {
        match action {
            Action::Press(Button::PlayPause) => {
                if t.rate() == RATE_PAUSED {
                    t.play();
                } else {
                    t.pause();
                }
                Ok(Ask::Nothing)
            },
            Action::Press(Button::Cue) => {
                let what: Cued = t.cue_down();
                self.cued(what)
            },
            Action::Release(Button::Cue) => {
                let what: Cued = t.cue_up();
                self.cued(what)
            },
            Action::Press(Button::Ff) => {
                self.was_playing = t.rate() != RATE_PAUSED;
                t.begin_seek(true);
                Ok(Ask::Nothing)
            },
            Action::Press(Button::Rew) => {
                self.was_playing = t.rate() != RATE_PAUSED;
                t.begin_seek(false);
                Ok(Ask::Nothing)
            },
            Action::Release(_) => {
                t.end_seek(self.was_playing);
                Ok(Ask::Nothing)
            },
            Action::Press(Button::TrackNext) => Ok(
                Ask::Search { step: Step::Next, folder: self.loaded.folder() },
            ),
            Action::Press(Button::TrackPrev) => Ok(
                Ask::Search { step: Step::Previous, folder: self.loaded.folder() },
            ),
            Action::Press(Button::Enter) => match &self.browser {
                Some(b) => Ok(Ask::Enter(b.enter_needs())),
                None => Ok(Ask::Nothing),
            },
            Action::Press(Button::Back) => match &self.browser {
                Some(b) => Ok(Ask::Back(b.back_needs())),
                None => Ok(Ask::Nothing),
            },
            Action::Browse(detents) => {
                if let Some(b) = self.browser.take() {
                    self.browser = Some(scroll(b, detents));
                }
                Ok(Ask::Nothing)
            },
        }
    }

    /// What a search for a neighbour asks for.
    pub open spec fn searches(&self, step: Step, r: Result<Ask, DeckError>) -> bool {
        r matches Ok(Ask::Search { step: s, folder }) && s == step && match self.loaded.place() {
            None => folder is None,
            Some((dir, _)) => folder matches Some(path) && path@ == dir,
        }
    }

    /// What a CUE press or release leaves owed: a point that was set is kept,
    /// for the track that is loaded and no other, and a jump is told to the
    /// reader of the medium.
    pub open spec fn owes(&self, what: Cued, after: Deck, r: Result<Ask, DeckError>) -> bool {
        match what {
            Cued::SetAt(frame) => match (self.cues, self.loaded.at()) {
                (Some(store), Some(path)) => match store.key_of(path) {
                    Some(key) => {
                        &&& after.cues matches Some(kept) && kept@ == with_cue(store@, key, frame)
                            && kept.file == store.file && kept.mount_point == store.mount_point
                        &&& r matches Ok(Ask::Save(save)) && save.file@ == store.file@ && save.tmp@
                            == store.file@.take(store.file@.len() - 4) + seq![116u8, 109u8, 112u8]
                            && save.bytes@ == file_of((after.cues->0).entries())
                    },
                    None => after.cues == self.cues && (r matches Err(
                        DeckError::Cue(CueError::OutsideMedium { path: p }),
                    ) && p@ == path),
                },
                _ => after.cues == self.cues && r == Ok::<Ask, DeckError>(Ask::Nothing),
            },
            Cued::Returned(to) => after.cues == self.cues && r == Ok::<Ask, DeckError>(
                if self.playing {
                    Ask::Relocate(to)
                } else {
                    Ask::Nothing
                },
            ),
            _ => after.cues == self.cues && r == Ok::<Ask, DeckError>(Ask::Nothing),
        }
    }

    fn cued(&mut self, what: Cued) -> (r: Result<Ask, DeckError>)
        requires
            old(self).wf(),
        ensures
            final(self).wf(),
            final(self).loaded == old(self).loaded,
            final(self).browser == old(self).browser,
            final(self).playing == old(self).playing,
            final(self).config == old(self).config,
            final(self).was_playing == old(self).was_playing,
            old(self).owes(what, *final(self), r),
    {
        match what {
            Cued::SetAt(frame) => {
                if self.loaded.path().is_none() {
                    return Ok(Ask::Nothing);
                }
                match self.cues.take() {
                    None => Ok(Ask::Nothing),
                    Some(mut store) => {
                        match self.loaded.set_cue(&mut store, frame) {
                            Ok(_) => {
                                let save: Save = store.save();
                                self.cues = Some(store);
                                Ok(Ask::Save(save))
                            },
                            Err(e) => {
                                self.cues = Some(store);
                                Err(DeckError::Cue(e))
                            },
                        }
                    },
                }
            },
            Cued::Returned(to) => {
                if self.playing {
                    Ok(Ask::Relocate(to))
                } else {
                    Ok(Ask::Nothing)
                }
            },
            Cued::Previewing => Ok(Ask::Nothing),
            Cued::Nothing => Ok(Ask::Nothing),
        }
    }

    /// The file a track search loads, if it loads one, from a read of the
    /// folder of the playing track.
    pub fn search(&self, step: Step, listing: Result<Vec<Item>, String>) -> (r: Result<
        Option<Vec<u8>>,
        DeckError,
    >)
        ensures
            match self.loaded.place() {
                None => r matches Ok(None),
                Some((dir, name)) => match listing {
                    Err(why) => r matches Err(
                        DeckError::Browse(BrowseError::Unreadable { path, reason }),
                    ) && path@ == dir && reason == why,
                    Ok(items) => match next_name(file_names(listed(items@)), name, step) {
                        None => r matches Ok(None),
                        Some(to) => r matches Ok(Some(path)) && path@ == joined(dir, to),
                    },
                },
            },
    {
        match self.loaded.neighbour(step, listing) {
            Ok(path) => Ok(path),
            Err(e) => Err(DeckError::Browse(e)),
        }
    }

    /// The file ENTER loads, if it loads one, from what it needed. A file that
    /// cannot be played carries its reason on its row already.
    pub fn entered(&mut self, got: Fetched) -> (r: Result<Option<Vec<u8>>, DeckError>)
        requires
            old(self).wf(),
            old(self).browser matches Some(b) ==> (got is Folder <==> b.need() == Some(
                EntryKind::Folder,
            )) && (got is Header <==> b.need() == Some(EntryKind::File)),
        ensures
            final(self).wf(),
            final(self).loaded == old(self).loaded,
            final(self).cues == old(self).cues,
            final(self).playing == old(self).playing,
            final(self).config == old(self).config,
            final(self).was_playing == old(self).was_playing,
            match old(self).browser {
                None => r matches Ok(None) && final(self).browser is None,
                Some(b) => final(self).browser matches Some(after) && match got {
                    Fetched::Folder(Ok(items)) => {
                        &&& r matches Ok(None)
                        &&& after.root == b.root
                        &&& after.below@.len() == b.below@.len() + 1
                        &&& after.below@.drop_last() == b.below@
                        &&& after.below@.last()@ == b.entries@[b.selected as int].name@
                        &&& after.cwd() == b.entry_path(b.selected as int)
                        &&& after.listing() == listed(items@)
                        &&& after.selected == 0
                        &&& after.first == 0
                        &&& after.headers == b.headers
                    },
                    Fetched::Folder(Err(why)) => (r matches Err(
                        DeckError::Browse(BrowseError::Unreadable { path, reason }),
                    ) && path@ == b.entry_path(b.selected as int) && reason == why) && after == b,
                    Fetched::Header(verdict) => {
                        &&& plays(r, verdict@)
                        &&& after == (Browser { headers: after.headers, ..b })
                        &&& after.headers@.len() == b.headers@.len() + 1
                        &&& after.headers@.drop_last() == b.headers@
                        &&& after.headers@.last().path@ == b.entry_path(b.selected as int)
                        &&& known(after.headers@, b.entry_path(b.selected as int)) == Some(verdict@)
                    },
                    Fetched::Nothing => after == b && (if b.entries@.len() == 0 {
                        r matches Ok(None)
                    } else {
                        plays(
                            r,
                            known(
                                b.headers@,
                                b.entry_path(b.selected as int),
                            )->0,
                        )
                    }),
                },
            },
    {
        let mut b: Browser = match self.browser.take() {
            Some(b) => b,
            None => {
                return Ok(None);
            },
        };
        let answer: Result<Activation, BrowseError> = b.enter(got);
        self.browser = Some(b);
        match answer {
            Ok(Activation::Play(info)) => Ok(Some(copied(info.path.as_slice()))),
            Ok(_) => Ok(None),
            Err(e) => Err(DeckError::Browse(e)),
        }
    }

    /// BACK, with a read of the folder above where there is one.
    pub fn went_back(&mut self, listing: Result<Vec<Item>, String>) -> (r: Result<(), DeckError>)
        requires
            old(self).wf(),
        ensures
            final(self).wf(),
            final(self).loaded == old(self).loaded,
            final(self).cues == old(self).cues,
            final(self).playing == old(self).playing,
            final(self).config == old(self).config,
            final(self).was_playing == old(self).was_playing,
            match old(self).browser {
                None => r is Ok && final(self).browser is None,
                Some(b) => final(self).browser matches Some(after) && if b.below@.len() == 0 {
                    r is Ok && after == b
                } else {
                    match listing {
                        Ok(items) => {
                            &&& r is Ok
                            &&& after.root == b.root
                            &&& after.below@ == b.below@.drop_last()
                            &&& after.listing() == listed(items@)
                            &&& after.selected == found(
                                after.listing(),
                                Some(b.below@.last()@),
                                0,
                            )
                            &&& after.first == 0
                            &&& after.headers == b.headers
                        },
                        Err(why) => after == b && (r matches Err(
                            DeckError::Browse(BrowseError::Unreadable { path, reason }),
                        ) && path@ == path_of(b.root@, b.below@.drop_last()) && reason == why),
                    }
                },
            },
    {
        let mut b: Browser = match self.browser.take() {
            Some(b) => b,
            None => {
                return Ok(());
            },
        };
        let answer: Result<bool, BrowseError> = b.back(listing);
        self.browser = Some(b);
        match answer {
            Ok(_) => Ok(()),
            Err(e) => Err(DeckError::Browse(e)),
        }
    }

    /// Lets go of whatever is playing and loads a track, paused at frame zero.
    /// The device is exclusive, so the threads of the last track have to be
    /// gone before the device was opened for this one.
    pub fn load(
        &mut self,
        t: &mut Transport,
        opened: Result<TrackInfo, OpenError>,
        sink: Result<u32, SinkError>,
    ) -> (r: Result<Engine, DeckError>)
        requires
            old(self).wf(),
        ensures
            final(self).wf(),
            final(self).browser == old(self).browser,
            final(self).cues == old(self).cues,
            final(self).config == old(self).config,
            final(self).was_playing == old(self).was_playing,
            final(self).playing == (r is Ok),
            r is Err ==> final(self).loaded.track is None,
            ({
                let let_go = if old(self).playing {
                    reset(*old(t), State::Stopped, 0)
                } else {
                    *old(t)
                };
                let cues = match old(self).cues {
                    Some(store) => Some(&store),
                    None => None,
                };
                match opened {
                    Err(e) => r == Err::<Engine, DeckError>(DeckError::Load(LoadError::Open(e)))
                        && *final(t) == let_go,
                    Ok(info) => match sink {
                        Err(e) => r == Err::<Engine, DeckError>(
                            DeckError::Load(LoadError::Sink(e)),
                        ) && *final(t) == let_go,
                        Ok(rate) => if rate != info.rate {
                            r == Err::<Engine, DeckError>(
                                DeckError::Load(
                                    LoadError::WrongRate { track: info.rate, sink: rate },
                                ),
                            ) && *final(t) == let_go
                        } else {
                            match cue_for(cues, info.path@) {
                                None => (r matches Err(
                                    DeckError::Load(
                                        LoadError::Cue(CueError::OutsideMedium { path }),
                                    ),
                                ) && path@ == info.path@) && *final(t) == let_go,
                                Some(cue) => {
                                    &&& r matches Ok(engine) && engine.position == 0
                                        && engine.track_frames == info.frames
                                    &&& final(self).loaded.track matches Some(track) && *track
                                        == info
                                    &&& *final(t) == reset(let_go, State::Paused, cue)
                                },
                            }
                        },
                    },
                }
            }),
    {
        self.unload(t);
        let cues: Option<&CueStore> = match &self.cues {
            Some(store) => Some(store),
            None => None,
        };
        match crate::app::track::load(opened, sink, cues, &mut self.loaded, t) {
            Ok(engine) => {
                self.playing = true;
                Ok(engine)
            },
            Err(e) => Err(DeckError::Load(e)),
        }
    }

    /// Stops and lets go. True where there was something to let go of.
    pub fn unload(&mut self, t: &mut Transport) -> (r: bool)
        requires
            old(self).wf(),
        ensures
            final(self).wf(),
            r == old(self).playing,
            !final(self).playing,
            final(self).loaded.track is None,
            *final(t) == (if old(self).playing {
                reset(*old(t), State::Stopped, 0)
            } else {
                *old(t)
            }),
            final(self).browser == old(self).browser,
            final(self).cues == old(self).cues,
            final(self).config == old(self).config,
            final(self).was_playing == old(self).was_playing,
    {
        if !self.playing {
            return false;
        }
        self.playing = false;
        t.track_unloaded();
        self.loaded.unload();
        true
    }

    /// The medium is gone: the track first, then the listing and the cues.
    pub fn detach(&mut self, t: &mut Transport) -> (r: bool)
        requires
            old(self).wf(),
        ensures
            final(self).wf(),
            r == old(self).playing,
            !final(self).playing,
            final(self).loaded.track is None,
            *final(t) == (if old(self).playing {
                reset(*old(t), State::Stopped, 0)
            } else {
                *old(t)
            }),
            final(self).browser is None,
            final(self).cues is None,
            final(self).config == old(self).config,
            final(self).was_playing == old(self).was_playing,
    {
        let ended: bool = self.unload(t);
        self.browser = None;
        self.cues = None;
        ended
    }

    /// A medium is there.
    pub fn attach(&mut self, browser: Browser, cues: Option<CueStore>)
        requires
            old(self).wf(),
            browser.wf(),
            cues matches Some(s) ==> s.wf(),
        ensures
            final(self).wf(),
            *final(self) == (Deck { browser: Some(browser), cues, ..*old(self) }),
    {
        self.browser = Some(browser);
        self.cues = cues;
    }
}

/// What ENTER loads for a file of this verdict.
pub open spec fn plays(r: Result<Option<Vec<u8>>, DeckError>, verdict: VerdictView) -> bool {
    match verdict {
        VerdictView::Plays(info) => r matches Ok(Some(path)) && path@ == info.path,
        _ => r matches Ok(None),
    }
}

fn scroll(b: Browser, detents: i32) -> (r: Browser)
    requires
        b.wf(),
    ensures
        r.wf(),
        r == (Browser {
            selected: scrolled_to(
                b.selected as int,
                b.entries@.len() as int,
                detents as int,
            ) as usize,
            ..b
        }),
{
    let mut r: Browser = b;
    let mut left: i64 = detents as i64;
    let length: usize = r.len();
    while left != 0
        invariant
            r.wf(),
            b.wf(),
            i32::MIN <= left <= i32::MAX,
            length == b.entries@.len(),
            r == (Browser { selected: r.selected, ..b }),
            scrolled_to(r.selected as int, b.entries@.len() as int, left as int) == scrolled_to(
                b.selected as int,
                b.entries@.len() as int,
                detents as int,
            ),
        decreases if left < 0 {
            -left
        } else {
            left as int
        },
    {
        if left > 0 {
            r.select_next();
            left = left - 1;
        } else {
            r.select_prev();
            left = left + 1;
        }
    }
    r
}

/// Every action the decoder gives is one the deck takes.
pub proof fn law_every_action_given_is_taken(d: Held, ev: RawEvent, i: int)
    requires
        d.down.len() == 8,
        0 <= i < fed(d, ev).1.len(),
    ensures
        given(fed(d, ev).1[i]),
{
}

/// A setting of the cue is never kept for anything but the loaded track: with
/// nothing loaded, nothing is written.
pub proof fn law_a_cue_belongs_to_the_loaded_track(
    deck: Deck,
    frame: u64,
    after: Deck,
    r: Result<Ask, DeckError>,
)
    requires
        deck.owes(Cued::SetAt(frame), after, r),
    ensures
        deck.loaded.at() is None ==> after.cues == deck.cues && r == Ok::<Ask, DeckError>(
            Ask::Nothing,
        ),
        r matches Ok(Ask::Save(_)) ==> deck.cues is Some && deck.loaded.at() is Some && (
        deck.cues->0).key_of(deck.loaded.at()->0) is Some && (after.cues->0)@ == with_cue(
            (deck.cues->0)@,
            (deck.cues->0).key_of(deck.loaded.at()->0)->0,
            frame,
        ),
{
}

/// A turn of the knob moves the selection by as many entries as it has
/// detents, on or back, and stops at the first and at the last.
pub proof fn law_the_knob_moves_the_selection(selected: int, len: int, detents: int)
    requires
        0 <= selected < len,
    ensures
        0 <= scrolled_to(selected, len, detents) < len,
        0 <= selected + detents < len ==> scrolled_to(selected, len, detents) == selected + detents,
        selected + detents < 0 ==> scrolled_to(selected, len, detents) == 0,
        selected + detents >= len ==> scrolled_to(selected, len, detents) == len - 1,
        scrolled_to(selected, len, 0) == selected,
        scrolled_to(0, 0, detents) == 0,
{
}

/// PLAY starts a deck that stands still and pauses one that does not, and twice
/// is as good as never; where the deck is and where it cues to are not touched.
pub proof fn law_play_and_pause_take_turns(t: Transport)
    requires
        t.state != State::Stopped,
    ensures
        t.rate == 0 ==> toggled(t).rate == 1000 && toggled(t).state == State::Playing,
        t.rate != 0 ==> toggled(t).rate == 0 && toggled(t).state == State::Paused,
        toggled(toggled(t)).rate == 0 <==> t.rate == 0,
        toggled(t).position == t.position && toggled(t).cue == t.cue && toggled(t).seek == t.seek,
{
}

/// Only a file that plays is loaded, and it is the file of the verdict.
pub proof fn law_only_what_plays_is_loaded(
    r: Result<Option<Vec<u8>>, DeckError>,
    verdict: VerdictView,
)
    requires
        plays(r, verdict),
    ensures
        (r matches Ok(Some(_))) <==> verdict is Plays,
        r matches Ok(Some(path)) ==> (verdict matches VerdictView::Plays(info) && path@ == info.path),
        r is Ok,
{
}

/// TRACK asks for the file beside the one that is loaded, in the folder that
/// one is in.
pub proof fn law_a_search_is_in_the_folder_of_the_track(
    deck: Deck,
    step: Step,
    r: Result<Ask, DeckError>,
    dir: Seq<u8>,
    name: Seq<u8>,
)
    requires
        deck.searches(step, r),
    ensures
        r matches Ok(Ask::Search { step: s, .. }) && s == step,
        deck.loaded.at() is None ==> (r matches Ok(Ask::Search { folder, .. }) && folder is None),
        deck.loaded.at() == Some(joined(dir, name)) && plain_name(name) && (dir == seq![47u8] || (
        dir.len() > 0 && crate::path::ended(dir) == dir)) ==> (r matches Ok(
            Ask::Search { folder: Some(path), .. },
        ) && path@ == dir),
{
    if plain_name(name) && (dir == seq![47u8] || (dir.len() > 0 && crate::path::ended(dir) == dir)) {
        law_a_name_in_a_folder_is_found_there(dir, name);
    }
}

} // verus!
