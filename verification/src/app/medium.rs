//! The stick arriving and going, joined to the deck.
//!
//! Every change ejects, one medium for another included: a stick pulled and
//! another pushed in between two looks is one change.

use vstd::prelude::*;
use vstd::string::StringSliceAdditionalSpecFns;

use crate::app::deck::Deck;
use crate::app::track::Ended;
use crate::browser::{listed, BrowseError, Browser, Item};
use crate::cue::{cues_in, file_for, volume_refusal, CueError, CueFile, CueStore};
use crate::media::{MediaWatch, Medium, MediumView, MOUNT_POINT};
use crate::text::copied;
use crate::transport::{reset, State, Transport};

verus! {

/// How often the medium is looked at, in nanoseconds.
pub const POLL_EVERY: u128 = 500_000_000;

/// What one change of medium did to the deck.
#[derive(Debug)]
pub struct Change {
    /// What the medium became.
    pub medium: Medium,
    /// The track the eject ended, if one was loaded.
    pub ended: Option<Ended>,
    /// The medium looked browsable and then would not open.
    pub unbrowsable: Option<BrowseError>,
    /// The volume has a name and its cues would not load.
    pub cueless: Option<CueError>,
}

impl Change {
    /// Whether there is nothing to say beyond the medium itself.
    pub fn is_clean(&self) -> (r: bool)
        ensures
            r == (self.unbrowsable is None && self.cueless is None),
    {
        self.unbrowsable.is_none() && self.cueless.is_none()
    }
}

/// What is watched, when it is looked at, and where its cues are kept.
#[derive(Debug)]
pub struct Mount {
    pub watch: MediaWatch,
    /// None where there is nowhere to keep cues.
    pub state_dir: Option<Vec<u8>>,
    pub every: u128,
    pub next: u128,
}

impl Mount {
    pub fn new(watch: MediaWatch, state_dir: Option<Vec<u8>>) -> (r: Mount)
        ensures
            r == (Mount { watch, state_dir, every: POLL_EVERY, next: 0 }),
    {
        Mount { watch, state_dir, every: POLL_EVERY, next: 0 }
    }

    /// The deck's own: the fixed mount point.
    pub fn at_default_path(state_dir: Option<Vec<u8>>) -> (r: Mount)
        ensures
            r.watch.mount_point@ == MOUNT_POINT.spec_bytes(),
            r.watch.state@ == MediumView::Absent,
            r.state_dir == state_dir,
            r.every == POLL_EVERY,
            r.next == 0,
    {
        Mount::new(MediaWatch::at_default_path(), state_dir)
    }

    pub fn with_interval(self, every: u128) -> (r: Mount)
        ensures
            r == (Mount { every, ..self }),
    {
        Mount { watch: self.watch, state_dir: self.state_dir, every, next: self.next }
    }

    pub fn watch(&self) -> (r: &MediaWatch)
        ensures
            *r == self.watch,
    {
        &self.watch
    }

    /// Whether what was seen is a change, which ends whatever is playing.
    pub fn changes(&self, seen: &Medium) -> (r: bool)
        ensures
            r == (seen@ != self.watch.state@),
    {
        !seen.same(self.watch.state())
    }

    /// Whether it is time to look. The first turn always is.
    pub fn due(&mut self, now: u128) -> (r: bool)
        requires
            now + old(self).every <= u128::MAX,
        ensures
            r == (now >= old(self).next),
            *final(self) == (Mount {
                next: if r {
                    (now + old(self).every) as u128
                } else {
                    old(self).next
                },
                ..*old(self)
            }),
    {
        if now < self.next {
            return false;
        }
        self.next = now + self.every;
        true
    }

    /// Whether cues are kept for a medium.
    pub open spec fn keeps(&self, medium: MediumView) -> bool {
        medium is Browsable && medium->uuid is Some && self.state_dir is Some
    }

    /// What a change comes to: the deck and the transport after it, and what
    /// there is to say.
    pub open spec fn moved(
        &self,
        deck: Deck,
        t: Transport,
        medium: Medium,
        ended: Option<Ended>,
        listing: Result<Vec<Item>, String>,
        file: CueFile,
        after: Deck,
        t_after: Transport,
        r: Change,
    ) -> bool {
        let root = self.watch.mount_point@;
        &&& r.medium@ == medium@
        &&& r.ended == ended
        &&& !after.playing
        &&& after.loaded.track is None
        &&& t_after == (if deck.playing {
                reset(t, State::Stopped, 0)
            } else {
                t
            })
        &&& after.config == deck.config
        &&& after.was_playing == deck.was_playing
        &&& if !(medium@ is Browsable) {
                after.browser is None && after.cues is None && r.unbrowsable is None
                    && r.cueless is None
            } else {
                match listing {
                    Err(why) => after.browser is None && after.cues is None && (
                    r.unbrowsable matches Some(BrowseError::Unreadable { path, reason }) && path@
                        == root && reason == why) && r.cueless is None,
                    Ok(items) => {
                        &&& r.unbrowsable is None
                        &&& after.browser matches Some(b) && b.root@ == root
                            && b.below@.len() == 0 && b.listing() == listed(items@) && b.selected
                            == 0 && b.first == 0 && b.headers@.len() == 0
                        &&& !self.keeps(medium@) ==> after.cues is None && r.cueless is None
                        &&& self.keeps(medium@) ==> {
                            let volume = medium@->uuid->0;
                            let at = file_for(self.state_dir->0@, volume);
                            if volume_refusal(volume) is Some {
                                after.cues is None && (r.cueless matches Some(
                                    CueError::BadVolume { volume: v, reason },
                                ) && v@ == volume && Some(reason) == volume_refusal(volume))
                            } else {
                                match file {
                                    CueFile::Failed(why) => after.cues is None && (
                                    r.cueless matches Some(CueError::Io { path, error }) && path@
                                        == at && error == why),
                                    CueFile::Missing => r.cueless is None && (
                                    after.cues matches Some(store) && store@ == Map::<
                                        Seq<u8>,
                                        u64,
                                    >::empty() && store.file@ == at && store.mount_point@ == root),
                                    CueFile::Read(bytes) => r.cueless is None && (
                                    after.cues matches Some(store) && store@
                                        == cues_in(bytes@, Map::empty()) && store.file@ == at
                                        && store.mount_point@ == root),
                                }
                            }
                        }
                    },
                }
            }
    }

    /// Moves the deck to the medium that was seen, where it is not the one
    /// there was. The track goes first, then the listing, and then whatever is
    /// there now is opened: `listing` is a read of its root, and `file` of its
    /// cues, and neither is of any account where there is nothing to browse.
    /// `ended` is what the run of the track that was playing did.
    pub fn turn(
        &mut self,
        deck: &mut Deck,
        t: &mut Transport,
        seen: Medium,
        ended: Option<Ended>,
        listing: Result<Vec<Item>, String>,
        file: CueFile,
    ) -> (r: Option<Change>)
        requires
            old(deck).wf(),
        ensures
            final(deck).wf(),
            *final(self) == (Mount { watch: final(self).watch, ..*old(self) }),
            final(self).watch.mount_point@ == old(self).watch.mount_point@,
            final(self).watch.state@ == seen@,
            r is Some <==> seen@ != old(self).watch.state@,
            r is None ==> *final(deck) == *old(deck) && *final(t) == *old(t),
            r matches Some(change) ==> old(self).moved(
                *old(deck),
                *old(t),
                seen,
                ended,
                listing,
                file,
                *final(deck),
                *final(t),
                change,
            ),
    {
        if !self.changes(&seen) {
            return None;
        }
        let medium: Medium = seen.duplicate();
        self.watch.poll(seen);
        let root: Vec<u8> = copied(self.watch.mount_point());
        deck.detach(t);
        if !medium.is_browsable() {
            return Some(Change { medium, ended, unbrowsable: None, cueless: None });
        }
        let browser: Browser = match Browser::open(root.as_slice(), listing) {
            Ok(b) => b,
            Err(e) => {
                return Some(Change { medium, ended, unbrowsable: Some(e), cueless: None });
            },
        };
        let mut cueless: Option<CueError> = None;
        let mut cues: Option<CueStore> = None;
        if let Some(dir) = &self.state_dir {
            if let Some(volume) = medium.uuid() {
                match CueStore::load(dir.as_slice(), volume, root.as_slice(), file) {
                    Ok(store) => {
                        cues = Some(store);
                    },
                    Err(e) => {
                        cueless = Some(e);
                    },
                }
            }
        }
        deck.attach(browser, cues);
        Some(Change { medium, ended, unbrowsable: None, cueless })
    }
}

/// Nothing of the old medium survives a change: the listing and the cues are
/// those of the medium that was seen, and what was playing is stopped.
pub proof fn law_every_change_ejects(
    mount: Mount,
    deck: Deck,
    t: Transport,
    medium: Medium,
    ended: Option<Ended>,
    listing: Result<Vec<Item>, String>,
    file: CueFile,
    after: Deck,
    t_after: Transport,
    r: Change,
)
    requires
        mount.moved(deck, t, medium, ended, listing, file, after, t_after, r),
    ensures
        after.browser matches Some(b) ==> medium@ is Browsable && listing is Ok && b.listing()
            == listed(listing->Ok_0@) && b.root@ == mount.watch.mount_point@,
        after.cues matches Some(s) ==> after.browser is Some && mount.keeps(medium@) && !(
        file is Failed),
        deck.playing ==> after.loaded.track is None && t_after.state == State::Stopped,
        !after.playing,
{
}

/// A medium that comes in brings what is on it: the listing of its root, from
/// the top, and the cues that were saved for its volume, or none where none
/// were; and one that is not there takes both away.
pub proof fn law_a_medium_brings_its_cues(
    mount: Mount,
    deck: Deck,
    t: Transport,
    medium: Medium,
    ended: Option<Ended>,
    listing: Result<Vec<Item>, String>,
    file: CueFile,
    after: Deck,
    t_after: Transport,
    r: Change,
    volume: Seq<char>,
)
    requires
        mount.moved(deck, t, medium, ended, listing, file, after, t_after, r),
    ensures
        medium@ is Browsable && listing is Ok ==> (after.browser matches Some(b) && b.selected == 0
            && b.first == 0 && b.below@.len() == 0 && b.listing() == listed(listing->Ok_0@)),
        medium@ == (MediumView::Browsable { uuid: Some(volume) }) && listing is Ok
            && mount.state_dir is Some && volume_refusal(volume) is None ==> {
            &&& file is Missing ==> (after.cues matches Some(store) && store@ == Map::<
                Seq<u8>,
                u64,
            >::empty())
            &&& file matches CueFile::Read(bytes) ==> (after.cues matches Some(store) && store@
                == cues_in(bytes@, Map::empty()))
            &&& after.cues matches Some(store) ==> store.file@ == file_for(
                mount.state_dir->0@,
                volume,
            ) && store.mount_point@ == mount.watch.mount_point@
            &&& file is Failed ==> after.cues is None && r.cueless is Some
        },
        medium@ is Browsable && medium@->uuid is None ==> after.cues is None && r.cueless is None,
        !(medium@ is Browsable) || listing is Err ==> after.browser is None && after.cues is None,
        !deck.playing ==> t_after == t,
        r.medium@ == medium@ && r.ended == ended,
{
}

} // verus!
