//! What keeps the window around the playhead resident: when to start over
//! somewhere else, what to let go of, and how much to read.

use vstd::prelude::*;

verus! {

/// The most frames read at a time.
pub const BLOCK: u64 = 1024;

/// The frames of a track that were read and not let go of.
#[derive(Debug)]
pub struct Window {
    /// As many frames as may be resident.
    pub capacity: u64,
    /// The frames of the track.
    pub frames: u64,
    /// The first frame that is resident.
    pub start: u64,
    /// One past the last.
    pub end: u64,
}

/// What there is to do about a playhead.
#[derive(Debug, Clone, Copy, PartialEq, Eq, Structural)]
pub enum Step {
    /// The playhead is nowhere in the window: start over at this frame.
    Restart(u64),
    /// Let go of what is before a frame, where there is one, and read so many
    /// frames, where there are any.
    Fill { drop: Option<u64>, read: u64 },
}

/// The least of two numbers.
pub open spec fn least(a: int, b: int) -> int {
    if a < b {
        a
    } else {
        b
    }
}

/// Half of what may be resident is kept behind the playhead.
pub open spec fn kept_from(w: Window, at: int) -> int {
    if at < w.capacity / 2 {
        0
    } else {
        at - w.capacity / 2
    }
}

/// Where the window starts once what is too far behind has gone.
pub open spec fn started(w: Window, at: int) -> int {
    if kept_from(w, at) > w.start {
        kept_from(w, at)
    } else {
        w.start as int
    }
}

/// How much is read next: a block, or what there is room for, or what is left.
pub open spec fn wanted(w: Window) -> int {
    least(BLOCK as int, least(w.capacity - (w.end - w.start), w.frames - w.end))
}

/// What there is to do about a playhead at this frame, and the window after.
pub open spec fn stepped(w: Window, at: int) -> (Step, Window) {
    if at < w.start || at > w.end {
        (Step::Restart(least(at, w.frames as int) as u64), w)
    } else {
        let after = Window { start: started(w, at) as u64, ..w };
        (
            Step::Fill {
                drop: if after.start > w.start {
                    Some(after.start)
                } else {
                    None
                },
                read: wanted(after) as u64,
            },
            after,
        )
    }
}

impl Window {
    /// What is resident is of the track, and no more than there is room for.
    pub open spec fn wf(&self) -> bool {
        self.start <= self.end <= self.frames && self.end - self.start <= self.capacity
    }

    /// A window onto a track, with nothing read yet.
    pub fn new(capacity: u64, frames: u64) -> (r: Window)
        ensures
            r == (Window { capacity, frames, start: 0, end: 0 }),
            r.wf(),
    {
        Window { capacity, frames, start: 0, end: 0 }
    }

    /// One turn, with the playhead at this frame.
    pub fn step(&mut self, at: u64) -> (r: Step)
        requires
            old(self).wf(),
        ensures
            final(self).wf(),
            (r, *final(self)) == stepped(*old(self), at as int),
    {
        if at < self.start || at > self.end {
            return Step::Restart(
                if at < self.frames {
                    at
                } else {
                    self.frames
                },
            );
        }
        let half: u64 = self.capacity / 2;
        let keep: u64 = if at < half {
            0
        } else {
            at - half
        };
        let mut drop: Option<u64> = None;
        if keep > self.start {
            drop = Some(keep);
            self.start = keep;
        }
        let room: u64 = self.capacity - (self.end - self.start);
        let left: u64 = self.frames - self.end;
        let most: u64 = if room < left {
            room
        } else {
            left
        };
        let read: u64 = if BLOCK < most {
            BLOCK
        } else {
            most
        };
        Step::Fill { drop, read }
    }

    /// The file was moved to a frame: nothing is resident there yet.
    pub fn restarted(&mut self, at: u64)
        requires
            old(self).wf(),
            at <= old(self).frames,
        ensures
            final(self).wf(),
            *final(self) == (Window { start: at, end: at, ..*old(self) }),
    {
        self.start = at;
        self.end = at;
    }

    /// So many frames were read, of those that were asked for.
    pub fn took(&mut self, got: u64)
        requires
            old(self).wf(),
            got <= wanted(*old(self)),
        ensures
            final(self).wf(),
            *final(self) == (Window { end: (old(self).end + got) as u64, ..*old(self) }),
    {
        self.end = self.end + got;
    }
}

/// A turn never lets go of the frame at the playhead, nor of anything less than
/// half the window behind it, and what it asks for there is room for.
pub proof fn law_what_is_near_the_playhead_stays(w: Window, at: int)
    requires
        w.wf(),
        w.start <= at <= w.end,
    ensures
        ({
            let (step, after) = stepped(w, at);
            &&& after.end == w.end
            &&& after.start <= at
            &&& after.start == w.start || after.start <= at - w.capacity / 2
            &&& step matches Step::Fill { read, .. } && after.end - after.start + read
                <= w.capacity && after.end + read <= w.frames
        }),
{
}

/// A window that starts over where it was told to has the playhead in it, and
/// reads on from there.
pub proof fn law_starting_over_finds_the_playhead(w: Window, at: int)
    requires
        w.wf(),
        0 <= at <= w.frames,
        at < w.start || at > w.end,
    ensures
        stepped(w, at).0 == Step::Restart(at as u64),
        ({
            let there = Window { start: at as u64, end: at as u64, ..w };
            stepped(there, at) == (Step::Fill { drop: None, read: wanted(there) as u64 }, there)
        }),
{
}

/// While the playhead is in the window, a turn with nothing to read has the
/// rest of the track resident, or at least half the window ahead of the
/// playhead.
pub proof fn law_a_full_window_is_half_ahead(w: Window, at: int)
    requires
        w.wf(),
        w.start <= at <= w.end,
        stepped(w, at).0 matches Step::Fill { read, .. } && read == 0,
    ensures
        w.end == w.frames || w.end - at >= w.capacity - w.capacity / 2,
{
}

/// A step reads as much as it may: a block, the room there is or what is left
/// of the track, whichever is least; so nothing is read only when the window
/// is full or has the end of the track.
pub proof fn law_a_step_reads_as_much_as_it_may(w: Window, at: int)
    requires
        w.wf(),
        w.start <= at <= w.end,
    ensures
        ({
            let (step, after) = stepped(w, at);
            let room = w.capacity - (w.end - after.start);
            let left = w.frames - w.end;
            &&& step matches Step::Fill { read, drop } && read <= BLOCK && read <= room && read
                <= left && (read == BLOCK || read == room || read == left) && (drop is Some
                <==> after.start > w.start) && (drop matches Some(d) ==> d == after.start)
            &&& after.start >= w.start
            &&& at - after.start >= w.capacity / 2 ==> at - after.start == w.capacity / 2
                || after.start == w.start
            &&& at - w.start > w.capacity / 2 ==> after.start == at - w.capacity / 2
        }),
{
}

} // verus!
