//! Who owns "what is loaded".
//!
//! The browser's selection and the playing track are not the same: browsing
//! one folder while a track from another plays is what a browser on a deck is
//! for. A cue belongs to the track that can be heard, so it goes through here
//! and never through a path of the caller's own choosing.
//!
//! Neighbours are worked out from a fresh read of the folder, never kept.

use vstd::prelude::*;

use crate::browser::{listed, read_folder, BrowseError, Entry, EntryKind, EntryView, Item};
use crate::cue::{with_cue, CueError, CueStore};
use crate::file::TrackInfo;
use crate::path::{join, joined, parent_and_name, split};
use crate::text::same_bytes;

verus! {

/// Which way a track search moves.
#[derive(Debug, Clone, Copy, PartialEq, Eq, Structural)]
pub enum Step {
    Next,
    Previous,
}

/// The playing track. Able to hold nothing: a deck with no track loaded is an
/// ordinary state.
#[derive(Debug)]
pub struct Loaded {
    pub track: Option<Box<TrackInfo>>,
}

/// The names of the files of a folder, in its order.
pub open spec fn file_names(es: Seq<EntryView>) -> Seq<Seq<u8>>
    decreases es.len(),
{
    if es.len() == 0 {
        Seq::empty()
    } else if es.last().kind == EntryKind::File {
        file_names(es.drop_last()).push(es.last().name)
    } else {
        file_names(es.drop_last())
    }
}

/// Where a name first stands.
pub open spec fn index_in(names: Seq<Seq<u8>>, name: Seq<u8>, from: int) -> Option<int>
    decreases names.len() - from,
{
    if from >= names.len() {
        None
    } else if names[from] == name {
        Some(from)
    } else {
        index_in(names, name, from + 1)
    }
}

/// The file one step from `name` among the files of its folder. None past
/// either end, where the caller does nothing, and none where the file is not
/// in its own folder's listing: there is no next to a position that does not
/// exist.
pub open spec fn next_name(names: Seq<Seq<u8>>, name: Seq<u8>, step: Step) -> Option<Seq<u8>> {
    match index_in(names, name, 0) {
        None => None,
        Some(at) => match step {
            Step::Next => if at + 1 < names.len() {
                Some(names[at + 1])
            } else {
                None
            },
            Step::Previous => if at > 0 {
                Some(names[at - 1])
            } else {
                None
            },
        },
    }
}

impl Default for Loaded {
    fn default() -> (r: Loaded)
        ensures
            r.track is None,
    {
        Loaded { track: None }
    }
}

impl Loaded {
    /// The path of the loaded track.
    pub open spec fn at(&self) -> Option<Seq<u8>> {
        match self.track {
            Some(t) => Some(t.path@),
            None => None,
        }
    }

    pub fn nothing() -> (r: Loaded)
        ensures
            r.track is None,
    {
        Loaded { track: None }
    }

    /// A track has been loaded. Takes what the file layer already produced.
    pub fn load(&mut self, info: Box<TrackInfo>)
        ensures
            final(self).track == Some(info),
    {
        self.track = Some(info);
    }

    /// Nothing is loaded any more.
    pub fn unload(&mut self)
        ensures
            final(self).track is None,
    {
        self.track = None;
    }

    pub fn track(&self) -> (r: Option<&TrackInfo>)
        ensures
            r is None <==> self.track is None,
            r matches Some(t) ==> *t == *(self.track->0),
    {
        match &self.track {
            Some(t) => Some(&**t),
            None => None,
        }
    }

    pub fn path(&self) -> (r: Option<&[u8]>)
        ensures
            r is None <==> self.at() is None,
            r matches Some(p) ==> self.at() == Some(p@),
    {
        match &self.track {
            Some(t) => Some(t.path.as_slice()),
            None => None,
        }
    }

    /// The folder and the name of the loaded track, where it has them.
    pub open spec fn place(&self) -> Option<(Seq<u8>, Seq<u8>)> {
        match self.at() {
            Some(p) => split(p),
            None => None,
        }
    }

    /// The folder [`Loaded::neighbour`] needs a read of.
    pub fn folder(&self) -> (r: Option<Vec<u8>>)
        ensures
            r is None <==> self.place() is None,
            r matches Some(dir) ==> (self.place() matches Some((d, _)) && d == dir@),
    {
        match self.path() {
            Some(p) => match parent_and_name(p) {
                Some((dir, _)) => Some(dir),
                None => None,
            },
            None => None,
        }
    }

    /// The file a track search should load, or `None` at a folder boundary and
    /// when nothing is loaded. Folders are skipped: stepping onto one would be
    /// a load that fails.
    pub fn neighbour(&self, step: Step, listing: Result<Vec<Item>, String>) -> (r: Result<
        Option<Vec<u8>>,
        BrowseError,
    >)
        ensures
            match self.place() {
                None => r matches Ok(None),
                Some((dir, name)) => match listing {
                    Err(why) => r matches Err(BrowseError::Unreadable { path, reason }) && path@
                        == dir && reason == why,
                    Ok(items) => match next_name(file_names(listed(items@)), name, step) {
                        None => r matches Ok(None),
                        Some(to) => r matches Ok(Some(path)) && path@ == joined(dir, to),
                    },
                },
            },
    {
        let (dir, name) = match self.path() {
            Some(p) => match parent_and_name(p) {
                Some(place) => place,
                None => {
                    return Ok(None);
                },
            },
            None => {
                return Ok(None);
            },
        };
        let entries: Vec<Entry> = match listing {
            Ok(items) => read_folder(&items),
            Err(reason) => {
                return Err(BrowseError::Unreadable { path: dir, reason });
            },
        };
        let files: Vec<Vec<u8>> = names_of_files(entries);
        let ghost names = bytes_of(files@);
        let mut at: usize = 0;
        while at < files.len() && !same_bytes(files[at].as_slice(), name.as_slice())
            invariant
                at <= files@.len(),
                names == bytes_of(files@),
                index_in(names, name@, 0) == index_in(names, name@, at as int),
            decreases files@.len() - at,
        {
            at = at + 1;
        }
        if at == files.len() {
            return Ok(None);
        }
        match step {
            Step::Next => if files.len() - at > 1 {
                Ok(Some(join(dir.as_slice(), files[at + 1].as_slice())))
            } else {
                Ok(None)
            },
            Step::Previous => if at > 0 {
                Ok(Some(join(dir.as_slice(), files[at - 1].as_slice())))
            } else {
                Ok(None)
            },
        }
    }

    /// The cue point for the loaded track, or zero when nothing is loaded.
    pub fn cue(&self, store: &CueStore) -> (r: Result<u64, CueError>)
        requires
            store.wf(),
        ensures
            match self.at() {
                None => r == Ok::<u64, CueError>(0),
                Some(p) => match r {
                    Ok(frame) => store.key_of(p) matches Some(key) && frame == store.frame_at(key),
                    Err(CueError::OutsideMedium { path }) => store.key_of(p) is None && path@ == p,
                    Err(_) => false,
                },
            },
    {
        match self.path() {
            Some(p) => store.get(p),
            None => Ok(0),
        }
    }

    /// Records the cue point for the loaded track. Does nothing when nothing
    /// is loaded: there is no track for it to belong to.
    pub fn set_cue(&self, store: &mut CueStore, frame: u64) -> (r: Result<(), CueError>)
        requires
            old(store).wf(),
        ensures
            final(store).wf(),
            final(store).file == old(store).file,
            final(store).mount_point == old(store).mount_point,
            match self.at() {
                None => r == Ok::<(), CueError>(()) && *final(store) == *old(store),
                Some(p) => match r {
                    Ok(()) => old(store).key_of(p) matches Some(key) && final(store)@ == with_cue(
                        old(store)@,
                        key,
                        frame,
                    ),
                    Err(CueError::OutsideMedium { path }) => old(store).key_of(p) is None && path@
                        == p && *final(store) == *old(store),
                    Err(_) => false,
                },
            },
    {
        match self.path() {
            Some(p) => store.set(p, frame),
            None => Ok(()),
        }
    }
}

pub open spec fn bytes_of(names: Seq<Vec<u8>>) -> Seq<Seq<u8>> {
    names.map_values(|n: Vec<u8>| n@)
}

fn names_of_files(entries: Vec<Entry>) -> (r: Vec<Vec<u8>>)
    ensures
        bytes_of(r@) == file_names(crate::browser::views(entries@)),
{
    let ghost es = crate::browser::views(entries@);
    let mut out: Vec<Vec<u8>> = Vec::new();
    let mut i: usize = 0;
    assert(bytes_of(out@) =~= Seq::empty());
    while i < entries.len()
        invariant
            i <= entries@.len(),
            es == crate::browser::views(entries@),
            bytes_of(out@) == file_names(es.take(i as int)),
        decreases entries@.len() - i,
    {
        proof {
            assert(es.take(i + 1).drop_last() =~= es.take(i as int));
            assert(es.take(i + 1).last() == es[i as int]);
        }
        if entries[i].kind == EntryKind::File {
            let name: Vec<u8> = crate::text::copied(entries[i].name.as_slice());
            let ghost before = out@;
            out.push(name);
            assert(bytes_of(out@) =~= bytes_of(before).push(es[i as int].name));
        }
        i = i + 1;
    }
    assert(es.take(es.len() as int) =~= es);
    out
}

/// A step there and a step back is where it started, and no step leaves the
/// folder by either end: it does not wrap.
pub proof fn law_a_step_back_undoes_a_step(names: Seq<Seq<u8>>, at: int)
    requires
        0 <= at < names.len() - 1,
        forall|i: int, j: int|
            0 <= i < j < names.len() ==> #[trigger] names[i] != #[trigger] names[j],
    ensures
        next_name(names, names[at], Step::Next) == Some(names[at + 1]),
        next_name(names, names[at + 1], Step::Previous) == Some(names[at]),
        next_name(names, names[0], Step::Previous) is None,
        next_name(names, names.last(), Step::Next) is None,
{
    lemma_index_in(names, at, 0);
    lemma_index_in(names, at + 1, 0);
    lemma_index_in(names, 0, 0);
    lemma_index_in(names, names.len() - 1, 0);
}

proof fn lemma_index_in(names: Seq<Seq<u8>>, at: int, from: int)
    requires
        0 <= from <= at < names.len(),
        forall|i: int, j: int|
            0 <= i < j < names.len() ==> #[trigger] names[i] != #[trigger] names[j],
    ensures
        index_in(names, names[at], from) == Some(at),
    decreases at - from,
{
    if from < at {
        lemma_index_in(names, at, from + 1);
    }
}

/// A search steps over the files of the folder, all of them and nothing else:
/// the names it knows are those of the entries that are files, as often as they
/// occur and in the order of the listing, and a name is among them exactly
/// where some entry has it and is a file.
pub proof fn law_a_search_steps_over_every_file(es: Seq<EntryView>, name: Seq<u8>)
    ensures
        file_names(es) == es.filter(|e: EntryView| e.kind == EntryKind::File).map_values(
            |e: EntryView| e.name,
        ),
        file_names(es).contains(name) <==> exists|i: int|
            0 <= i < es.len() && (#[trigger] es[i]).name == name && es[i].kind == EntryKind::File,
    decreases es.len(),
{
    reveal(Seq::filter);
    let is_file = |e: EntryView| e.kind == EntryKind::File;
    let named = |e: EntryView| e.name;
    if es.len() > 0 {
        let rest = es.drop_last();
        law_a_search_steps_over_every_file(rest, name);
        let before = file_names(rest);
        if es.last().kind == EntryKind::File {
            assert(file_names(es) =~= before.push(es.last().name));
            assert(es.filter(is_file).map_values(named) =~= rest.filter(is_file).map_values(
                named,
            ).push(es.last().name));
            assert(file_names(es)[before.len() as int] == es.last().name);
            if before.contains(name) {
                let k = choose|k: int| 0 <= k < before.len() && before[k] == name;
                assert(file_names(es)[k] == name);
            }
            if file_names(es).contains(name) {
                let k = choose|k: int|
                    0 <= k < file_names(es).len() && file_names(es)[k] == name;
                if k < before.len() {
                    assert(before[k] == name);
                } else {
                    assert(es[es.len() - 1].name == name);
                }
            }
        }
        if exists|i: int|
            0 <= i < rest.len() && (#[trigger] rest[i]).name == name && rest[i].kind
                == EntryKind::File {
            let i = choose|i: int|
                0 <= i < rest.len() && (#[trigger] rest[i]).name == name && rest[i].kind
                    == EntryKind::File;
            assert(es[i].name == name && es[i].kind == EntryKind::File);
        }
        if exists|i: int|
            0 <= i < es.len() && (#[trigger] es[i]).name == name && es[i].kind == EntryKind::File {
            let i = choose|i: int|
                0 <= i < es.len() && (#[trigger] es[i]).name == name && es[i].kind
                    == EntryKind::File;
            if i < rest.len() {
                assert(rest[i].name == name);
            }
        }
    } else {
        assert(file_names(es) =~= es.filter(is_file).map_values(named));
    }
}

proof fn lemma_index_found(names: Seq<Seq<u8>>, name: Seq<u8>, from: int)
    requires
        0 <= from <= names.len(),
    ensures
        match index_in(names, name, from) {
            Some(at) => from <= at < names.len() && names[at] == name,
            None => forall|i: int| from <= i < names.len() ==> #[trigger] names[i] != name,
        },
    decreases names.len() - from,
{
    if from < names.len() && names[from] != name {
        lemma_index_found(names, name, from + 1);
    }
}

/// A search leads to a file of the folder or nowhere: from a file that is in
/// the folder to one that stands next to it there, on the side it was asked
/// for, and from one that is not there to none.
pub proof fn law_a_search_leads_to_the_file_beside(names: Seq<Seq<u8>>, name: Seq<u8>, step: Step)
    ensures
        next_name(names, name, step) matches Some(to) ==> exists|i: int|
            0 <= i < names.len() - 1 && if step == Step::Next {
                #[trigger] names[i] == name && names[i + 1] == to
            } else {
                names[i + 1] == name && names[i] == to
            },
        !names.contains(name) ==> next_name(names, name, step) is None,
{
    lemma_index_found(names, name, 0);
    if let Some(at) = index_in(names, name, 0) {
        assert(names[at] == name);
        match step {
            Step::Next => {
                if at + 1 < names.len() {
                    assert(names[at] == name && names[at + 1] == names[at + 1]);
                }
            },
            Step::Previous => {
                if at > 0 {
                    let i = at - 1;
                    assert(names[i] == names[at - 1] && names[i + 1] == name);
                }
            },
        }
    }
}

} // verus!
