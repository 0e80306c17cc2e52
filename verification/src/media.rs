//! Media watch: is there a stick, can it be read, and what is it called.
//!
//! A directory that exists is not yet a stick: something is mounted at a path
//! when its device differs from that of the directory above it.

use vstd::prelude::*;
use vstd::string::StringSliceAdditionalSpecFns;

use crate::scan::same_chars;
use crate::text::{chars_of, copied, text_lossy, text_of};

verus! {

/// Where the stick is mounted.
pub const MOUNT_POINT: &'static str = "/media/stick";

/// Where volumes are named by their UUID.
pub const BY_UUID: &'static str = "/dev/disk/by-uuid";

#[derive(Debug, Clone, PartialEq, Eq)]
pub enum Medium {
    /// Nothing is mounted.
    Absent,
    /// Something is mounted and cannot be read.
    Unreadable { reason: String },
    /// Mounted and readable. The UUID is opaque, and where there is none the
    /// stick plays but its cues cannot be kept.
    Browsable { uuid: Option<String> },
}

/// A medium as a mathematical value.
pub enum MediumView {
    Absent,
    Unreadable { reason: Seq<char> },
    Browsable { uuid: Option<Seq<char>> },
}

pub open spec fn text_option(s: Option<String>) -> Option<Seq<char>> {
    match s {
        Some(t) => Some(t@),
        None => None,
    }
}

impl View for Medium {
    type V = MediumView;

    open spec fn view(&self) -> MediumView {
        match *self {
            Medium::Absent => MediumView::Absent,
            Medium::Unreadable { reason } => MediumView::Unreadable { reason: reason@ },
            Medium::Browsable { uuid } => MediumView::Browsable { uuid: text_option(uuid) },
        }
    }
}

/// Whether two texts are the same.
pub fn same_text(a: &str, b: &str) -> (r: bool)
    ensures
        r == (a@ == b@),
{
    let x: Vec<char> = chars_of(a);
    let y: Vec<char> = chars_of(b);
    same_chars(x.as_slice(), y.as_slice())
}

impl Medium {
    pub fn is_browsable(&self) -> (r: bool)
        ensures
            r == (self@ is Browsable),
    {
        match self {
            Medium::Browsable { .. } => true,
            _ => false,
        }
    }

    /// The UUID, where something is mounted that has one.
    pub fn uuid(&self) -> (r: Option<&str>)
        ensures
            r is Some <==> self@ is Browsable && self@->uuid is Some,
            r matches Some(u) ==> Some(u@) == self@->uuid,
    {
        match self {
            Medium::Browsable { uuid: Some(u) } => Some(u.as_str()),
            _ => None,
        }
    }

    pub fn same(&self, other: &Medium) -> (r: bool)
        ensures
            r == (self@ == other@),
    {
        match (self, other) {
            (Medium::Absent, Medium::Absent) => true,
            (Medium::Unreadable { reason: a }, Medium::Unreadable { reason: b }) => same_text(
                a.as_str(),
                b.as_str(),
            ),
            (
                Medium::Browsable { uuid: Some(a) },
                Medium::Browsable { uuid: Some(b) },
            ) => same_text(a.as_str(), b.as_str()),
            (Medium::Browsable { uuid: None }, Medium::Browsable { uuid: None }) => true,
            _ => false,
        }
    }

    pub fn duplicate(&self) -> (r: Medium)
        ensures
            r@ == self@,
    {
        match self {
            Medium::Absent => Medium::Absent,
            Medium::Unreadable { reason } => Medium::Unreadable { reason: reason.clone() },
            Medium::Browsable { uuid: Some(u) } => Medium::Browsable { uuid: Some(u.clone()) },
            Medium::Browsable { uuid: None } => Medium::Browsable { uuid: None },
        }
    }

    pub open spec fn text(m: MediumView) -> Seq<char> {
        match m {
            MediumView::Absent => "no medium"@,
            MediumView::Unreadable { reason } => "unreadable: "@ + reason,
            MediumView::Browsable { uuid: Some(u) } => "browsable, volume "@ + u,
            MediumView::Browsable {
                uuid: None,
            } => "browsable, no volume UUID — cues cannot be saved"@,
        }
    }

    pub fn to_text(&self) -> (r: String)
        ensures
            r@ == Medium::text(self@),
    {
        let mut out: String = String::new();
        match self {
            Medium::Absent => {
                out.append("no medium");
            },
            Medium::Unreadable { reason } => {
                out.append("unreadable: ");
                out.append(reason.as_str());
            },
            Medium::Browsable { uuid: Some(u) } => {
                out.append("browsable, volume ");
                out.append(u.as_str());
            },
            Medium::Browsable { uuid: None } => {
                out.append("browsable, no volume UUID — cues cannot be saved");
            },
        }
        assert(out@ =~= Medium::text(self@));
        out
    }
}

/// What asking the filesystem about a path brought.
#[derive(Debug, Clone, Copy, PartialEq, Eq, Structural)]
pub enum Stat {
    NotFound,
    Failed,
    Found { is_dir: bool, dev: u64 },
}

/// A path the filesystem would not answer for.
#[derive(Debug, Clone, Copy, PartialEq, Eq, Structural)]
pub struct StatFailed {}

/// Whether something is mounted at a path, from the path and the directory
/// above it. There is none above the root, and a path that is not there is not
/// an error.
pub open spec fn mounted(here: Stat, above: Option<Stat>) -> Result<bool, StatFailed> {
    match here {
        Stat::NotFound => Ok(false),
        Stat::Failed => Err(StatFailed {  }),
        Stat::Found { is_dir, dev } => if !is_dir || above is None {
            Ok(false)
        } else {
            match above->0 {
                Stat::Found { dev: over, .. } => Ok(dev != over),
                _ => Err(StatFailed {  }),
            }
        },
    }
}

pub fn is_mount_point(here: Stat, above: Option<Stat>) -> (r: Result<bool, StatFailed>)
    ensures
        r == mounted(here, above),
{
    match here {
        Stat::NotFound => Ok(false),
        Stat::Failed => Err(StatFailed {  }),
        Stat::Found { is_dir, dev } => {
            if !is_dir {
                return Ok(false);
            }
            match above {
                None => Ok(false),
                Some(Stat::Found { dev: over, .. }) => Ok(dev != over),
                Some(_) => Err(StatFailed {  }),
            }
        },
    }
}

/// What opening a volume brought.
#[derive(Debug)]
pub enum Volume {
    Listed { uuid: Option<String> },
    Refused { reason: String },
}

/// A volume as a mathematical value.
pub enum VolumeView {
    Listed { uuid: Option<Seq<char>> },
    Refused { reason: Seq<char> },
}

impl View for Volume {
    type V = VolumeView;

    open spec fn view(&self) -> VolumeView {
        match *self {
            Volume::Listed { uuid } => VolumeView::Listed { uuid: text_option(uuid) },
            Volume::Refused { reason } => VolumeView::Refused { reason: reason@ },
        }
    }
}

pub open spec fn examined(mount: Result<bool, StatFailed>, volume: VolumeView) -> MediumView {
    if mount != Ok::<bool, StatFailed>(true) {
        MediumView::Absent
    } else {
        match volume {
            VolumeView::Listed { uuid } => MediumView::Browsable { uuid },
            VolumeView::Refused { reason } => MediumView::Unreadable { reason },
        }
    }
}

/// One examination of a path, with no state of its own. Only what is mounted
/// is a medium at all, whatever opening it brought.
pub fn examine(mount: Result<bool, StatFailed>, volume: Volume) -> (r: Medium)
    ensures
        r@ == examined(mount, volume@),
{
    match mount {
        Ok(true) => match volume {
            Volume::Listed { uuid } => Medium::Browsable { uuid },
            Volume::Refused { reason } => Medium::Unreadable { reason },
        },
        _ => Medium::Absent,
    }
}

/// A name in the symlink farm, and the device it names where that could be
/// told.
#[derive(Debug)]
pub struct FarmEntry {
    pub name: Vec<u8>,
    pub rdev: Option<u64>,
}

pub open spec fn farm_of(farm: Seq<FarmEntry>) -> Seq<(Seq<u8>, Option<u64>)> {
    farm.map_values(|e: FarmEntry| (e.name@, e.rdev))
}

/// The first name of the volume with this device number.
pub open spec fn named(want: Option<u64>, farm: Seq<(Seq<u8>, Option<u64>)>) -> Option<Seq<char>>
    decreases farm.len(),
{
    if want is None || farm.len() == 0 {
        None
    } else if farm[0].1 == want {
        Some(text_of(farm[0].0))
    } else {
        named(want, farm.skip(1))
    }
}

/// The UUID of a volume, matched by device number rather than by any name.
pub fn volume_uuid(want: Option<u64>, farm: &[FarmEntry]) -> (r: Option<String>)
    ensures
        text_option(r) == named(want, farm_of(farm@)),
{
    let device: u64 = match want {
        Some(device) => device,
        None => {
            return None;
        },
    };
    let mut i: usize = 0;
    let ghost all = farm_of(farm@);
    assert(all.skip(0) =~= all);
    while i < farm.len()
        invariant
            i <= farm@.len(),
            all == farm_of(farm@),
            want == Some(device),
            named(want, all.skip(i as int)) == named(want, all),
        decreases farm@.len() - i,
    {
        assert(all.skip(i as int)[0] == (farm@[i as int].name@, farm@[i as int].rdev));
        assert(all.skip(i as int).skip(1) =~= all.skip(i + 1));
        if let Some(rdev) = farm[i].rdev {
            if rdev == device {
                let name: String = text_lossy(farm[i].name.as_slice());
                assert(name@ == text_of(farm@[i as int].name@));
                return Some(name);
            }
        }
        i = i + 1;
    }
    None
}

/// Watches one path.
#[derive(Debug)]
pub struct MediaWatch {
    pub mount_point: Vec<u8>,
    pub state: Medium,
}

impl MediaWatch {
    /// Starts with nothing mounted, so that the first poll reports whatever
    /// is there already.
    pub fn new(mount_point: Vec<u8>) -> (r: MediaWatch)
        ensures
            r.mount_point@ == mount_point@,
            r.state@ == MediumView::Absent,
    {
        MediaWatch { mount_point, state: Medium::Absent }
    }

    pub fn at_default_path() -> (r: MediaWatch)
        ensures
            r.mount_point@ == MOUNT_POINT.spec_bytes(),
            r.state@ == MediumView::Absent,
    {
        MediaWatch::new(copied(MOUNT_POINT.as_bytes()))
    }

    pub fn mount_point(&self) -> (r: &[u8])
        ensures
            r@ == self.mount_point@,
    {
        self.mount_point.as_slice()
    }

    pub fn state(&self) -> (r: &Medium)
        ensures
            r@ == self.state@,
    {
        &self.state
    }

    /// Takes a new examination. Returns the new state only when it changed.
    pub fn poll(&mut self, next: Medium) -> (r: Option<&Medium>)
        ensures
            final(self).mount_point@ == old(self).mount_point@,
            final(self).state@ == next@,
            r is Some <==> next@ != old(self).state@,
            r matches Some(m) ==> m@ == next@,
    {
        if next.same(&self.state) {
            return None;
        }
        self.state = next;
        Some(&self.state)
    }
}

/// Only what is mounted is a medium: a directory whose device is not that of
/// the directory above it. One that merely exists is not.
pub proof fn law_only_a_mount_is_a_medium(here: Stat, above: Option<Stat>, volume: VolumeView)
    ensures
        examined(mounted(here, above), volume) != MediumView::Absent <==> (here matches Stat::Found {
            is_dir: true,
            dev,
        } && above matches Some(Stat::Found { dev: over, .. }) && dev != over),
{
}

/// A volume is called what the first link to its device is called, and has no
/// name where no link leads to it.
pub proof fn law_a_volume_is_called_by_its_link(dev: u64, farm: Seq<(Seq<u8>, Option<u64>)>, i: int)
    ensures
        0 <= i < farm.len() && farm[i].1 == Some(dev) && (forall|j: int|
            0 <= j < i ==> (#[trigger] farm[j]).1 != Some(dev)) ==> named(Some(dev), farm) == Some(
            text_of(farm[i].0),
        ),
        (forall|j: int| 0 <= j < farm.len() ==> (#[trigger] farm[j]).1 != Some(dev)) ==> named(
            Some(dev),
            farm,
        ) is None,
        named(None, farm) is None,
    decreases farm.len(),
{
    if farm.len() > 0 && farm[0].1 != Some(dev) {
        let rest = farm.skip(1);
        law_a_volume_is_called_by_its_link(dev, rest, i - 1);
        assert forall|j: int| 0 <= j < rest.len() implies (#[trigger] rest[j]) == farm[j + 1] by {}
        if 0 <= i < farm.len() && farm[i].1 == Some(dev) && (forall|j: int|
            0 <= j < i ==> (#[trigger] farm[j]).1 != Some(dev)) {
            assert(rest[i - 1] == farm[i]);
            assert forall|j: int| 0 <= j < i - 1 implies (#[trigger] rest[j]).1 != Some(dev) by {
                assert(rest[j] == farm[j + 1]);
            }
        }
        if forall|j: int| 0 <= j < farm.len() ==> (#[trigger] farm[j]).1 != Some(dev) {
            assert forall|j: int| 0 <= j < rest.len() implies (#[trigger] rest[j]).1 != Some(
                dev,
            ) by {
                assert(rest[j] == farm[j + 1]);
            }
        }
    }
}

/// A medium that is there is what was found on it: the volume with its name
/// where it could be listed, and the reason where it could not.
pub proof fn law_a_medium_is_what_was_found_on_it(volume: VolumeView)
    ensures
        volume matches VolumeView::Listed { uuid } ==> examined(
            Ok::<bool, StatFailed>(true),
            volume,
        ) == (MediumView::Browsable { uuid }),
        volume matches VolumeView::Refused { reason } ==> examined(
            Ok::<bool, StatFailed>(true),
            volume,
        ) == (MediumView::Unreadable { reason }),
        examined(Ok::<bool, StatFailed>(false), volume) == MediumView::Absent,
        examined(Err::<bool, StatFailed>(StatFailed {  }), volume) == MediumView::Absent,
{
}

/// What is said of a medium tells what it is: one that is absent, one that
/// cannot be read, and one that can be browsed never read the same.
pub proof fn law_the_media_read_apart(a: MediumView, b: MediumView)
    ensures
        a is Absent && !(b is Absent) ==> Medium::text(a) != Medium::text(b),
        a is Unreadable && !(b is Unreadable) ==> Medium::text(a) != Medium::text(b),
        a is Browsable && !(b is Browsable) ==> Medium::text(a) != Medium::text(b),
        a matches MediumView::Unreadable { reason } ==> Medium::text(a).skip(12) == reason,
        a matches MediumView::Browsable { uuid: Some(u) } ==> Medium::text(a).skip(18) == u,
{
    reveal_strlit("no medium");
    reveal_strlit("unreadable: ");
    reveal_strlit("browsable, volume ");
    reveal_strlit("browsable, no volume UUID — cues cannot be saved");
    let (x, y) = (Medium::text(a), Medium::text(b));
    if a is Absent {
        assert(x[0] == 'n');
    }
    if b is Absent {
        assert(y[0] == 'n');
    }
    if a is Unreadable {
        assert(x[0] == 'u');
        assert(x.skip(12) =~= a->reason);
    }
    if b is Unreadable {
        assert(y[0] == 'u');
    }
    if a is Browsable {
        assert(x[0] == 'b');
        if a->uuid is Some {
            assert(x.skip(18) =~= a->uuid->0);
        }
    }
    if b is Browsable {
        assert(y[0] == 'b');
    }
}

} // verus!
