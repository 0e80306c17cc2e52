//! The cue store, the only state the deck persists.
//!
//! Cues are keyed by the volume and the file's path relative to the mount
//! point. One cue point per track, in frames, and frame zero until set: a cue
//! deliberately set at frame zero is indistinguishable from an unset one, so
//! zeros are not stored.
//!
//! The file is one line per cue, a frame, a tab and a path. A filename can
//! contain a newline, so paths are escaped on the way out and unescaped on the
//! way in; and a filename is bytes, so the key is the raw bytes and two broken
//! names never collide on one cue.

use vstd::prelude::*;

use crate::path::{absolute, is_absolute, join, joined, plain, relative_to, strip_prefix};
use crate::text::{
    chars_of, code_of, copied, digits, is_digit, lemma_digits, number_in, parse_number, push_digits,
    quote, quoted, same_bytes, text_lossy, text_of,
};

verus! {

/// The line that makes a stray file recognisable:
/// `# deck-pi cues v1 — frame<TAB>path, path backslash-escaped`.
pub const HEADER: [u8; 60] = [
    35, 32, 100, 101, 99, 107, 45, 112, 105, 32, 99, 117, 101, 115, 32, 118, 49, 32, 226,
    128, 148, 32, 102, 114, 97, 109, 101, 60, 84, 65, 66, 62, 112, 97, 116, 104, 44, 32,
    112, 97, 116, 104, 32, 98, 97, 99, 107, 115, 108, 97, 115, 104, 45, 101, 115, 99, 97,
    112, 101, 100,
];

#[derive(Debug)]
pub enum CueError {
    /// The volume cannot be used as a filename.
    ///
    /// Refused rather than sanitised: mangling two different volume names
    /// into one filename would merge their cues.
    BadVolume { volume: String, reason: &'static str },
    /// A path that is not under the medium, so it has no key.
    OutsideMedium { path: Vec<u8> },
    /// The file could not be read or written.
    Io { path: Vec<u8>, error: String },
}

impl CueError {
    pub open spec fn text(self) -> Seq<char> {
        match self {
            CueError::BadVolume { volume, reason } => "volume "@ + quoted(volume@)
                + " cannot name a cue file: "@ + reason@,
            CueError::OutsideMedium { path } => text_of(path@) + " is not on the medium"@,
            CueError::Io { path, error } => text_of(path@) + ": "@ + error@,
        }
    }

    pub fn to_text(&self) -> (r: String)
        ensures
            r@ == self.text(),
    {
        let mut out: String = String::new();
        match self {
            CueError::BadVolume { volume, reason } => {
                out.append("volume ");
                let named: String = quote(volume.as_str());
                out.append(named.as_str());
                out.append(" cannot name a cue file: ");
                out.append(reason);
            },
            CueError::OutsideMedium { path } => {
                let shown: String = text_lossy(path.as_slice());
                out.append(shown.as_str());
                out.append(" is not on the medium");
            },
            CueError::Io { path, error } => {
                let shown: String = text_lossy(path.as_slice());
                out.append(shown.as_str());
                out.append(": ");
                out.append(error.as_str());
            },
        }
        assert(out@ =~= self.text());
        out
    }
}

/// What came of reading a cue file.
#[derive(Debug)]
pub enum CueFile {
    Read(Vec<u8>),
    /// There is none: the first time this stick has been used.
    Missing,
    Failed(String),
}

/// Where the deck keeps its own state, given `$XDG_STATE_HOME` and `$HOME`.
pub open spec fn state_dir(xdg: Option<Seq<u8>>, home: Option<Seq<u8>>) -> Option<Seq<u8>> {
    if xdg is Some && xdg->0.len() > 0 {
        Some(joined(xdg->0, DECK_DIR@))
    } else if home is Some {
        Some(joined(home->0, LOCAL_STATE_DIR@))
    } else {
        None
    }
}

/// `deck-pi`.
pub const DECK_DIR: [u8; 7] = [100, 101, 99, 107, 45, 112, 105];

/// `.local/state/deck-pi`.
pub const LOCAL_STATE_DIR: [u8; 20] = [
    46, 108, 111, 99, 97, 108, 47, 115, 116, 97, 116, 101, 47, 100, 101, 99, 107, 45, 112, 105,
];

/// An optional run of bytes as an optional sequence.
pub open spec fn opt_bytes(b: Option<Vec<u8>>) -> Option<Seq<u8>> {
    match b {
        Some(b) => Some(b@),
        None => None,
    }
}

/// Where the deck keeps its own state: `$XDG_STATE_HOME/deck-pi`, else
/// `$HOME/.local/state/deck-pi`.
pub fn default_state_dir(xdg: Option<Vec<u8>>, home: Option<Vec<u8>>) -> (r: Option<Vec<u8>>)
    ensures
        opt_bytes(r) == state_dir(opt_bytes(xdg), opt_bytes(home)),
{
    if let Some(x) = &xdg {
        if x.len() > 0 {
            return Some(join(x.as_slice(), &DECK_DIR));
        }
    }
    match &home {
        Some(h) => Some(join(h.as_slice(), &LOCAL_STATE_DIR)),
        None => None,
    }
}

// Escaping.

/// A hexadecimal digit, in lower case.
pub open spec fn hex(n: int) -> u8 {
    if n < 10 {
        (48 + n) as u8
    } else {
        (87 + n) as u8
    }
}

/// One byte as it is written. Multi-byte UTF-8 passes through untouched, so a
/// Japanese filename stays readable; only what would break the format, or what
/// no terminal renders, is escaped.
pub open spec fn escaped_byte(b: u8) -> Seq<u8> {
    if b == 92 {
        seq![92u8, 92u8]
    } else if b == 10 {
        seq![92u8, 110u8]
    } else if b == 13 {
        seq![92u8, 114u8]
    } else if b == 9 {
        seq![92u8, 116u8]
    } else if b < 32 || b == 127 {
        seq![92u8, 120u8, hex(b as int / 16), hex(b as int % 16)]
    } else {
        seq![b]
    }
}

pub open spec fn escaped(bytes: Seq<u8>) -> Seq<u8>
    decreases bytes.len(),
{
    if bytes.len() == 0 {
        Seq::empty()
    } else {
        escaped_byte(bytes[0]) + escaped(bytes.skip(1))
    }
}

/// The value of a hexadecimal digit of either case.
pub open spec fn hex_value(b: u8) -> Option<u8> {
    if 48 <= b <= 57 {
        Some((b - 48) as u8)
    } else if 97 <= b <= 102 {
        Some((b - 87) as u8)
    } else if 65 <= b <= 70 {
        Some((b - 55) as u8)
    } else {
        None
    }
}

/// What two bytes mean after `\\x`: two hex digits, or nothing.
pub open spec fn hex_pair(a: u8, b: u8) -> Option<u8> {
    match (hex_value(a), hex_value(b)) {
        (Some(high), Some(low)) => Some((16 * high + low) as u8),
        _ => None,
    }
}

/// The byte at the front of escaped text, and how much of the text it takes. An
/// unrecognised escape is kept as the backslash it starts with.
pub open spec fn front(e: Seq<u8>) -> (u8, int) {
    if e[0] != 92 {
        (e[0], 1)
    } else if e.len() > 1 && e[1] == 92 {
        (92, 2)
    } else if e.len() > 1 && e[1] == 110 {
        (10, 2)
    } else if e.len() > 1 && e[1] == 114 {
        (13, 2)
    } else if e.len() > 1 && e[1] == 116 {
        (9, 2)
    } else if e.len() > 3 && e[1] == 120 && hex_pair(e[2], e[3]) is Some {
        (hex_pair(e[2], e[3])->0, 4)
    } else {
        (92, 1)
    }
}

pub open spec fn unescaped(e: Seq<u8>) -> Seq<u8>
    decreases e.len(),
{
    if e.len() == 0 {
        Seq::empty()
    } else {
        seq![front(e).0] + unescaped(e.skip(front(e).1))
    }
}

fn hex_digit(n: u8) -> (r: u8)
    requires
        n < 16,
    ensures
        r == hex(n as int),
{
    if n < 10 {
        48 + n
    } else {
        87 + n
    }
}

/// Escapes a path's bytes so it survives one line of a text file.
pub fn escape(bytes: &[u8]) -> (r: Vec<u8>)
    ensures
        r@ == escaped(bytes@),
{
    let mut out: Vec<u8> = Vec::new();
    let mut i: usize = 0;
    assert(bytes@.skip(0) =~= bytes@);
    while i < bytes.len()
        invariant
            i <= bytes@.len(),
            escaped(bytes@) == out@ + escaped(bytes@.skip(i as int)),
        decreases bytes@.len() - i,
    {
        let b: u8 = bytes[i];
        let ghost before = out@;
        if b == 92 {
            out.push(92);
            out.push(92);
        } else if b == 10 {
            out.push(92);
            out.push(110);
        } else if b == 13 {
            out.push(92);
            out.push(114);
        } else if b == 9 {
            out.push(92);
            out.push(116);
        } else if b < 32 || b == 127 {
            out.push(92);
            out.push(120);
            out.push(hex_digit(b / 16));
            out.push(hex_digit(b % 16));
        } else {
            out.push(b);
        }
        proof {
            assert(out@ =~= before + escaped_byte(b));
            assert(bytes@.skip(i as int).skip(1) =~= bytes@.skip(i + 1));
            assert(out@ + escaped(bytes@.skip(i + 1)) =~= before + (escaped_byte(b) + escaped(
                bytes@.skip(i + 1),
            )));
        }
        i = i + 1;
    }
    assert(out@ =~= escaped(bytes@));
    out
}

fn hex_digit_value(b: u8) -> (r: Option<u8>)
    ensures
        r == hex_value(b),
        r matches Some(v) ==> v < 16,
{
    if 48 <= b && b <= 57 {
        Some(b - 48)
    } else if 97 <= b && b <= 102 {
        Some(b - 87)
    } else if 65 <= b && b <= 70 {
        Some(b - 55)
    } else {
        None
    }
}

fn hex_pair_value(a: u8, b: u8) -> (r: Option<u8>)
    ensures
        r == hex_pair(a, b),
{
    let high: u8 = hex_digit_value(a)?;
    let low: u8 = hex_digit_value(b)?;
    Some(16 * high + low)
}

/// The inverse of [`escape`]. An unrecognised escape is kept verbatim rather
/// than dropped, so a hand-edited file degrades into a wrong name rather than
/// a missing one.
pub fn unescape(bytes: &[u8]) -> (r: Vec<u8>)
    ensures
        r@ == unescaped(bytes@),
{
    let mut out: Vec<u8> = Vec::new();
    let mut i: usize = 0;
    assert(bytes@.skip(0) =~= bytes@);
    while i < bytes.len()
        invariant
            i <= bytes@.len(),
            unescaped(bytes@) == out@ + unescaped(bytes@.skip(i as int)),
        decreases bytes@.len() - i,
    {
        let ghost e = bytes@.skip(i as int);
        let ghost before = out@;
        let left: usize = bytes.len() - i;
        let mut b: u8 = bytes[i];
        let mut taken: usize = 1;
        if b == 92 && left > 1 {
            let next: u8 = bytes[i + 1];
            if next == 92 {
                taken = 2;
            } else if next == 110 {
                b = 10;
                taken = 2;
            } else if next == 114 {
                b = 13;
                taken = 2;
            } else if next == 116 {
                b = 9;
                taken = 2;
            } else if next == 120 && left > 3 {
                if let Some(v) = hex_pair_value(bytes[i + 2], bytes[i + 3]) {
                    b = v;
                    taken = 4;
                }
            }
        }
        out.push(b);
        proof {
            assert(front(e) == (b, taken as int));
            assert(e.skip(taken as int) =~= bytes@.skip(i + taken));
            assert(out@ + unescaped(bytes@.skip(i + taken)) =~= before + (seq![b] + unescaped(
                bytes@.skip(i + taken),
            )));
        }
        i = i + taken;
    }
    assert(out@ =~= unescaped(bytes@));
    out
}

proof fn lemma_front_of_escaped(b: u8, rest: Seq<u8>)
    ensures
        front(escaped_byte(b) + rest) == (b, escaped_byte(b).len() as int),
        (escaped_byte(b) + rest).skip(escaped_byte(b).len() as int) == rest,
{
    let e = escaped_byte(b) + rest;
    assert(e.skip(escaped_byte(b).len() as int) =~= rest);
    if (b < 32 || b == 127) && b != 10 && b != 13 && b != 9 {
        let h = b as int / 16;
        let l = b as int % 16;
        assert(hex_value(hex(h)) == Some(h as u8));
        assert(hex_value(hex(l)) == Some(l as u8));
        assert(hex(h) != 43);
        assert(e[2] == hex(h) && e[3] == hex(l));
    }
}

/// Escaping round trips: whatever bytes a name is made of, its escaped form
/// reads back as that name.
pub proof fn law_escaping_round_trips(bytes: Seq<u8>)
    ensures
        unescaped(escaped(bytes)) == bytes,
    decreases bytes.len(),
{
    if bytes.len() > 0 {
        law_escaping_round_trips(bytes.skip(1));
        lemma_front_of_escaped(bytes[0], escaped(bytes.skip(1)));
        assert(seq![bytes[0]] + bytes.skip(1) =~= bytes);
    }
}

/// An escaped name holds no control character, so it holds no newline and no
/// tab: it stays on its line and in its column.
pub proof fn law_escaped_names_hold_no_control_characters(bytes: Seq<u8>)
    ensures
        forall|i: int|
            0 <= i < escaped(bytes).len() ==> #[trigger] escaped(bytes)[i] >= 32
                && escaped(bytes)[i] != 127,
    decreases bytes.len(),
{
    if bytes.len() > 0 {
        law_escaped_names_hold_no_control_characters(bytes.skip(1));
        let head = escaped_byte(bytes[0]);
        let tail = escaped(bytes.skip(1));
        assert forall|i: int| 0 <= i < escaped(bytes).len() implies #[trigger] escaped(bytes)[i]
            >= 32 && escaped(bytes)[i] != 127 by {
            if i >= head.len() {
                assert(escaped(bytes)[i] == tail[i - head.len()]);
            }
        }
    }
}

/// Two different names never share an escaped form.
pub proof fn law_escaped_names_do_not_collide(a: Seq<u8>, b: Seq<u8>)
    requires
        escaped(a) == escaped(b),
    ensures
        a == b,
{
    law_escaping_round_trips(a);
    law_escaping_round_trips(b);
}

// The cues of one volume, in memory.

/// One cue: the path relative to the mount point, as raw bytes, and the frame.
#[derive(Debug)]
pub struct Cue {
    pub path: Vec<u8>,
    pub frame: u64,
}

/// Byte order, the shorter first where one starts the other.
pub open spec fn before(a: Seq<u8>, b: Seq<u8>) -> bool
    decreases a.len(),
{
    if b.len() == 0 {
        false
    } else if a.len() == 0 {
        true
    } else if a[0] != b[0] {
        a[0] < b[0]
    } else {
        before(a.skip(1), b.skip(1))
    }
}

pub(crate) proof fn lemma_before_irreflexive(a: Seq<u8>)
    ensures
        !before(a, a),
    decreases a.len(),
{
    if a.len() > 0 {
        lemma_before_irreflexive(a.skip(1));
    }
}

pub(crate) proof fn lemma_before_transitive(a: Seq<u8>, b: Seq<u8>, c: Seq<u8>)
    requires
        before(a, b),
        before(b, c),
    ensures
        before(a, c),
    decreases a.len(),
{
    if a.len() > 0 && b.len() > 0 && c.len() > 0 && a[0] == b[0] && b[0] == c[0] {
        lemma_before_transitive(a.skip(1), b.skip(1), c.skip(1));
    }
}

pub(crate) proof fn lemma_before_total(a: Seq<u8>, b: Seq<u8>)
    ensures
        before(a, b) || before(b, a) || a == b,
    decreases a.len(),
{
    if a.len() > 0 && b.len() > 0 && a[0] == b[0] {
        lemma_before_total(a.skip(1), b.skip(1));
        if a.skip(1) == b.skip(1) {
            assert(seq![a[0]] + a.skip(1) =~= a);
            assert(seq![b[0]] + b.skip(1) =~= b);
        }
    } else if a.len() == 0 && b.len() == 0 {
        assert(a =~= b);
    }
}

pub(crate) fn comes_before(a: &[u8], b: &[u8]) -> (r: bool)
    ensures
        r == before(a@, b@),
{
    let mut i: usize = 0;
    assert(a@.skip(0) =~= a@);
    assert(b@.skip(0) =~= b@);
    while i < a.len() && i < b.len() && a[i] == b[i]
        invariant
            i <= a@.len(),
            i <= b@.len(),
            before(a@, b@) == before(a@.skip(i as int), b@.skip(i as int)),
        decreases a@.len() - i,
    {
        assert(a@.skip(i as int).skip(1) =~= a@.skip(i + 1));
        assert(b@.skip(i as int).skip(1) =~= b@.skip(i + 1));
        i = i + 1;
    }
    if i == b.len() {
        false
    } else if i == a.len() {
        true
    } else {
        a[i] < b[i]
    }
}

/// A cue as a mathematical pair.
pub open spec fn entries_of(cues: Seq<Cue>) -> Seq<(Seq<u8>, u64)> {
    Seq::new(cues.len(), |i: int| (cues[i].path@, cues[i].frame))
}

/// Each path once, in byte order, and no cue at frame zero.
pub open spec fn in_order(es: Seq<(Seq<u8>, u64)>) -> bool {
    &&& forall|i: int, j: int|
        0 <= i < j < es.len() ==> before((#[trigger] es[i]).0, (#[trigger] es[j]).0)
    &&& forall|i: int| 0 <= i < es.len() ==> (#[trigger] es[i]).1 != 0
}

/// The map with these entries added one after another.
pub open spec fn with_all(m: Map<Seq<u8>, u64>, es: Seq<(Seq<u8>, u64)>) -> Map<Seq<u8>, u64>
    decreases es.len(),
{
    if es.len() == 0 {
        m
    } else {
        with_all(m.insert(es[0].0, es[0].1), es.skip(1))
    }
}

/// The cues as a map from path to frame.
pub open spec fn map_of(es: Seq<(Seq<u8>, u64)>) -> Map<Seq<u8>, u64> {
    with_all(Map::empty(), es)
}

pub open spec fn holds_key(es: Seq<(Seq<u8>, u64)>, k: Seq<u8>) -> bool {
    exists|i: int| 0 <= i < es.len() && (#[trigger] es[i]).0 == k
}

proof fn lemma_with_all(m: Map<Seq<u8>, u64>, es: Seq<(Seq<u8>, u64)>)
    requires
        in_order(es),
    ensures
        forall|k: Seq<u8>| #[trigger]
            with_all(m, es).dom().contains(k) <==> m.dom().contains(k) || holds_key(es, k),
        forall|i: int| 0 <= i < es.len() ==> with_all(m, es)[(#[trigger] es[i]).0] == es[i].1,
        forall|k: Seq<u8>|
            !holds_key(es, k) && m.dom().contains(k) ==> #[trigger] with_all(m, es)[k] == m[k],
    decreases es.len(),
{
    if es.len() > 0 {
        let m1 = m.insert(es[0].0, es[0].1);
        let rest = es.skip(1);
        assert(in_order(rest)) by {
            assert forall|i: int, j: int| 0 <= i < j < rest.len() implies before(
                (#[trigger] rest[i]).0,
                (#[trigger] rest[j]).0,
            ) by {
                assert(rest[i] == es[i + 1] && rest[j] == es[j + 1]);
            }
            assert forall|i: int| 0 <= i < rest.len() implies (#[trigger] rest[i]).1 != 0 by {
                assert(rest[i] == es[i + 1]);
            }
        }
        lemma_with_all(m1, rest);
        let all = with_all(m, es);
        assert(all == with_all(m1, rest));
        assert forall|k: Seq<u8>| #[trigger] holds_key(es, k) <==> k == es[0].0 || holds_key(
            rest,
            k,
        ) by {
            if holds_key(es, k) {
                let i = choose|i: int| 0 <= i < es.len() && (#[trigger] es[i]).0 == k;
                if i > 0 {
                    assert(rest[i - 1].0 == k);
                }
            }
            if holds_key(rest, k) {
                let i = choose|i: int| 0 <= i < rest.len() && (#[trigger] rest[i]).0 == k;
                assert(es[i + 1].0 == k);
            }
            assert(es[0].0 == es[0].0);
        }
        assert(!holds_key(rest, es[0].0)) by {
            if holds_key(rest, es[0].0) {
                let i = choose|i: int| 0 <= i < rest.len() && (#[trigger] rest[i]).0 == es[0].0;
                assert(before(es[0].0, es[i + 1].0));
                lemma_before_irreflexive(es[0].0);
            }
        }
        assert forall|k: Seq<u8>| #[trigger] all.dom().contains(k) <==> m.dom().contains(k)
            || holds_key(es, k) by {
            assert(all.dom().contains(k) <==> m1.dom().contains(k) || holds_key(rest, k));
            assert(holds_key(es, k) <==> k == es[0].0 || holds_key(rest, k));
        }
        assert forall|i: int| 0 <= i < es.len() implies all[(#[trigger] es[i]).0] == es[i].1 by {
            if i > 0 {
                assert(rest[i - 1] == es[i]);
                assert(with_all(m1, rest)[rest[i - 1].0] == rest[i - 1].1);
            } else {
                assert(m1.dom().contains(es[0].0));
                assert(with_all(m1, rest)[es[0].0] == m1[es[0].0]);
            }
        }
        assert forall|k: Seq<u8>| !holds_key(es, k) && m.dom().contains(k) implies #[trigger] all[k]
            == m[k] by {
            assert(holds_key(es, k) <==> k == es[0].0 || holds_key(rest, k));
            assert(m1.dom().contains(k));
            assert(with_all(m1, rest)[k] == m1[k]);
        }
    }
}

proof fn lemma_map_of(es: Seq<(Seq<u8>, u64)>)
    requires
        in_order(es),
    ensures
        forall|k: Seq<u8>| #[trigger] map_of(es).dom().contains(k) <==> holds_key(es, k),
        forall|i: int| 0 <= i < es.len() ==> map_of(es)[(#[trigger] es[i]).0] == es[i].1,
{
    lemma_with_all(Map::empty(), es);
}

/// As many keys as entries.
proof fn lemma_map_of_len(m: Map<Seq<u8>, u64>, es: Seq<(Seq<u8>, u64)>)
    requires
        in_order(es),
        m.dom().finite(),
        forall|i: int| 0 <= i < es.len() ==> !m.dom().contains((#[trigger] es[i]).0),
    ensures
        with_all(m, es).dom().finite(),
        with_all(m, es).dom().len() == m.dom().len() + es.len(),
    decreases es.len(),
{
    if es.len() > 0 {
        let m1 = m.insert(es[0].0, es[0].1);
        let rest = es.skip(1);
        assert forall|i: int, j: int| 0 <= i < j < rest.len() implies before(
            (#[trigger] rest[i]).0,
            (#[trigger] rest[j]).0,
        ) by {
            assert(rest[i] == es[i + 1] && rest[j] == es[j + 1]);
        }
        assert forall|i: int| 0 <= i < rest.len() implies (#[trigger] rest[i]).1 != 0
            && !m1.dom().contains(rest[i].0) by {
            assert(rest[i] == es[i + 1]);
            assert(before(es[0].0, es[i + 1].0));
            lemma_before_irreflexive(es[0].0);
        }
        assert(m1.dom() =~= m.dom().insert(es[0].0));
        lemma_map_of_len(m1, rest);
    }
}

/// Where a key stands, or would stand, among entries in order.
fn find(cues: &Vec<Cue>, key: &[u8]) -> (r: (usize, bool))
    requires
        in_order(entries_of(cues@)),
    ensures
        r.0 <= cues@.len(),
        forall|i: int| 0 <= i < r.0 ==> before((#[trigger] cues@[i]).path@, key@),
        r.1 ==> r.0 < cues@.len() && cues@[r.0 as int].path@ == key@,
        !r.1 ==> forall|i: int|
            r.0 <= i < cues@.len() ==> before(key@, (#[trigger] cues@[i]).path@),
        r.1 == holds_key(entries_of(cues@), key@),
{
    let mut i: usize = 0;
    while i < cues.len() && comes_before(cues[i].path.as_slice(), key)
        invariant
            i <= cues@.len(),
            forall|k: int| 0 <= k < i ==> before((#[trigger] cues@[k]).path@, key@),
        decreases cues@.len() - i,
    {
        i = i + 1;
    }
    let found: bool = i < cues.len() && same_bytes(cues[i].path.as_slice(), key);
    let ghost es = entries_of(cues@);
    proof {
        if found {
            assert(es[i as int].0 == key@);
        } else {
            assert forall|k: int| i <= k < cues@.len() implies before(
                key@,
                (#[trigger] cues@[k]).path@,
            ) by {
                lemma_before_total(key@, cues@[i as int].path@);
                if k > i {
                    assert(before(es[i as int].0, es[k].0));
                    lemma_before_transitive(key@, es[i as int].0, es[k].0);
                }
            }
            if holds_key(es, key@) {
                let k = choose|k: int| 0 <= k < es.len() && (#[trigger] es[k]).0 == key@;
                lemma_before_irreflexive(key@);
                assert(cues@[k].path@ == key@);
            }
        }
    }
    (i, found)
}

/// Records a cue, or forgets it where the frame is zero.
pub open spec fn with_cue(m: Map<Seq<u8>, u64>, key: Seq<u8>, frame: u64) -> Map<Seq<u8>, u64> {
    if frame == 0 {
        m.remove(key)
    } else {
        m.insert(key, frame)
    }
}

fn put(cues: &mut Vec<Cue>, key: Vec<u8>, frame: u64)
    requires
        in_order(entries_of(old(cues)@)),
    ensures
        in_order(entries_of(final(cues)@)),
        map_of(entries_of(final(cues)@)) == with_cue(
            map_of(entries_of(old(cues)@)),
            key@,
            frame,
        ),
{
    let ghost es = entries_of(cues@);
    let ghost k = key@;
    let (at, found) = find(cues, key.as_slice());
    proof {
        lemma_map_of(es);
        assert forall|i: int| 0 <= i < es.len() implies (#[trigger] es[i]).0 == cues@[i].path@ by {}
    }
    if frame == 0 {
        if found {
            cues.remove(at);
        }
        proof {
            let now = entries_of(cues@);
            if found {
                assert(now =~= es.remove(at as int));
            } else {
                assert(now =~= es);
            }
            assert(in_order(now));
            lemma_map_of(now);
            lemma_before_irreflexive(k);
            let want = with_cue(map_of(es), k, frame);
            assert forall|q: Seq<u8>| #[trigger] map_of(now).dom().contains(q) <==> want.dom().contains(
                q,
            ) by {
                if holds_key(now, q) {
                    let i = choose|i: int| 0 <= i < now.len() && (#[trigger] now[i]).0 == q;
                    let o = if found && i >= at {
                        i + 1
                    } else {
                        i
                    };
                    assert(es[o].0 == q);
                    if found {
                        if o < at {
                            assert(before(es[o].0, es[at as int].0));
                        } else {
                            assert(before(es[at as int].0, es[o].0));
                        }
                    }
                }
                if want.dom().contains(q) {
                    let o = choose|o: int| 0 <= o < es.len() && (#[trigger] es[o]).0 == q;
                    if found {
                        assert(o != at);
                        assert(now[if o > at { o - 1 } else { o }].0 == q);
                    } else {
                        assert(now[o].0 == q);
                    }
                }
            }
            assert forall|q: Seq<u8>| #[trigger] map_of(now).dom().contains(q) implies map_of(now)[q]
                == want[q] by {
                let i = choose|i: int| 0 <= i < now.len() && (#[trigger] now[i]).0 == q;
                let o = if found && i >= at {
                    i + 1
                } else {
                    i
                };
                assert(es[o] == now[i]);
            }
            assert(map_of(now) =~= want);
        }
    } else {
        let new = Cue { path: key, frame };
        if found {
            cues.set(at, new);
        } else {
            cues.insert(at, new);
        }
        proof {
            let now = entries_of(cues@);
            if found {
                assert(now =~= es.update(at as int, (k, frame)));
            } else {
                assert(now =~= es.insert(at as int, (k, frame)));
            }
            assert(in_order(now)) by {
                assert forall|i: int, j: int| 0 <= i < j < now.len() implies before(
                    (#[trigger] now[i]).0,
                    (#[trigger] now[j]).0,
                ) by {
                    if found {
                        assert(before(es[i].0, es[j].0));
                    } else {
                        if i < at && j > at {
                            assert(before(es[i].0, es[j - 1].0));
                        } else if j < at {
                            assert(before(es[i].0, es[j].0));
                        } else if i > at {
                            assert(before(es[i - 1].0, es[j - 1].0));
                        } else if i == at {
                            assert(es[j - 1].0 == old(cues)@[j - 1].path@);
                        } else {
                            assert(es[i].0 == old(cues)@[i].path@);
                        }
                    }
                }
            }
            lemma_map_of(now);
            let want = with_cue(map_of(es), k, frame);
            assert(now[at as int] == (k, frame));
            assert forall|q: Seq<u8>| #[trigger] map_of(now).dom().contains(q) <==> want.dom().contains(
                q,
            ) by {
                if holds_key(now, q) && q != k {
                    let i = choose|i: int| 0 <= i < now.len() && (#[trigger] now[i]).0 == q;
                    let o = if !found && i > at {
                        i - 1
                    } else {
                        i
                    };
                    assert(es[o].0 == q);
                }
                if want.dom().contains(q) && q != k {
                    let o = choose|o: int| 0 <= o < es.len() && (#[trigger] es[o]).0 == q;
                    assert(now[if !found && o >= at { o + 1 } else { o }].0 == q);
                }
            }
            assert forall|q: Seq<u8>| #[trigger] map_of(now).dom().contains(q) implies map_of(now)[q]
                == want[q] by {
                let i = choose|i: int| 0 <= i < now.len() && (#[trigger] now[i]).0 == q;
                if q != k {
                    let o = if !found && i > at {
                        i - 1
                    } else {
                        i
                    };
                    assert(es[o] == now[i]);
                } else {
                    assert(map_of(now)[now[at as int].0] == frame);
                }
            }
            assert(map_of(now) =~= want);
        }
    }
}

// The file.

/// Where the line that starts at `i` ends.
pub open spec fn line_end(b: Seq<u8>, i: int) -> int
    decreases b.len() - i,
{
    if i >= b.len() || b[i] == 10 {
        i
    } else {
        line_end(b, i + 1)
    }
}

/// Where the first tab at or after `i` is, or the length where there is none.
pub open spec fn tab_at(b: Seq<u8>, i: int) -> int
    decreases b.len() - i,
{
    if i >= b.len() || b[i] == 9 {
        i
    } else {
        tab_at(b, i + 1)
    }
}

/// The cue a line records, if it records one: not a blank line, a comment, a
/// line without a tab, one whose frame is no number, nor one at frame zero.
pub open spec fn entry_of(line: Seq<u8>) -> Option<(Seq<u8>, u64)> {
    let tab = tab_at(line, 0);
    if line.len() == 0 || line[0] == 35 || tab >= line.len() {
        None
    } else {
        match number_in(line.take(tab), u64::MAX as nat) {
            None => None,
            Some(frame) => if frame == 0 {
                None
            } else {
                Some((unescaped(line.skip(tab + 1)), frame as u64))
            },
        }
    }
}

pub open spec fn with_line(m: Map<Seq<u8>, u64>, line: Seq<u8>) -> Map<Seq<u8>, u64> {
    match entry_of(line) {
        Some(e) => m.insert(e.0, e.1),
        None => m,
    }
}

/// The cues of a file's lines, added to `m` in the order they stand: of two
/// lines for one path, the later holds.
pub open spec fn cues_in(bytes: Seq<u8>, m: Map<Seq<u8>, u64>) -> Map<Seq<u8>, u64>
    decreases bytes.len(),
{
    proof {
        lemma_line_end(bytes, 0);
    }
    let end = line_end(bytes, 0);
    if end >= bytes.len() {
        with_line(m, bytes.take(end))
    } else {
        cues_in(bytes.skip(end + 1), with_line(m, bytes.take(end)))
    }
}

pub proof fn lemma_line_end(b: Seq<u8>, i: int)
    requires
        0 <= i <= b.len(),
    ensures
        i <= line_end(b, i) <= b.len(),
    decreases b.len() - i,
{
    if i < b.len() && b[i] != 10 {
        lemma_line_end(b, i + 1);
    }
}

fn parse_line(line: &[u8]) -> (r: Option<Cue>)
    ensures
        r matches Some(c) ==> entry_of(line@) == Some((c.path@, c.frame)) && c.frame != 0,
        r is None ==> entry_of(line@) is None,
{
    if line.len() == 0 || line[0] == 35 {
        return None;
    }
    let mut tab: usize = 0;
    while tab < line.len() && line[tab] != 9
        invariant
            tab <= line@.len(),
            tab_at(line@, 0) == tab_at(line@, tab as int),
        decreases line@.len() - tab,
    {
        tab = tab + 1;
    }
    if tab == line.len() {
        return None;
    }
    let number = vstd::slice::slice_subrange(line, 0, tab);
    assert(number@ =~= line@.take(tab as int));
    let frame: u64 = parse_number(number, u64::MAX)?;
    if frame == 0 {
        return None;
    }
    let name = vstd::slice::slice_subrange(line, tab + 1, line.len());
    assert(name@ =~= line@.skip(tab + 1));
    Some(Cue { path: unescape(name), frame })
}

/// Reads a file's bytes. What cannot be parsed is skipped: refusing to browse
/// because one line is mangled would be a worse failure than losing that cue.
fn parse(bytes: &[u8]) -> (r: Vec<Cue>)
    ensures
        in_order(entries_of(r@)),
        map_of(entries_of(r@)) == cues_in(bytes@, Map::empty()),
{
    let mut cues: Vec<Cue> = Vec::new();
    let mut from: usize = 0;
    proof {
        assert(entries_of(cues@) =~= Seq::empty());
        assert(bytes@.skip(0) =~= bytes@);
    }
    loop
        invariant
            from <= bytes@.len(),
            in_order(entries_of(cues@)),
            cues_in(bytes@, Map::empty()) == cues_in(
                bytes@.skip(from as int),
                map_of(entries_of(cues@)),
            ),
        decreases bytes@.len() - from,
    {
        let ghost rest = bytes@.skip(from as int);
        let mut end: usize = from;
        while end < bytes.len() && bytes[end] != 10
            invariant
                from <= end <= bytes@.len(),
                rest == bytes@.skip(from as int),
                line_end(rest, 0) == line_end(rest, end - from),
            decreases bytes@.len() - end,
        {
            end = end + 1;
        }
        let line = vstd::slice::slice_subrange(bytes, from, end);
        assert(line@ =~= rest.take(end - from));
        if let Some(cue) = parse_line(line) {
            put(&mut cues, cue.path, cue.frame);
        }
        if end == bytes.len() {
            return cues;
        }
        assert(rest.skip(end - from + 1) =~= bytes@.skip(end + 1));
        from = end + 1;
    }
}

/// One cue as a line: frame, tab, path.
pub open spec fn line_of(e: (Seq<u8>, u64)) -> Seq<u8> {
    digits(e.1 as nat) + seq![9u8] + escaped(e.0) + seq![10u8]
}

pub open spec fn lines_of(es: Seq<(Seq<u8>, u64)>) -> Seq<u8>
    decreases es.len(),
{
    if es.len() == 0 {
        Seq::empty()
    } else {
        line_of(es[0]) + lines_of(es.skip(1))
    }
}

/// The whole file: the header, then a line for each cue in the order given.
pub open spec fn file_of(es: Seq<(Seq<u8>, u64)>) -> Seq<u8> {
    HEADER@ + seq![10u8] + lines_of(es)
}

/// What a save writes: the bytes, to a temporary beside the file, which is
/// then renamed over it.
#[derive(Debug)]
pub struct Save {
    pub file: Vec<u8>,
    pub tmp: Vec<u8>,
    pub bytes: Vec<u8>,
}

/// `.cues`.
pub const EXTENSION: [u8; 5] = [46, 99, 117, 101, 115];

/// Why a volume cannot name a file, if it cannot.
pub open spec fn volume_refusal(volume: Seq<char>) -> Option<&'static str> {
    if volume.len() == 0 {
        Some("empty")
    } else if volume == seq!['.'] || volume == seq!['.', '.'] {
        Some("a relative path component")
    } else if volume.contains('/') || volume.contains('\0') {
        Some("contains a path separator or NUL")
    } else if exists|i: int| 0 <= i < volume.len() && control(#[trigger] volume[i]) {
        Some("contains a control character")
    } else {
        None
    }
}

/// The control characters: C0, delete and C1.
pub open spec fn control(c: char) -> bool {
    c as int <= 0x1f || 0x7f <= c as int <= 0x9f
}

/// One file per volume.
pub open spec fn file_for(state_dir: Seq<u8>, volume: Seq<char>) -> Seq<u8> {
    joined(state_dir, vstd::utf8::encode_utf8(volume) + EXTENSION@)
}

/// One file per volume, named by the volume, or the reason it cannot be.
pub fn cue_file_name(volume: &str) -> (r: Result<Vec<u8>, CueError>)
    ensures
        match r {
            Ok(name) => volume_refusal(volume@) is None && name@ == vstd::utf8::encode_utf8(
                volume@,
            ) + EXTENSION@,
            Err(CueError::BadVolume { volume: v, reason }) => v@ == volume@ && Some(reason)
                == volume_refusal(volume@),
            Err(_) => false,
        },
{
    let chars: Vec<char> = chars_of(volume);
    let mut refusal: Option<&'static str> = None;
    let mut separator: bool = false;
    let mut controls: bool = false;
    let mut i: usize = 0;
    while i < chars.len()
        invariant
            i <= chars@.len(),
            separator == exists|k: int|
                0 <= k < i && (#[trigger] chars@[k] == '/' || chars@[k] == '\0'),
            controls == exists|k: int| 0 <= k < i && control(#[trigger] chars@[k]),
        decreases chars@.len() - i,
    {
        let c: char = chars[i];
        if c == '/' || c == '\0' {
            separator = true;
        }
        let code: u32 = code_of(c);
        if code <= 0x1f || (0x7f <= code && code <= 0x9f) {
            controls = true;
        }
        assert(control(chars@[i as int]) == (code <= 0x1f || 0x7f <= code <= 0x9f));
        i = i + 1;
    }
    proof {
        if separator {
            let k = choose|k: int|
                0 <= k < chars@.len() && (#[trigger] chars@[k] == '/' || chars@[k] == '\0');
            assert(volume@[k] == chars@[k]);
        }
        if volume@.contains('/') {
            let k = choose|k: int| 0 <= k < volume@.len() && volume@[k] == '/';
            assert(chars@[k] == '/');
        }
        if volume@.contains('\0') {
            let k = choose|k: int| 0 <= k < volume@.len() && volume@[k] == '\0';
            assert(chars@[k] == '\0');
        }
    }
    if chars.len() == 0 {
        refusal = Some("empty");
    } else if (chars.len() == 1 && chars[0] == '.') || (chars.len() == 2 && chars[0] == '.'
        && chars[1] == '.') {
        assert(volume@ =~= seq!['.'] || volume@ =~= seq!['.', '.']);
        refusal = Some("a relative path component");
    } else if separator {
        refusal = Some("contains a path separator or NUL");
    } else if controls {
        refusal = Some("contains a control character");
    }
    assert(refusal == volume_refusal(volume@));
    if let Some(reason) = refusal {
        return Err(CueError::BadVolume { volume: volume.to_owned(), reason });
    }
    let mut name: Vec<u8> = copied(volume.as_bytes());
    let ghost stem = name@;
    name.extend_from_slice(&EXTENSION);
    assert(name@ =~= stem + EXTENSION@);
    Ok(name)
}

/// The cues for one volume, held in memory and written through on every
/// change.
#[derive(Debug)]
pub struct CueStore {
    /// The file they are kept in.
    pub file: Vec<u8>,
    pub mount_point: Vec<u8>,
    /// Each path once, in byte order, none at frame zero.
    pub cues: Vec<Cue>,
}

impl View for CueStore {
    type V = Map<Seq<u8>, u64>;

    open spec fn view(&self) -> Map<Seq<u8>, u64> {
        map_of(self.entries())
    }
}

impl CueStore {
    pub open spec fn entries(&self) -> Seq<(Seq<u8>, u64)> {
        entries_of(self.cues@)
    }

    pub open spec fn wf(&self) -> bool {
        in_order(self.entries()) && self.file@.len() >= EXTENSION@.len()
    }

    /// The key of a track: its path relative to the mount point.
    pub open spec fn key_of(&self, track: Seq<u8>) -> Option<Seq<u8>> {
        if absolute(track) {
            relative_to(track, self.mount_point@)
        } else {
            Some(track)
        }
    }

    /// The cue point of a track with this key, zero when unset.
    pub open spec fn frame_at(&self, key: Seq<u8>) -> u64 {
        if self@.dom().contains(key) {
            self@[key]
        } else {
            0
        }
    }

    /// The cues for one volume, from what its file held. No file is a first
    /// use, and what a file holds that is no cue is skipped.
    pub fn load(state_dir: &[u8], volume: &str, mount_point: &[u8], file: CueFile) -> (r: Result<
        CueStore,
        CueError,
    >)
        ensures
            match r {
                Ok(store) => {
                    &&& volume_refusal(volume@) is None
                    &&& !(file is Failed)
                    &&& store.wf()
                    &&& store.file@ == file_for(state_dir@, volume@)
                    &&& store.mount_point@ == mount_point@
                    &&& store@ == (match file {
                        CueFile::Read(bytes) => cues_in(bytes@, Map::empty()),
                        _ => Map::empty(),
                    })
                },
                Err(CueError::BadVolume { volume: v, reason }) => v@ == volume@ && Some(reason)
                    == volume_refusal(volume@),
                Err(CueError::Io { path, error }) => {
                    &&& volume_refusal(volume@) is None
                    &&& file matches CueFile::Failed(e) && error == e
                    &&& path@ == file_for(state_dir@, volume@)
                },
                Err(CueError::OutsideMedium { .. }) => false,
            },
    {
        let name: Vec<u8> = match cue_file_name(volume) {
            Ok(name) => name,
            Err(e) => {
                return Err(e);
            },
        };
        let path: Vec<u8> = join(state_dir, name.as_slice());
        let cues: Vec<Cue> = match file {
            CueFile::Read(bytes) => parse(bytes.as_slice()),
            CueFile::Missing => Vec::new(),
            CueFile::Failed(error) => {
                return Err(CueError::Io { path, error });
            },
        };
        assert(cues@.len() == 0 ==> entries_of(cues@) =~= Seq::empty());
        Ok(CueStore { file: path, mount_point: copied(mount_point), cues })
    }

    pub fn path(&self) -> (r: &[u8])
        ensures
            r@ == self.file@,
    {
        self.file.as_slice()
    }

    pub fn len(&self) -> (r: usize)
        requires
            self.wf(),
        ensures
            self@.dom().finite(),
            r == self@.dom().len(),
    {
        proof {
            lemma_map_of_len(Map::empty(), self.entries());
        }
        self.cues.len()
    }

    pub fn is_empty(&self) -> (r: bool)
        requires
            self.wf(),
        ensures
            r == (self@ == Map::<Seq<u8>, u64>::empty()),
    {
        proof {
            lemma_map_of(self.entries());
            if self.cues@.len() > 0 {
                assert(holds_key(self.entries(), self.entries()[0].0));
                assert(self@.dom().contains(self.entries()[0].0));
            } else {
                assert(self@ =~= Map::empty());
            }
        }
        self.cues.len() == 0
    }

    /// The cue point for a track, in frames. Zero when unset.
    pub fn get(&self, track: &[u8]) -> (r: Result<u64, CueError>)
        requires
            self.wf(),
        ensures
            match r {
                Ok(frame) => self.key_of(track@) matches Some(key) && frame == self.frame_at(key),
                Err(CueError::OutsideMedium { path }) => self.key_of(track@) is None && path@
                    == track@,
                Err(_) => false,
            },
    {
        let key: Vec<u8> = match self.key(track) {
            Ok(key) => key,
            Err(e) => {
                return Err(e);
            },
        };
        let (at, found) = find(&self.cues, key.as_slice());
        proof {
            lemma_map_of(self.entries());
            if found {
                assert(self.entries()[at as int].0 == key@);
            }
        }
        if found {
            Ok(self.cues[at].frame)
        } else {
            Ok(0)
        }
    }

    /// Sets the cue point. Setting zero removes the entry: zero is the unset
    /// value. The caller writes what [`CueStore::save`] gives straight away,
    /// because a deck gets switched off at the wall.
    pub fn set(&mut self, track: &[u8], frame: u64) -> (r: Result<(), CueError>)
        requires
            old(self).wf(),
        ensures
            final(self).wf(),
            final(self).file == old(self).file,
            final(self).mount_point == old(self).mount_point,
            match r {
                Ok(()) => old(self).key_of(track@) matches Some(key) && final(self)@ == with_cue(
                    old(self)@,
                    key,
                    frame,
                ),
                Err(CueError::OutsideMedium { path }) => old(self).key_of(track@) is None && path@
                    == track@ && *final(self) == *old(self),
                Err(_) => false,
            },
    {
        match self.key(track) {
            Ok(key) => {
                put(&mut self.cues, key, frame);
                Ok(())
            },
            Err(e) => Err(e),
        }
    }

    /// What to write, and where. The bytes go to a temporary beside the file
    /// and are renamed over it, so a power cut leaves the old file or the new
    /// one. The lines are sorted, so the file is stable across saves.
    pub fn save(&self) -> (r: Save)
        requires
            self.wf(),
        ensures
            r.file@ == self.file@,
            r.tmp@ == self.file@.take(self.file@.len() - 4) + seq![116u8, 109u8, 112u8],
            r.bytes@ == file_of(self.entries()),
    {
        let mut tmp: Vec<u8> = copied(self.file.as_slice());
        tmp.truncate(self.file.len() - 4);
        tmp.push(116);
        tmp.push(109);
        tmp.push(112);
        assert(tmp@ =~= self.file@.take(self.file@.len() - 4) + seq![116u8, 109u8, 112u8]);
        let ghost es = self.entries();
        let mut bytes: Vec<u8> = copied(&HEADER);
        bytes.push(10);
        let mut i: usize = 0;
        assert(es.skip(0) =~= es);
        assert(bytes@ =~= HEADER@ + seq![10u8]);
        while i < self.cues.len()
            invariant
                i <= self.cues@.len(),
                es == entries_of(self.cues@),
                file_of(es) == bytes@ + lines_of(es.skip(i as int)),
            decreases self.cues@.len() - i,
        {
            let ghost before_line = bytes@;
            push_digits(&mut bytes, self.cues[i].frame);
            bytes.push(9);
            let mut path: Vec<u8> = escape(self.cues[i].path.as_slice());
            bytes.append(&mut path);
            bytes.push(10);
            proof {
                let line = line_of(es[i as int]);
                assert(bytes@ =~= before_line + line);
                assert(es.skip(i as int).skip(1) =~= es.skip(i + 1));
                assert(bytes@ + lines_of(es.skip(i + 1)) =~= before_line + (line + lines_of(
                    es.skip(i + 1),
                )));
            }
            i = i + 1;
        }
        assert(bytes@ =~= file_of(es));
        Save { file: copied(self.file.as_slice()), tmp, bytes }
    }

    /// The key: the path relative to the mount point, as raw bytes. Takes a
    /// path under the mount point or an already relative one.
    fn key(&self, track: &[u8]) -> (r: Result<Vec<u8>, CueError>)
        ensures
            match r {
                Ok(key) => self.key_of(track@) == Some(key@),
                Err(CueError::OutsideMedium { path }) => self.key_of(track@) is None && path@
                    == track@,
                Err(_) => false,
            },
    {
        if is_absolute(track) {
            match strip_prefix(track, self.mount_point.as_slice()) {
                Some(key) => Ok(key),
                None => Err(CueError::OutsideMedium { path: copied(track) }),
            }
        } else {
            Ok(copied(track))
        }
    }
}

proof fn lemma_line_end_at(b: Seq<u8>, from: int, end: int)
    requires
        0 <= from <= end < b.len(),
        b[end] == 10,
        forall|i: int| from <= i < end ==> #[trigger] b[i] != 10,
    ensures
        line_end(b, from) == end,
    decreases end - from,
{
    if from < end {
        lemma_line_end_at(b, from + 1, end);
    }
}

proof fn lemma_tab_at(b: Seq<u8>, from: int, at: int)
    requires
        0 <= from <= at < b.len(),
        b[at] == 9,
        forall|i: int| from <= i < at ==> #[trigger] b[i] != 9,
    ensures
        tab_at(b, from) == at,
    decreases at - from,
{
    if from < at {
        lemma_tab_at(b, from + 1, at);
    }
}

/// A written line reads back as the cue it was written for.
proof fn lemma_line_read_back(e: (Seq<u8>, u64), rest: Seq<u8>, m: Map<Seq<u8>, u64>)
    requires
        e.1 != 0,
    ensures
        cues_in(line_of(e) + rest, m) == cues_in(rest, m.insert(e.0, e.1)),
{
    let number = digits(e.1 as nat);
    let name = escaped(e.0);
    let line = number + seq![9u8] + name;
    let all = line_of(e) + rest;
    lemma_digits(e.1 as nat);
    law_escaped_names_hold_no_control_characters(e.0);
    law_escaping_round_trips(e.0);
    let end = line.len() as int;
    assert(all.take(end) =~= line);
    assert(all[end] == 10);
    assert forall|i: int| 0 <= i < end implies #[trigger] all[i] != 10 by {
        assert(all[i] == line[i]);
        if i < number.len() {
            assert(is_digit(number[i]));
        } else if i > number.len() {
            assert(line[i] == name[i - number.len() - 1]);
        }
    }
    lemma_line_end_at(all, 0, end);
    assert(all.skip(end + 1) =~= rest);
    assert forall|i: int| 0 <= i < number.len() implies #[trigger] line[i] != 9 by {
        assert(is_digit(number[i]));
    }
    lemma_tab_at(line, 0, number.len() as int);
    assert(line.take(number.len() as int) =~= number);
    assert(line.skip(number.len() as int + 1) =~= name);
    assert(is_digit(number[0]));
    crate::text::law_digits_read_back(e.1 as nat, u64::MAX as nat);
}

proof fn lemma_lines_read_back(es: Seq<(Seq<u8>, u64)>, m: Map<Seq<u8>, u64>)
    requires
        forall|i: int| 0 <= i < es.len() ==> (#[trigger] es[i]).1 != 0,
    ensures
        cues_in(lines_of(es), m) == with_all(m, es),
    decreases es.len(),
{
    if es.len() > 0 {
        assert forall|i: int| 0 <= i < es.skip(1).len() implies (#[trigger] es.skip(1)[i]).1
            != 0 by {
            assert(es.skip(1)[i] == es[i + 1]);
        }
        lemma_line_read_back(es[0], lines_of(es.skip(1)), m);
        lemma_lines_read_back(es.skip(1), m.insert(es[0].0, es[0].1));
    } else {
        assert(lines_of(es).take(0) =~= Seq::<u8>::empty());
    }
}

/// A cue survives a reload: what a save writes reads back as the same cues,
/// every one of them and no other.
pub proof fn law_a_saved_file_reads_back(store: CueStore)
    requires
        store.wf(),
    ensures
        cues_in(file_of(store.entries()), Map::empty()) == store@,
{
    let es = store.entries();
    let all = file_of(es);
    let end = HEADER@.len() as int;
    assert(all.take(end) =~= HEADER@);
    assert forall|i: int| 0 <= i < end implies #[trigger] all[i] != 10 by {
        assert(all[i] == HEADER@[i]);
    }
    lemma_line_end_at(all, 0, end);
    assert(all.skip(end + 1) =~= lines_of(es));
    assert(entry_of(HEADER@) is None);
    lemma_lines_read_back(es, Map::empty());
}

/// A cue set is the cue read, whatever else is stored; and setting a new one
/// cancels the old, so a track has one cue point.
pub proof fn law_a_cue_set_is_the_cue_read(m: Map<Seq<u8>, u64>, key: Seq<u8>, frame: u64, other: Seq<u8>)
    ensures
        frame != 0 ==> with_cue(m, key, frame).dom().contains(key) && with_cue(m, key, frame)[key]
            == frame,
        frame == 0 ==> !with_cue(m, key, frame).dom().contains(key),
        other != key ==> (with_cue(m, key, frame).dom().contains(other) <==> m.dom().contains(
            other,
        )),
        other != key && m.dom().contains(other) ==> with_cue(m, key, frame)[other] == m[other],
        with_cue(with_cue(m, key, 1), key, frame) == with_cue(m, key, frame),
{
    assert(with_cue(with_cue(m, key, 1), key, frame) =~= with_cue(m, key, frame));
}

/// Every track has its own cue: of the tracks on the medium, each is known by
/// the names that lead to it below the mount point, by its path from the root
/// as by its path from the mount point, so setting the cue of one is what is
/// read for that one and leaves what is read for every other as it was.
pub proof fn law_every_track_has_its_own_cue(
    store: CueStore,
    a: Seq<u8>,
    b: Seq<u8>,
    frame: u64,
    after: CueStore,
)
    requires
        absolute(store.mount_point@),
        plain(a),
        plain(b),
        after.mount_point@ == store.mount_point@,
        store.key_of(joined(store.mount_point@, a)) matches Some(key) && after@ == with_cue(
            store@,
            key,
            frame,
        ),
    ensures
        store.key_of(joined(store.mount_point@, a)) == Some(a),
        store.key_of(a) == Some(a),
        after.frame_at(a) == frame,
        a != b ==> store.key_of(joined(store.mount_point@, a)) != store.key_of(
            joined(store.mount_point@, b),
        ),
        a != b ==> after.frame_at(after.key_of(joined(store.mount_point@, b))->0)
            == store.frame_at(store.key_of(joined(store.mount_point@, b))->0),
{
    crate::path::law_a_path_below_a_folder_is_what_was_joined_to_it(store.mount_point@, a, b);
    crate::path::law_a_path_below_a_folder_is_what_was_joined_to_it(store.mount_point@, b, a);
    law_a_cue_set_is_the_cue_read(store@, a, frame, b);
}

/// A volume can name a file exactly where it is one name that leads nowhere
/// else and shows all of itself, and two volumes never share a file: it is in
/// the state directory, and is what the volume is called.
pub proof fn law_every_volume_has_its_own_file(
    state_dir: Seq<u8>,
    v: Seq<char>,
    w: Seq<char>,
)
    requires
        volume_refusal(v) is None,
        volume_refusal(w) is None,
    ensures
        v.len() > 0 && !v.contains('/') && !v.contains('\0'),
        v.len() <= 2 ==> v[0] != '.' || v.last() != '.',
        forall|i: int| 0 <= i < v.len() ==> 0x20 <= #[trigger] v[i] as int,
        file_for(state_dir, v).take(state_dir.len() as int) == state_dir,
        file_for(state_dir, v) == file_for(state_dir, w) ==> v == w,
{
    let x = vstd::utf8::encode_utf8(v);
    let y = vstd::utf8::encode_utf8(w);
    if v.len() == 1 && v[0] == '.' {
        assert(v =~= seq!['.']);
    }
    if v.len() == 2 && v[0] == '.' && v[1] == '.' {
        assert(v =~= seq!['.', '.']);
    }
    assert forall|i: int| 0 <= i < v.len() implies 0x20 <= #[trigger] v[i] as int by {
        assert(!control(v[i]));
    }
    lemma_no_slash(v);
    lemma_no_slash(w);
    assert(!absolute(x + EXTENSION@)) by {
        assert((x + EXTENSION@)[0] == x[0]);
        assert(x.contains(x[0]));
    }
    assert(!absolute(y + EXTENSION@)) by {
        assert((y + EXTENSION@)[0] == y[0]);
        assert(y.contains(y[0]));
    }
    assert(file_for(state_dir, v).take(state_dir.len() as int) =~= state_dir);
    if file_for(state_dir, v) == file_for(state_dir, w) {
        let fv = file_for(state_dir, v);
        let fw = file_for(state_dir, w);
        let at = fv.len() - x.len() - EXTENSION@.len();
        assert(x.len() == y.len());
        assert(fv.subrange(at, at + x.len()) =~= x);
        assert(fw.subrange(at, at + x.len()) =~= y);
        vstd::utf8::encode_utf8_decode_utf8(v);
        vstd::utf8::encode_utf8_decode_utf8(w);
    }
}

/// The bytes of a text that has no separator have none either.
proof fn lemma_no_slash(v: Seq<char>)
    requires
        v.len() > 0,
        !v.contains('/'),
    ensures
        vstd::utf8::encode_utf8(v).len() > 0,
        vstd::utf8::encode_utf8(v)[0] != 47,
{
    vstd::utf8::encode_utf8_first_scalar(v);
    vstd::utf8::char_is_scalar(v[0]);
    assert(v.contains(v[0]));
    assert(47u8 & 0x7f == 47u8) by (bit_vector);
    if vstd::utf8::encode_utf8(v)[0] == 47 {
        assert(v[0] as u32 == 47);
        vstd::utf8::char_u32_cast(v[0], 47);
        assert(v[0] == '/');
    }
}

/// A file of cues is read a line at a time: a frame, a tab and a path set the
/// path's cue, over any before it; a comment, a blank line, a line without a
/// tab or with no number before it, and a cue at the very start say nothing.
pub proof fn law_a_file_is_read_line_by_line(
    line: Seq<u8>,
    rest: Seq<u8>,
    m: Map<Seq<u8>, u64>,
    path: Seq<u8>,
    frame: u64,
)
    requires
        !line.contains(10u8),
    ensures
        frame > 0 && line == digits(frame as nat) + seq![9u8] + escaped(path) ==> cues_in(
            line.push(10) + rest,
            m,
        ) == cues_in(rest, m.insert(path, frame)),
        line.len() == 0 || line[0] == '#' as u8 || !line.contains(9u8) ==> cues_in(
            line.push(10) + rest,
            m,
        ) == cues_in(rest, m),
        line == seq![48u8, 9u8] + path ==> cues_in(line.push(10) + rest, m) == cues_in(rest, m),
        cues_in(Seq::empty(), m) == m,
{
    let all = line.push(10) + rest;
    assert forall|i: int| 0 <= i < line.len() implies #[trigger] all[i] != 10 by {
        assert(line.contains(line[i]));
    }
    lemma_line_end_at(all, 0, line.len() as int);
    assert(all.take(line.len() as int) =~= line);
    assert(all.skip(line.len() as int + 1) =~= rest);
    if frame > 0 && line == digits(frame as nat) + seq![9u8] + escaped(path) {
        lemma_line_read_back((path, frame), rest, m);
        assert(line_of((path, frame)) =~= line.push(10));
    }
    if !line.contains(9u8) {
        lemma_no_tab(line, 0);
    }
    if line == seq![48u8, 9u8] + path {
        lemma_tab_at(line, 0, 1);
        crate::text::law_digits_read_back(0, u64::MAX as nat);
        assert(line.take(1) =~= digits(0));
    }
}

proof fn lemma_no_tab(b: Seq<u8>, from: int)
    requires
        0 <= from <= b.len(),
        !b.contains(9u8),
    ensures
        tab_at(b, from) == b.len(),
    decreases b.len() - from,
{
    if from < b.len() {
        assert(b.contains(b[from]));
        lemma_no_tab(b, from + 1);
    }
}

/// A path that is printable and has no backslash is written as it is, and what
/// would break a line is written behind a backslash.
pub proof fn law_how_a_path_is_written(path: Seq<u8>, b: u8)
    ensures
        (forall|i: int|
            0 <= i < path.len() ==> 32 <= #[trigger] path[i] && path[i] != 92 && path[i] != 127)
            ==> escaped(path) == path,
        escaped(seq![10u8]) == seq!['\\' as u8, 'n' as u8],
        escaped(seq![13u8]) == seq!['\\' as u8, 'r' as u8],
        escaped(seq![9u8]) == seq!['\\' as u8, 't' as u8],
        escaped(seq![92u8]) == seq!['\\' as u8, '\\' as u8],
        escaped(seq![b] + path) == escaped(seq![b]) + escaped(path),
    decreases path.len(),
{
    reveal_with_fuel(escaped, 2);
    let none = Seq::<u8>::empty();
    assert(seq![10u8].skip(1) =~= none);
    assert(seq![13u8].skip(1) =~= none);
    assert(seq![9u8].skip(1) =~= none);
    assert(seq![92u8].skip(1) =~= none);
    assert(seq![b].skip(1) =~= none);
    assert((seq![b] + path).skip(1) =~= path);
    assert(escaped(seq![b]) =~= escaped_byte(b));
    assert(escaped(seq![10u8]) =~= escaped_byte(10));
    assert(escaped(seq![13u8]) =~= escaped_byte(13));
    assert(escaped(seq![9u8]) =~= escaped_byte(9));
    assert(escaped(seq![92u8]) =~= escaped_byte(92));
    if path.len() > 0 && (forall|i: int|
        0 <= i < path.len() ==> 32 <= #[trigger] path[i] && path[i] != 92 && path[i] != 127) {
        let rest = path.skip(1);
        assert forall|i: int| 0 <= i < rest.len() implies 32 <= #[trigger] rest[i] && rest[i] != 92
            && rest[i] != 127 by {
            assert(rest[i] == path[i + 1]);
        }
        law_how_a_path_is_written(rest, b);
        assert(path[0] != 92);
        assert(seq![path[0]] + rest =~= path);
    }
}

/// Paths stand in the order of their bytes: at the first that differs the
/// lower stands first, and a path stands before what goes on from it.
pub proof fn law_paths_stand_in_byte_order(
    front: Seq<u8>,
    x: u8,
    s: Seq<u8>,
    y: u8,
    t: Seq<u8>,
)
    ensures
        x != y ==> (before(front + (seq![x] + s), front + (seq![y] + t)) <==> x < y),
        before(front, front + (seq![x] + s)),
        !before(front + s, front),
        !before(front, front),
    decreases front.len(),
{
    if front.len() > 0 {
        let rest = front.skip(1);
        law_paths_stand_in_byte_order(rest, x, s, y, t);
        assert((front + (seq![x] + s)).skip(1) =~= rest + (seq![x] + s));
        assert((front + (seq![y] + t)).skip(1) =~= rest + (seq![y] + t));
        assert((front + s).skip(1) =~= rest + s);
    } else {
        assert(front + (seq![x] + s) =~= seq![x] + s);
        assert(front + (seq![y] + t) =~= seq![y] + t);
    }
}

/// Cues are kept under the directory for state where one is set, and under the
/// home directory else, and nowhere where there is neither.
pub proof fn law_where_cues_are_kept(xdg: Seq<u8>, home: Option<Seq<u8>>)
    ensures
        xdg.len() > 0 ==> state_dir(Some(xdg), home) == Some(
            joined(xdg, seq![100u8, 101u8, 99u8, 107u8, 45u8, 112u8, 105u8]),
        ),
        state_dir(Some(Seq::empty()), home) == state_dir(None, home),
        state_dir(None, None) is None,
        home matches Some(h) ==> (state_dir(None, home) matches Some(d) && d == joined(
            h,
            LOCAL_STATE_DIR@,
        )),
{
    assert(DECK_DIR@ =~= seq![100u8, 101u8, 99u8, 107u8, 45u8, 112u8, 105u8]);
}

/// Two digits behind an `x` are the byte they denote in base sixteen, in
/// either case.
pub proof fn law_hex_digits_are_their_value(a: u8, b: u8)
    ensures
        48 <= a <= 57 ==> hex_value(a) == Some((a - 48) as u8),
        97 <= a <= 102 ==> hex_value(a) == Some((a - 97 + 10) as u8),
        65 <= a <= 70 ==> hex_value(a) == Some((a - 65 + 10) as u8),
        hex_value(a) matches Some(v) ==> v < 16,
        hex_value(a) is Some && hex_value(b) is Some ==> (hex_pair(a, b) matches Some(v) && v == 16
            * hex_value(a)->0 + hex_value(b)->0),
        hex_value(a) is None || hex_value(b) is None ==> hex_pair(a, b) is None,
{
}

} // verus!
