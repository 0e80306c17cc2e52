//! Paths as the bytes they are.
//!
//! A filename is bytes, and converting it lossily to text would map two
//! different broken names onto one. These are the few questions the deck asks
//! of a path: repeated separators and `.` components mean nothing, `..` is a
//! name like any other, and a leading separator makes a path absolute.

use vstd::prelude::*;

verus! {

/// The separator.
pub const SEPARATOR: u8 = 47;

const DOT: u8 = 46;

pub open spec fn absolute(p: Seq<u8>) -> bool {
    p.len() > 0 && p[0] == 47
}

pub fn is_absolute(p: &[u8]) -> (r: bool)
    ensures
        r == absolute(p@),
{
    p.len() > 0 && p[0] == SEPARATOR
}

/// One name under a folder. An absolute name stands for itself.
pub open spec fn joined(dir: Seq<u8>, name: Seq<u8>) -> Seq<u8> {
    if absolute(name) {
        name
    } else if dir.len() == 0 || dir.last() == 47 {
        dir + name
    } else {
        dir.push(47) + name
    }
}

pub fn join(dir: &[u8], name: &[u8]) -> (r: Vec<u8>)
    ensures
        r@ == joined(dir@, name@),
{
    let mut out: Vec<u8> = Vec::new();
    if !is_absolute(name) {
        out.extend_from_slice(dir);
        assert(out@ =~= dir@);
        if dir.len() > 0 && dir[dir.len() - 1] != SEPARATOR {
            out.push(SEPARATOR);
        }
    }
    let ghost before = out@;
    out.extend_from_slice(name);
    assert(out@ =~= before + name@);
    assert(out@ =~= joined(dir@, name@));
    out
}

/// What is left once the separators and `.` components in front are gone.
pub open spec fn led(p: Seq<u8>) -> Seq<u8>
    decreases p.len(),
{
    if p.len() > 0 && p[0] == 47 {
        led(p.skip(1))
    } else if p.len() > 0 && p[0] == 46 && (p.len() == 1 || p[1] == 47) {
        led(p.skip(1))
    } else {
        p
    }
}

/// What is left once the separators and `.` components at the end are gone.
pub open spec fn ended(p: Seq<u8>) -> Seq<u8>
    decreases p.len(),
{
    if p.len() > 0 && p.last() == 47 {
        ended(p.drop_last())
    } else if p.len() > 1 && p.last() == 46 && p[p.len() - 2] == 47 {
        ended(p.drop_last())
    } else {
        p
    }
}

/// Where the name that starts at `i` ends.
pub open spec fn name_end(p: Seq<u8>, i: int) -> int
    decreases p.len() - i,
{
    if i >= p.len() || p[i] == 47 {
        i
    } else {
        name_end(p, i + 1)
    }
}

/// The names of `track` past the names of `dir`, where `dir` leads to it.
pub open spec fn stripped(track: Seq<u8>, dir: Seq<u8>) -> Option<Seq<u8>>
    decreases dir.len(),
{
    proof {
        lemma_led(dir);
        lemma_name_end(led(dir), 0);
    }
    let d = led(dir);
    let t = led(track);
    let k = name_end(d, 0);
    let j = name_end(t, 0);
    if d.len() == 0 {
        Some(ended(t))
    } else if d.take(k) == t.take(j) {
        stripped(t.skip(j), d.skip(k))
    } else {
        None
    }
}

/// An absolute path relative to a folder, if it is under it. A relative folder
/// leads to no absolute path, but for the empty one, which leads everywhere.
pub open spec fn relative_to(track: Seq<u8>, dir: Seq<u8>) -> Option<Seq<u8>> {
    if absolute(dir) {
        stripped(track, dir)
    } else if dir.len() > 0 {
        None
    } else if led(track).len() == 0 {
        Some(seq![47u8])
    } else {
        Some(seq![47u8] + ended(track.skip(1)))
    }
}

pub proof fn lemma_led(p: Seq<u8>)
    ensures
        led(p).len() <= p.len(),
        led(p) == p.skip(p.len() - led(p).len()),
        led(p).len() > 0 ==> led(p)[0] != 47,
    decreases p.len(),
{
    if p.len() > 0 && (p[0] == 47 || (p[0] == 46 && (p.len() == 1 || p[1] == 47))) {
        lemma_led(p.skip(1));
        assert(led(p) =~= p.skip(p.len() - led(p).len()));
    } else {
        assert(p.skip(0) =~= p);
    }
}

pub proof fn lemma_name_end(p: Seq<u8>, i: int)
    requires
        0 <= i <= p.len(),
    ensures
        i <= name_end(p, i) <= p.len(),
        i < p.len() && p[i] != 47 ==> i < name_end(p, i),
    decreases p.len() - i,
{
    if i < p.len() && p[i] != 47 {
        lemma_name_end(p, i + 1);
    }
}

/// How much of `p`, from `from`, is separators and `.` components.
fn skip_lead(p: &[u8], from: usize) -> (r: usize)
    requires
        from <= p@.len(),
    ensures
        from <= r <= p@.len(),
        p@.skip(r as int) == led(p@.skip(from as int)),
{
    let mut i: usize = from;
    while i < p.len() && (p[i] == SEPARATOR || (p[i] == DOT && (i + 1 == p.len() || p[i + 1]
        == SEPARATOR)))
        invariant
            from <= i <= p@.len(),
            led(p@.skip(i as int)) == led(p@.skip(from as int)),
        decreases p@.len() - i,
    {
        assert(p@.skip(i as int).skip(1) =~= p@.skip(i + 1));
        i = i + 1;
    }
    i
}

fn find_name_end(p: &[u8], from: usize) -> (r: usize)
    requires
        from <= p@.len(),
    ensures
        from <= r <= p@.len(),
        r - from == name_end(p@.skip(from as int), 0),
{
    let mut i: usize = from;
    while i < p.len() && p[i] != SEPARATOR
        invariant
            from <= i <= p@.len(),
            name_end(p@.skip(from as int), i - from) == name_end(p@.skip(from as int), 0),
        decreases p@.len() - i,
    {
        i = i + 1;
    }
    i
}

/// The bytes of `p` from `from` to `to`, less what trails the last name.
fn trimmed(p: &[u8], from: usize) -> (r: Vec<u8>)
    requires
        from <= p@.len(),
    ensures
        r@ == ended(p@.skip(from as int)),
{
    let ghost all = p@.skip(from as int);
    let mut to: usize = p.len();
    assert(p@.subrange(from as int, to as int) =~= all);
    while to > from && (p[to - 1] == SEPARATOR || (to - from > 1 && p[to - 1] == DOT && p[to - 2]
        == SEPARATOR))
        invariant
            from <= to <= p@.len(),
            ended(p@.subrange(from as int, to as int)) == ended(all),
        decreases to,
    {
        assert(p@.subrange(from as int, to as int).drop_last() =~= p@.subrange(
            from as int,
            to - 1,
        ));
        to = to - 1;
    }
    let mut out: Vec<u8> = Vec::new();
    out.extend_from_slice(vstd::slice::slice_subrange(p, from, to));
    assert(out@ =~= p@.subrange(from as int, to as int));
    out
}

/// The part of an absolute path below a folder, or `None` where it is not
/// below it.
pub fn strip_prefix(track: &[u8], dir: &[u8]) -> (r: Option<Vec<u8>>)
    requires
        absolute(track@),
    ensures
        r matches Some(rel) ==> relative_to(track@, dir@) == Some(rel@),
        r is None ==> relative_to(track@, dir@) is None,
{
    if !is_absolute(dir) {
        if dir.len() > 0 {
            return None;
        }
        let mut out: Vec<u8> = Vec::new();
        out.push(SEPARATOR);
        let body: usize = skip_lead(track, 0);
        assert(track@.skip(0) =~= track@);
        if body < track.len() {
            let mut rest: Vec<u8> = trimmed(track, 1);
            out.append(&mut rest);
        }
        assert(out@ =~= relative_to(track@, dir@)->0);
        return Some(out);
    }
    let mut i: usize = 0;
    let mut j: usize = 0;
    assert(track@.skip(0) =~= track@);
    assert(dir@.skip(0) =~= dir@);
    loop
        invariant
            i <= track@.len(),
            j <= dir@.len(),
            relative_to(track@, dir@) == stripped(track@.skip(i as int), dir@.skip(j as int)),
        decreases dir@.len() - j,
    {
        let ghost (i0, j0) = (i, j);
        proof {
            lemma_led(dir@.skip(j as int));
            lemma_name_end(led(dir@.skip(j as int)), 0);
            lemma_led(track@.skip(i as int));
            lemma_name_end(led(track@.skip(i as int)), 0);
        }
        j = skip_lead(dir, j);
        i = skip_lead(track, i);
        if j == dir.len() {
            return Some(trimmed(track, i));
        }
        let je: usize = find_name_end(dir, j);
        let ie: usize = find_name_end(track, i);
        proof {
            let d = led(dir@.skip(j0 as int));
            let t = led(track@.skip(i0 as int));
            assert(dir@.subrange(j as int, je as int) =~= d.take(je - j));
            assert(track@.subrange(i as int, ie as int) =~= t.take(ie - i));
            assert(d.skip(je - j) =~= dir@.skip(je as int));
            assert(t.skip(ie - i) =~= track@.skip(ie as int));
        }
        if !crate::text::same_bytes(
            vstd::slice::slice_subrange(dir, j, je),
            vstd::slice::slice_subrange(track, i, ie),
        ) {
            return None;
        }
        j = je;
        i = ie;
    }
}

/// Where the last name starts.
pub open spec fn leaf_start(t: Seq<u8>, i: int) -> int
    decreases i,
{
    if i <= 0 || t[i - 1] == 47 {
        i
    } else {
        leaf_start(t, i - 1)
    }
}

/// A path as the folder it is in and its own name, where it has one: not the
/// root, nor a path that ends in `.` or `..` alone.
pub open spec fn split(p: Seq<u8>) -> Option<(Seq<u8>, Seq<u8>)> {
    let t = ended(p);
    let at = leaf_start(t, t.len() as int);
    let name = t.skip(at);
    let dir = ended(t.take(at));
    if t.len() == 0 || name == seq![46u8] || name == seq![46u8, 46u8] {
        None
    } else if dir.len() == 0 && absolute(t) {
        Some((seq![47u8], name))
    } else {
        Some((dir, name))
    }
}

/// The folder a file is in, and its name there.
pub fn parent_and_name(p: &[u8]) -> (r: Option<(Vec<u8>, Vec<u8>)>)
    ensures
        r matches Some((dir, name)) ==> split(p@) == Some((dir@, name@)),
        r is None ==> split(p@) is None,
{
    let t: Vec<u8> = trimmed(p, 0);
    assert(p@.skip(0) =~= p@);
    if t.len() == 0 {
        return None;
    }
    let mut at: usize = t.len();
    while at > 0 && t[at - 1] != SEPARATOR
        invariant
            at <= t@.len(),
            leaf_start(t@, t@.len() as int) == leaf_start(t@, at as int),
        decreases at,
    {
        at = at - 1;
    }
    let mut name: Vec<u8> = Vec::new();
    name.extend_from_slice(vstd::slice::slice_subrange(t.as_slice(), at, t.len()));
    assert(name@ =~= t@.skip(at as int));
    if name.len() == 1 && name[0] == DOT {
        assert(name@ =~= seq![46u8]);
        return None;
    }
    if name.len() == 2 && name[0] == DOT && name[1] == DOT {
        assert(name@ =~= seq![46u8, 46u8]);
        return None;
    }
    let front = vstd::slice::slice_subrange(t.as_slice(), 0, at);
    assert(front@ =~= t@.take(at as int));
    let mut dir: Vec<u8> = trimmed(front, 0);
    assert(front@.skip(0) =~= front@);
    if dir.len() == 0 && is_absolute(t.as_slice()) {
        dir.push(SEPARATOR);
        assert(dir@ =~= seq![47u8]);
    }
    Some((dir, name))
}

/// A path of plain names: none empty, none `.`, with one separator between.
pub open spec fn plain(r: Seq<u8>) -> bool {
    &&& r.len() > 0
    &&& r[0] != 47
    &&& r.last() != 47
    &&& forall|i: int| 0 <= i < r.len() - 1 && #[trigger] r[i] == 47 ==> r[i + 1] != 47
    &&& forall|i: int|
        0 <= i < r.len() && #[trigger] r[i] == 46 && (i == 0 || r[i - 1] == 47) ==> i + 1 < r.len()
            && r[i + 1] != 47
}

/// One plain name.
pub open spec fn plain_name(name: Seq<u8>) -> bool {
    plain(name) && !name.contains(47u8) && name != seq![46u8, 46u8]
}

proof fn lemma_plain(r: Seq<u8>)
    requires
        plain(r),
    ensures
        led(r) == r,
        led(seq![47u8] + r) == r,
        ended(r) == r,
{
    let t = seq![47u8] + r;
    assert(t.skip(1) =~= r);
    assert(t[0] == 47);
    assert(led(t) == led(t.skip(1)));
    if r[0] == 46 {
        assert(1 < r.len() && r[1] != 47);
    }
    if r.len() > 1 && r.last() == 46 && r[r.len() - 2] == 47 {
        assert(r[r.len() - 1] == 46);
    }
}

proof fn lemma_same_name_end(e: Seq<u8>, d: Seq<u8>, t: Seq<u8>, i: int)
    requires
        0 <= i <= e.len(),
        d == e || d == e.push(47),
        t.len() > e.len(),
        t.take(e.len() as int) == e,
        t[e.len() as int] == 47,
    ensures
        name_end(d, i) == name_end(t, i),
        name_end(t, i) <= e.len(),
    decreases e.len() - i,
{
    if i < e.len() {
        assert(t[i] == t.take(e.len() as int)[i]);
        assert(d[i] == e[i]);
        lemma_same_name_end(e, d, t, i + 1);
    }
}

proof fn lemma_stripped_of(e: Seq<u8>, trailing: bool, r: Seq<u8>)
    requires
        plain(r),
    ensures
        stripped(
            e + seq![47u8] + r,
            if trailing {
                e.push(47)
            } else {
                e
            },
        ) == Some(r),
    decreases e.len(),
{
    let d = if trailing {
        e.push(47)
    } else {
        e
    };
    let t = e + seq![47u8] + r;
    lemma_plain(r);
    if e.len() == 0 {
        assert(t =~= seq![47u8] + r);
        if trailing {
            assert(d.skip(1) =~= Seq::empty());
        }
        assert(led(d).len() == 0) by {
            reveal_with_fuel(led, 3);
        }
    } else {
        let f = e.skip(1);
        let df = if trailing {
            f.push(47)
        } else {
            f
        };
        assert(d.skip(1) =~= df);
        assert(t.skip(1) =~= f + seq![47u8] + r);
        assert(t[0] == e[0] && d[0] == e[0]);
        if e[0] == 47 || (e[0] == 46 && (e.len() == 1 || e[1] == 47)) {
            if e[0] == 46 && e.len() > 1 {
                assert(t[1] == e[1] && d[1] == e[1]);
            }
            assert(led(d) == led(df));
            assert(led(t) == led(f + seq![47u8] + r));
            lemma_stripped_of(f, trailing, r);
        } else {
            if e.len() > 1 {
                assert(t[1] == e[1] && d[1] == e[1]);
            }
            assert(led(d) == d && led(t) == t);
            assert(t.take(e.len() as int) =~= e);
            lemma_same_name_end(e, d, t, 0);
            lemma_name_end(d, 0);
            let k = name_end(d, 0);
            assert(d.take(k) =~= t.take(k));
            let g = e.skip(k);
            assert(d.skip(k) =~= if trailing {
                g.push(47)
            } else {
                g
            });
            assert(t.skip(k) =~= g + seq![47u8] + r);
            lemma_stripped_of(g, trailing, r);
        }
    }
}

/// What is below a folder is told apart by the path below it: a path of plain
/// names joined to an absolute folder has those names below it, all of them and
/// in order, and so two such paths have the same below the folder only where
/// they are the same path.
pub proof fn law_a_path_below_a_folder_is_what_was_joined_to_it(
    dir: Seq<u8>,
    r: Seq<u8>,
    other: Seq<u8>,
)
    requires
        absolute(dir),
        plain(r),
        plain(other),
    ensures
        absolute(joined(dir, r)),
        joined(dir, r).take(dir.len() as int) == dir,
        joined(dir, r).skip(joined(dir, r).len() - r.len()) == r,
        joined(dir, r).len() == dir.len() + r.len() + (if dir.last() == 47 {
            0int
        } else {
            1
        }),
        relative_to(joined(dir, r), dir) == Some(r),
        relative_to(joined(dir, r), dir) == relative_to(joined(dir, other), dir) ==> r == other,
{
    lemma_joined_strips(dir, r);
    lemma_joined_strips(dir, other);
    assert(joined(dir, r).take(dir.len() as int) =~= dir);
    assert(joined(dir, r).skip(joined(dir, r).len() - r.len()) =~= r);
}

proof fn lemma_joined_strips(dir: Seq<u8>, r: Seq<u8>)
    requires
        absolute(dir),
        plain(r),
    ensures
        absolute(joined(dir, r)),
        relative_to(joined(dir, r), dir) == Some(r),
{
    if dir.last() == 47 {
        let e = dir.drop_last();
        assert(e.push(47) =~= dir);
        assert(e + seq![47u8] + r =~= joined(dir, r));
        lemma_stripped_of(e, true, r);
    } else {
        assert(dir + seq![47u8] + r =~= joined(dir, r));
        lemma_stripped_of(dir, false, r);
    }
}

proof fn lemma_ended(p: Seq<u8>)
    ensures
        ended(p).len() <= p.len(),
    decreases p.len(),
{
    if p.len() > 0 && (p.last() == 47 || (p.len() > 1 && p.last() == 46 && p[p.len() - 2] == 47)) {
        lemma_ended(p.drop_last());
    }
}

proof fn lemma_leaf(t: Seq<u8>, at: int, i: int)
    requires
        0 <= at <= i <= t.len(),
        at == 0 || t[at - 1] == 47,
        forall|k: int| at <= k < i ==> #[trigger] t[k] != 47,
    ensures
        leaf_start(t, i) == at,
    decreases i,
{
    if i > at {
        lemma_leaf(t, at, i - 1);
    }
}

/// A file in a folder is taken apart as it was put together: a plain name
/// joined to a folder is that name in that folder.
pub proof fn law_a_name_in_a_folder_is_found_there(dir: Seq<u8>, name: Seq<u8>)
    requires
        plain_name(name),
        dir == seq![47u8] || (dir.len() > 0 && ended(dir) == dir),
    ensures
        split(joined(dir, name)) == Some((dir, name)),
{
    let p = joined(dir, name);
    let at = p.len() - name.len();
    lemma_plain(name);
    assert(p.last() == name.last());
    assert(p[p.len() - 1] == name[name.len() - 1]);
    if name.len() > 1 {
        assert(p[p.len() - 2] == name[name.len() - 2]);
    }
    assert(name.len() == 1 ==> name[0] != 46);
    assert(ended(p) == p) by {
        if p.last() == 46 && name.len() > 1 {
            assert(name[name.len() - 2] != 47) by {
                if name[name.len() - 2] == 47 {
                    assert(name.contains(47u8));
                }
            }
        }
    }
    assert forall|k: int| at <= k < p.len() implies #[trigger] p[k] != 47 by {
        assert(p[k] == name[k - at]);
        assert(name.contains(name[k - at]));
    }
    assert(p[at - 1] == 47);
    lemma_leaf(p, at, p.len() as int);
    assert(p.skip(at) =~= name);
    assert(name != seq![46u8]) by {
        if name == seq![46u8] {
            assert(name[0] == 46 && name.len() == 1);
        }
    }
    if dir == seq![47u8] {
        assert(p.take(at) =~= dir);
        assert(dir.drop_last() =~= Seq::empty());
        assert(ended(dir).len() == 0) by {
            reveal_with_fuel(ended, 3);
        }
    } else {
        assert(dir.last() != 47) by {
            lemma_ended(dir.drop_last());
        }
        assert(p.take(at) =~= dir.push(47));
        assert(dir.push(47).drop_last() =~= dir);
        assert(ended(dir.push(47)) == dir);
    }
}

/// A path in another folder is not below this one: of two folders at the root
/// with different names, nothing in the one is relative to the other; and a
/// path that is absolute by itself is joined to nothing.
pub proof fn law_a_path_elsewhere_is_not_below_a_folder(
    a: Seq<u8>,
    b: Seq<u8>,
    r: Seq<u8>,
    dir: Seq<u8>,
)
    requires
        plain_name(a),
        plain_name(b),
        plain(r),
        a != b,
    ensures
        relative_to(joined(seq![47u8] + a, r), seq![47u8] + b) is None,
        joined(dir, seq![47u8] + r) == seq![47u8] + r,
{
    let (d, t) = (seq![47u8] + b, joined(seq![47u8] + a, r));
    lemma_plain(a);
    lemma_plain(b);
    let below = a + seq![47u8] + r;
    assert((seq![47u8] + a).last() == a.last());
    assert(t =~= seq![47u8] + below);
    assert(t.skip(1) =~= below);
    assert(led(t) == led(t.skip(1)));
    assert(led(below) == below) by {
        if a[0] == 46 {
            assert(a.len() > 1 && a[1] != 47);
            assert(below[1] == a[1]);
        }
        assert(below[0] == a[0]);
    }
    assert forall|i: int| 0 <= i < a.len() implies #[trigger] below[i] != 47 by {
        assert(a.contains(a[i]));
    }
    assert forall|i: int| 0 <= i < b.len() implies #[trigger] b[i] != 47 by {
        assert(b.contains(b[i]));
    }
    lemma_name_ends(below, 0, a.len() as int);
    lemma_name_ends(b, 0, b.len() as int);
    assert(below.take(a.len() as int) =~= a);
    assert(b.take(b.len() as int) =~= b);
}

proof fn lemma_name_ends(p: Seq<u8>, i: int, end: int)
    requires
        0 <= i <= end <= p.len(),
        end < p.len() ==> p[end] == 47,
        forall|k: int| i <= k < end ==> #[trigger] p[k] != 47,
    ensures
        name_end(p, i) == end,
    decreases end - i,
{
    if i < end {
        assert(p[i] != 47);
        lemma_name_ends(p, i + 1, end);
    }
}

} // verus!
