//! The browser: the folder tree, the selection, and the header cache.
//!
//! Nothing here knows a row count: [`Browser::view`] takes the height of the
//! viewport. And `view` is the only thing that asks for headers, so a fast
//! spin costs one open a redraw instead of one a detent; moving the selection
//! touches no file at all.
//!
//! Dotfiles are hidden, because a stick prepared on a Mac carries a broken
//! `._` twin beside every file. Nothing is filtered by extension: a file the
//! deck cannot play is shown, with the reason.

use core::cmp::Ordering;

use vstd::prelude::*;

use crate::file::{OpenError, Reject, TrackInfo, TrackView};
use crate::path::{join, joined};
use crate::text::{
    chars_of, code_of, copied, decimal_digits, number, same_bytes, text_lossy, text_of,
};

verus! {

// The order of names.

/// How one thing stands to another in an order.
#[derive(Debug, Clone, Copy, PartialEq, Eq, Structural)]
pub enum Relation {
    Before,
    Same,
    After,
}

pub open spec fn reversed(r: Relation) -> Relation {
    match r {
        Relation::Before => Relation::After,
        Relation::Same => Relation::Same,
        Relation::After => Relation::Before,
    }
}

pub open spec fn ascii_digit(c: char) -> bool {
    '0' <= c && c <= '9'
}

/// The first character `char::to_lowercase` yields.
pub uninterp spec fn lowercase_first(c: char) -> char;

/// `char::to_lowercase`: the first character of what it yields, which depends
/// on the character alone, or the character itself where it yields none.
#[verifier::external_body]
fn first_of_lowercase(c: char) -> (r: char)
    ensures
        r == lowercase_first(c),
{
    c.to_lowercase().next().unwrap_or(c)
}

/// A character with its case ignored. Digits have none, and nothing becomes
/// one.
pub open spec fn lowered(c: char) -> char {
    if ascii_digit(c) || ascii_digit(lowercase_first(c)) {
        c
    } else {
        lowercase_first(c)
    }
}

fn is_ascii_digit(c: char) -> (r: bool)
    ensures
        r == ascii_digit(c),
{
    let code: u32 = code_of(c);
    48 <= code && code <= 57
}

/// A character with its case ignored. The first character of a lower-case form
/// is enough for ordering.
fn lower(c: char) -> (r: char)
    ensures
        r == lowered(c),
{
    let l: char = first_of_lowercase(c);
    if is_ascii_digit(c) || is_ascii_digit(l) {
        c
    } else {
        l
    }
}

pub open spec fn char_order(a: char, b: char) -> Relation {
    if (a as int) < (b as int) {
        Relation::Before
    } else if a == b {
        Relation::Same
    } else {
        Relation::After
    }
}

/// Code point order, the shorter first where one starts the other.
pub open spec fn raw_order(a: Seq<char>, b: Seq<char>) -> Relation
    decreases a.len(),
{
    if a.len() == 0 {
        if b.len() == 0 {
            Relation::Same
        } else {
            Relation::Before
        }
    } else if b.len() == 0 {
        Relation::After
    } else {
        match char_order(a[0], b[0]) {
            Relation::Same => raw_order(a.skip(1), b.skip(1)),
            r => r,
        }
    }
}

/// Where the run of digits that starts at `i` ends.
pub open spec fn run_end(s: Seq<char>, i: int) -> int
    decreases s.len() - i,
{
    if i >= s.len() || !ascii_digit(s[i]) {
        i
    } else {
        run_end(s, i + 1)
    }
}

/// A run of digits without the zeros in front.
pub open spec fn significant(run: Seq<char>) -> Seq<char>
    decreases run.len(),
{
    if run.len() > 0 && run[0] == '0' {
        significant(run.skip(1))
    } else {
        run
    }
}

/// Two runs of digits compared as numbers: the longer is the larger, once the
/// leading zeros are gone, so a run of any length is compared without being
/// parsed.
pub open spec fn run_order(a: Seq<char>, b: Seq<char>) -> Relation {
    let x = significant(a);
    let y = significant(b);
    if x.len() < y.len() {
        Relation::Before
    } else if x.len() > y.len() {
        Relation::After
    } else {
        raw_order(x, y)
    }
}

/// Case-insensitive, with runs of digits compared as numbers.
pub open spec fn loose_order(a: Seq<char>, b: Seq<char>) -> Relation
    decreases a.len(),
{
    proof {
        lemma_run_end(a, 0);
    }
    if a.len() == 0 {
        if b.len() == 0 {
            Relation::Same
        } else {
            Relation::Before
        }
    } else if b.len() == 0 {
        Relation::After
    } else if ascii_digit(a[0]) && ascii_digit(b[0]) {
        let i = run_end(a, 0);
        let j = run_end(b, 0);
        match run_order(a.take(i), b.take(j)) {
            Relation::Same => loose_order(a.skip(i), b.skip(j)),
            r => r,
        }
    } else {
        match char_order(lowered(a[0]), lowered(b[0])) {
            Relation::Same => loose_order(a.skip(1), b.skip(1)),
            r => r,
        }
    }
}

/// The order of names: as [`loose_order`] has it, and as the code points have
/// it between two names that it cannot tell apart.
pub open spec fn natural_order(a: Seq<char>, b: Seq<char>) -> Relation {
    match loose_order(a, b) {
        Relation::Same => raw_order(a, b),
        r => r,
    }
}

pub proof fn lemma_run_end(s: Seq<char>, i: int)
    requires
        0 <= i <= s.len(),
    ensures
        i <= run_end(s, i) <= s.len(),
        i < s.len() && ascii_digit(s[i]) ==> i < run_end(s, i),
    decreases s.len() - i,
{
    if i < s.len() && ascii_digit(s[i]) {
        lemma_run_end(s, i + 1);
    }
}

fn compare_raw(a: &[char], b: &[char]) -> (r: Relation)
    ensures
        r == raw_order(a@, b@),
{
    let mut i: usize = 0;
    assert(a@.skip(0) =~= a@);
    assert(b@.skip(0) =~= b@);
    while i < a.len() && i < b.len() && a[i] == b[i]
        invariant
            i <= a@.len(),
            i <= b@.len(),
            raw_order(a@, b@) == raw_order(a@.skip(i as int), b@.skip(i as int)),
        decreases a@.len() - i,
    {
        assert(a@.skip(i as int).skip(1) =~= a@.skip(i + 1));
        assert(b@.skip(i as int).skip(1) =~= b@.skip(i + 1));
        i = i + 1;
    }
    if i == a.len() {
        if i == b.len() {
            Relation::Same
        } else {
            Relation::Before
        }
    } else if i == b.len() {
        Relation::After
    } else if code_of(a[i]) < code_of(b[i]) {
        Relation::Before
    } else {
        Relation::After
    }
}

/// How many digits stand at `from`.
fn take_digits(s: &[char], from: usize) -> (r: usize)
    requires
        from <= s@.len(),
    ensures
        from <= r <= s@.len(),
        r - from == run_end(s@.skip(from as int), 0),
{
    let mut i: usize = from;
    while i < s.len() && is_ascii_digit(s[i])
        invariant
            from <= i <= s@.len(),
            run_end(s@.skip(from as int), i - from) == run_end(s@.skip(from as int), 0),
        decreases s@.len() - i,
    {
        i = i + 1;
    }
    i
}

fn skip_zeros(run: &[char]) -> (r: usize)
    ensures
        r <= run@.len(),
        run@.skip(r as int) == significant(run@),
{
    let mut i: usize = 0;
    assert(run@.skip(0) =~= run@);
    while i < run.len() && run[i] == '0'
        invariant
            i <= run@.len(),
            significant(run@.skip(i as int)) == significant(run@),
        decreases run@.len() - i,
    {
        assert(run@.skip(i as int).skip(1) =~= run@.skip(i + 1));
        i = i + 1;
    }
    i
}

fn compare_digit_runs(a: &[char], b: &[char]) -> (r: Relation)
    ensures
        r == run_order(a@, b@),
{
    let i: usize = skip_zeros(a);
    let j: usize = skip_zeros(b);
    let x = vstd::slice::slice_subrange(a, i, a.len());
    let y = vstd::slice::slice_subrange(b, j, b.len());
    assert(x@ =~= significant(a@));
    assert(y@ =~= significant(b@));
    if x.len() < y.len() {
        Relation::Before
    } else if x.len() > y.len() {
        Relation::After
    } else {
        compare_raw(x, y)
    }
}

fn compare_loose(a: &[char], b: &[char]) -> (r: Relation)
    ensures
        r == loose_order(a@, b@),
{
    let mut i: usize = 0;
    let mut j: usize = 0;
    assert(a@.skip(0) =~= a@);
    assert(b@.skip(0) =~= b@);
    loop
        invariant
            i <= a@.len(),
            j <= b@.len(),
            loose_order(a@, b@) == loose_order(a@.skip(i as int), b@.skip(j as int)),
        decreases a@.len() - i,
    {
        let ghost x = a@.skip(i as int);
        let ghost y = b@.skip(j as int);
        if i == a.len() {
            return if j == b.len() {
                Relation::Same
            } else {
                Relation::Before
            };
        }
        if j == b.len() {
            return Relation::After;
        }
        if is_ascii_digit(a[i]) && is_ascii_digit(b[j]) {
            let ie: usize = take_digits(a, i);
            let je: usize = take_digits(b, j);
            let run_a = vstd::slice::slice_subrange(a, i, ie);
            let run_b = vstd::slice::slice_subrange(b, j, je);
            proof {
                lemma_run_end(x, 0);
                assert(run_a@ =~= x.take(ie - i));
                assert(run_b@ =~= y.take(je - j));
                assert(x.skip(ie - i) =~= a@.skip(ie as int));
                assert(y.skip(je - j) =~= b@.skip(je as int));
            }
            match compare_digit_runs(run_a, run_b) {
                Relation::Same => {
                    i = ie;
                    j = je;
                },
                other => {
                    return other;
                },
            }
        } else {
            let p: u32 = code_of(lower(a[i]));
            let q: u32 = code_of(lower(b[j]));
            if p < q {
                return Relation::Before;
            }
            if p > q {
                return Relation::After;
            }
            proof {
                assert(lowered(x[0]) == lowered(y[0]));
                assert(x.skip(1) =~= a@.skip(i + 1));
                assert(y.skip(1) =~= b@.skip(j + 1));
            }
            i = i + 1;
            j = j + 1;
        }
    }
}

fn compare_natural(a: &[char], b: &[char]) -> (r: Relation)
    ensures
        r == natural_order(a@, b@),
{
    match compare_loose(a, b) {
        // The same by the rules above: the code points decide, so that the
        // result is stable across reloads.
        Relation::Same => compare_raw(a, b),
        other => other,
    }
}

/// A relation as the standard library writes it.
pub open spec fn ordering_of(r: Relation) -> Ordering {
    match r {
        Relation::Before => Ordering::Less,
        Relation::Same => Ordering::Equal,
        Relation::After => Ordering::Greater,
    }
}

/// Case-insensitive, with runs of ASCII digits compared as numbers. A total
/// order: only a name itself compares equal to it.
pub fn natural_cmp(a: &str, b: &str) -> (r: Ordering)
    ensures
        r == ordering_of(natural_order(a@, b@)),
{
    let x = chars_of(a);
    let y = chars_of(b);
    match compare_natural(x.as_slice(), y.as_slice()) {
        Relation::Before => Ordering::Less,
        Relation::Same => Ordering::Equal,
        Relation::After => Ordering::Greater,
    }
}

// The order is total.

proof fn lemma_raw_reversed(a: Seq<char>, b: Seq<char>)
    ensures
        raw_order(b, a) == reversed(raw_order(a, b)),
        raw_order(a, b) == Relation::Same <==> a == b,
    decreases a.len(),
{
    if a.len() > 0 && b.len() > 0 {
        lemma_raw_reversed(a.skip(1), b.skip(1));
        if a[0] == b[0] && a.skip(1) == b.skip(1) {
            assert(a =~= seq![a[0]] + a.skip(1));
            assert(b =~= seq![b[0]] + b.skip(1));
        }
    } else if a.len() == 0 && b.len() == 0 {
        assert(a =~= b);
    }
}

/// Whether three relations are those of things in one order.
pub open spec fn chained(ab: Relation, bc: Relation, ac: Relation) -> bool {
    &&& ab == Relation::Same ==> ac == bc
    &&& bc == Relation::Same ==> ac == ab
    &&& ab == Relation::Before && bc == Relation::Before ==> ac == Relation::Before
    &&& ab == Relation::After && bc == Relation::After ==> ac == Relation::After
}

proof fn lemma_raw_chained(a: Seq<char>, b: Seq<char>, c: Seq<char>)
    ensures
        chained(raw_order(a, b), raw_order(b, c), raw_order(a, c)),
    decreases a.len(),
{
    if a.len() > 0 && b.len() > 0 && c.len() > 0 {
        lemma_raw_chained(a.skip(1), b.skip(1), c.skip(1));
    }
}

proof fn lemma_runs(a: Seq<char>, b: Seq<char>, c: Seq<char>)
    ensures
        run_order(b, a) == reversed(run_order(a, b)),
        chained(run_order(a, b), run_order(b, c), run_order(a, c)),
{
    lemma_raw_reversed(significant(a), significant(b));
    lemma_raw_chained(significant(a), significant(b), significant(c));
}

proof fn lemma_loose_reversed(a: Seq<char>, b: Seq<char>)
    ensures
        loose_order(b, a) == reversed(loose_order(a, b)),
    decreases a.len(),
{
    if a.len() > 0 && b.len() > 0 {
        if ascii_digit(a[0]) && ascii_digit(b[0]) {
            let i = run_end(a, 0);
            let j = run_end(b, 0);
            lemma_run_end(a, 0);
            lemma_run_end(b, 0);
            lemma_runs(a.take(i), b.take(j), a.take(i));
            lemma_loose_reversed(a.skip(i), b.skip(j));
        } else {
            lemma_loose_reversed(a.skip(1), b.skip(1));
        }
    }
}

proof fn lemma_loose_chained(a: Seq<char>, b: Seq<char>, c: Seq<char>)
    ensures
        chained(loose_order(a, b), loose_order(b, c), loose_order(a, c)),
    decreases a.len(),
{
    if a.len() > 0 && b.len() > 0 && c.len() > 0 {
        if ascii_digit(a[0]) && ascii_digit(b[0]) && ascii_digit(c[0]) {
            let i = run_end(a, 0);
            let j = run_end(b, 0);
            let k = run_end(c, 0);
            lemma_run_end(a, 0);
            lemma_run_end(b, 0);
            lemma_run_end(c, 0);
            lemma_runs(a.take(i), b.take(j), c.take(k));
            lemma_loose_chained(a.skip(i), b.skip(j), c.skip(k));
        } else {
            lemma_loose_chained(a.skip(1), b.skip(1), c.skip(1));
        }
    }
}

/// The order is total, so a reload cannot reshuffle rows: only a name itself
/// compares equal to it, the two ways of comparing two names agree, and three
/// names are always in one order.
pub proof fn law_the_order_of_names_is_total(a: Seq<char>, b: Seq<char>, c: Seq<char>)
    ensures
        natural_order(a, b) == Relation::Same <==> a == b,
        natural_order(b, a) == reversed(natural_order(a, b)),
        chained(natural_order(a, b), natural_order(b, c), natural_order(a, c)),
{
    lemma_raw_reversed(a, b);
    lemma_raw_chained(a, b, c);
    lemma_loose_reversed(a, b);
    lemma_loose_chained(a, b, c);
    lemma_raw_reversed(a, a);
    lemma_loose_reversed(a, a);
}

// Folders.

#[derive(Debug, Clone, Copy, PartialEq, Eq, Structural)]
pub enum EntryKind {
    Folder,
    File,
}

/// What a directory read says an item is.
#[derive(Debug, Clone, Copy, PartialEq, Eq, Structural)]
pub enum ItemKind {
    Is(EntryKind),
    /// Neither, a link say, with what it leads to where that can be told.
    Other(Option<EntryKind>),
    Unknown,
}

/// One thing a directory read yields, before anything is left out.
#[derive(Debug)]
pub struct Item {
    pub name: Vec<u8>,
    pub kind: ItemKind,
}

/// One thing in a folder.
#[derive(Debug)]
pub struct Entry {
    pub name: Vec<u8>,
    /// The name as it is shown and ordered.
    pub label: String,
    pub kind: EntryKind,
}

/// An entry as a mathematical value.
pub struct EntryView {
    pub name: Seq<u8>,
    pub kind: EntryKind,
}

impl View for Entry {
    type V = EntryView;

    open spec fn view(&self) -> EntryView {
        EntryView { name: self.name@, kind: self.kind }
    }
}

impl Entry {
    pub open spec fn wf(&self) -> bool {
        self.label@ == text_of(self.name@)
    }
}

/// What an item is shown as, if it is: dotfiles are hidden, and what cannot be
/// classified cannot be acted on either.
pub open spec fn shown_as(item: Item) -> Option<EntryView> {
    if item.name@.len() > 0 && item.name@[0] == 46 {
        None
    } else {
        match item.kind {
            ItemKind::Is(kind) => Some(EntryView { name: item.name@, kind }),
            ItemKind::Other(Some(kind)) => Some(EntryView { name: item.name@, kind }),
            ItemKind::Other(None) => None,
            ItemKind::Unknown => None,
        }
    }
}

/// Folders first, then files; each group in natural order.
pub open spec fn entry_order(a: EntryView, b: EntryView) -> Relation {
    match (a.kind, b.kind) {
        (EntryKind::Folder, EntryKind::File) => Relation::Before,
        (EntryKind::File, EntryKind::Folder) => Relation::After,
        _ => natural_order(text_of(a.name), text_of(b.name)),
    }
}

fn compare_entries(a: &Entry, b: &Entry) -> (r: Relation)
    requires
        a.wf(),
        b.wf(),
    ensures
        r == entry_order(a@, b@),
{
    match (a.kind, b.kind) {
        (EntryKind::Folder, EntryKind::File) => Relation::Before,
        (EntryKind::File, EntryKind::Folder) => Relation::After,
        _ => {
            let x: Vec<char> = chars_of(a.label.as_str());
            let y: Vec<char> = chars_of(b.label.as_str());
            compare_natural(x.as_slice(), y.as_slice())
        },
    }
}

/// Where `e` goes among entries in order: behind every one it does not come
/// before.
pub open spec fn place(es: Seq<EntryView>, e: EntryView) -> int
    decreases es.len(),
{
    if es.len() == 0 || entry_order(e, es.last()) != Relation::Before {
        es.len() as int
    } else {
        place(es.drop_last(), e)
    }
}

/// The entries of a folder, in order: each goes where it belongs among those
/// that were read before it.
pub open spec fn listed(items: Seq<Item>) -> Seq<EntryView>
    decreases items.len(),
{
    if items.len() == 0 {
        Seq::empty()
    } else {
        let es = listed(items.drop_last());
        match shown_as(items.last()) {
            Some(e) => es.insert(place(es, e), e),
            None => es,
        }
    }
}

pub open spec fn views(es: Seq<Entry>) -> Seq<EntryView> {
    es.map_values(|e: Entry| e@)
}

pub open spec fn all_wf(es: Seq<Entry>) -> bool {
    forall|i: int| 0 <= i < es.len() ==> (#[trigger] es[i]).wf()
}

proof fn lemma_place(es: Seq<EntryView>, e: EntryView)
    ensures
        0 <= place(es, e) <= es.len(),
    decreases es.len(),
{
    if es.len() > 0 && entry_order(e, es.last()) == Relation::Before {
        lemma_place(es.drop_last(), e);
    }
}

/// Lists one folder, from what a directory read yields.
pub fn read_folder(items: &Vec<Item>) -> (r: Vec<Entry>)
    ensures
        all_wf(r@),
        views(r@) == listed(items@),
{
    let mut out: Vec<Entry> = Vec::new();
    let mut n: usize = 0;
    assert(views(out@) =~= Seq::empty());
    while n < items.len()
        invariant
            n <= items@.len(),
            all_wf(out@),
            views(out@) == listed(items@.take(n as int)),
        decreases items@.len() - n,
    {
        let item: &Item = &items[n];
        proof {
            assert(items@.take(n + 1).drop_last() =~= items@.take(n as int));
            assert(items@.take(n + 1).last() == items@[n as int]);
        }
        let kind: Option<EntryKind> = if item.name.len() > 0 && item.name[0] == 46 {
            None
        } else {
            match item.kind {
                ItemKind::Is(kind) => Some(kind),
                ItemKind::Other(kind) => kind,
                ItemKind::Unknown => None,
            }
        };
        if let Some(kind) = kind {
            let name: Vec<u8> = copied(item.name.as_slice());
            let label: String = text_lossy(name.as_slice());
            let entry: Entry = Entry { name, label, kind };
            let ghost es = views(out@);
            let ghost e = entry@;
            let mut at: usize = out.len();
            assert(es.take(at as int) =~= es);
            while at > 0 && compare_entries(&entry, &out[at - 1]) == Relation::Before
                invariant
                    at <= out@.len(),
                    all_wf(out@),
                    entry.wf(),
                    e == entry@,
                    es == views(out@),
                    place(es.take(at as int), e) == place(es, e),
                decreases at,
            {
                assert(es.take(at as int).last() == es[at - 1]);
                assert(es.take(at as int).drop_last() =~= es.take(at - 1));
                at = at - 1;
            }
            proof {
                if at > 0 {
                    assert(es.take(at as int).last() == es[at - 1]);
                }
                assert(place(es.take(at as int), e) == at);
            }
            let ghost before = out@;
            out.insert(at, entry);
            proof {
                assert(views(out@) =~= es.insert(at as int, e));
                assert forall|i: int| 0 <= i < out@.len() implies (#[trigger] out@[i]).wf() by {
                    if i < at {
                        assert(out@[i] == before[i]);
                    } else if i > at {
                        assert(out@[i] == before[i - 1]);
                    }
                }
            }
        }
        n = n + 1;
    }
    assert(items@.take(items@.len() as int) =~= items@);
    out
}

// The listing is what it says it is.

pub open spec fn sorted(es: Seq<EntryView>) -> bool {
    forall|i: int, j: int|
        0 <= i < j < es.len() ==> entry_order(#[trigger] es[i], #[trigger] es[j])
            != Relation::After
}

proof fn lemma_entry_order(a: EntryView, b: EntryView, c: EntryView)
    ensures
        entry_order(b, a) == reversed(entry_order(a, b)),
        chained(entry_order(a, b), entry_order(b, c), entry_order(a, c)),
{
    law_the_order_of_names_is_total(text_of(a.name), text_of(b.name), text_of(c.name));
}

proof fn lemma_place_sorted(es: Seq<EntryView>, e: EntryView)
    requires
        sorted(es),
    ensures
        ({
            let at = place(es, e);
            &&& forall|i: int| 0 <= i < at ==> entry_order(#[trigger] es[i], e) != Relation::After
            &&& forall|i: int|
                at <= i < es.len() ==> entry_order(e, #[trigger] es[i]) == Relation::Before
        }),
    decreases es.len(),
{
    lemma_place(es, e);
    if es.len() > 0 {
        let last = es.last();
        if entry_order(e, last) == Relation::Before {
            let rest = es.drop_last();
            lemma_place_sorted(rest, e);
            assert forall|i: int| 0 <= i < place(es, e) implies entry_order(#[trigger] es[i], e)
                != Relation::After by {
                lemma_place(rest, e);
                assert(es[i] == rest[i]);
            }
            assert forall|i: int| place(es, e) <= i < es.len() implies entry_order(
                e,
                #[trigger] es[i],
            ) == Relation::Before by {
                if i < rest.len() {
                    assert(es[i] == rest[i]);
                }
            }
        } else {
            assert forall|i: int| 0 <= i < es.len() implies entry_order(#[trigger] es[i], e)
                != Relation::After by {
                lemma_entry_order(e, last, last);
                if i < es.len() - 1 {
                    assert(entry_order(es[i], es[es.len() - 1]) != Relation::After);
                    lemma_entry_order(es[i], last, e);
                }
            }
        }
    }
}

proof fn lemma_insert_sorted(es: Seq<EntryView>, e: EntryView)
    requires
        sorted(es),
    ensures
        sorted(es.insert(place(es, e), e)),
{
    let at = place(es, e);
    lemma_place(es, e);
    lemma_place_sorted(es, e);
    let out = es.insert(at, e);
    assert forall|i: int, j: int| 0 <= i < j < out.len() implies entry_order(
        #[trigger] out[i],
        #[trigger] out[j],
    ) != Relation::After by {
        if i < at && j == at {
            assert(out[i] == es[i]);
        } else if i == at {
            assert(out[j] == es[j - 1]);
        } else if j < at {
            assert(out[i] == es[i] && out[j] == es[j]);
        } else if i > at {
            assert(out[i] == es[i - 1] && out[j] == es[j - 1]);
        } else {
            assert(out[i] == es[i] && out[j] == es[j - 1]);
        }
    }
}

/// A folder is listed in order: folders before files, and each group as the
/// order of names has it.
pub proof fn law_a_listing_is_sorted(items: Seq<Item>)
    ensures
        sorted(listed(items)),
    decreases items.len(),
{
    if items.len() > 0 {
        law_a_listing_is_sorted(items.drop_last());
        if let Some(e) = shown_as(items.last()) {
            lemma_insert_sorted(listed(items.drop_last()), e);
        }
    }
}

/// How often an entry is among the items that are shown.
pub open spec fn times_shown(items: Seq<Item>, e: EntryView) -> nat
    decreases items.len(),
{
    if items.len() == 0 {
        0
    } else {
        times_shown(items.drop_last(), e) + if shown_as(items.last()) == Some(e) {
            1nat
        } else {
            0nat
        }
    }
}

/// Every item that is not hidden is listed, as often as it was read, and
/// nothing else is.
pub proof fn law_a_listing_keeps_every_entry(items: Seq<Item>, e: EntryView)
    ensures
        listed(items).to_multiset().count(e) == times_shown(items, e),
    decreases items.len(),
{
    broadcast use vstd::seq_lib::group_to_multiset_ensures;

    if items.len() > 0 {
        let es = listed(items.drop_last());
        law_a_listing_keeps_every_entry(items.drop_last(), e);
        if let Some(x) = shown_as(items.last()) {
            lemma_place(es, x);
            vstd::seq_lib::to_multiset_insert(es, place(es, x), x);
        }
    }
}

// Rows.

/// What the browser makes of one file, cached by path. `Unreadable` keeps the
/// message so the display can still say why.
#[derive(Debug)]
pub enum Verdict {
    Plays(TrackInfo),
    Refused(Reject),
    Unreadable(String),
}

/// A verdict as a mathematical value.
pub enum VerdictView {
    Plays(TrackView),
    Refused(Reject),
    Unreadable(Seq<char>),
}

impl View for Verdict {
    type V = VerdictView;

    open spec fn view(&self) -> VerdictView {
        match *self {
            Verdict::Plays(info) => VerdictView::Plays(info@),
            Verdict::Refused(why) => VerdictView::Refused(why),
            Verdict::Unreadable(why) => VerdictView::Unreadable(why@),
        }
    }
}

impl Verdict {
    fn duplicate(&self) -> (r: Verdict)
        ensures
            r@ == self@,
    {
        match self {
            Verdict::Plays(info) => Verdict::Plays(info.duplicate()),
            Verdict::Refused(why) => Verdict::Refused(*why),
            Verdict::Unreadable(why) => Verdict::Unreadable(why.clone()),
        }
    }
}

/// What opening a file's header came to. The same vetting as playback's, so
/// the two cannot disagree about whether something will play.
pub fn read_header(opened: Result<TrackInfo, OpenError>) -> (r: Verdict)
    ensures
        r@ == (match opened {
            Ok(info) => VerdictView::Plays(info@),
            Err(OpenError::Rejected(why)) => VerdictView::Refused(why),
            Err(OpenError::Unreadable(e)) => VerdictView::Unreadable(e.message@),
        }),
{
    match opened {
        Ok(info) => Verdict::Plays(info),
        Err(OpenError::Rejected(why)) => Verdict::Refused(why),
        Err(OpenError::Unreadable(e)) => Verdict::Unreadable(e.to_text()),
    }
}

/// One rendered row.
#[derive(Debug)]
pub enum Row {
    Folder { name: String, selected: bool },
    File { name: String, verdict: Verdict, selected: bool },
}

/// A row as a mathematical value.
pub struct RowView {
    pub name: Seq<char>,
    /// A folder has no verdict.
    pub verdict: Option<VerdictView>,
    pub selected: bool,
}

impl View for Row {
    type V = RowView;

    open spec fn view(&self) -> RowView {
        match *self {
            Row::Folder { name, selected } => RowView { name: name@, verdict: None, selected },
            Row::File { name, verdict, selected } => RowView {
                name: name@,
                verdict: Some(verdict@),
                selected,
            },
        }
    }
}

impl Row {
    pub fn name(&self) -> (r: &str)
        ensures
            r@ == self@.name,
    {
        match self {
            Row::Folder { name, .. } => name.as_str(),
            Row::File { name, .. } => name.as_str(),
        }
    }

    pub fn selected(&self) -> (r: bool)
        ensures
            r == self@.selected,
    {
        match self {
            Row::Folder { selected, .. } => *selected,
            Row::File { selected, .. } => *selected,
        }
    }
}

/// What pressing ENTER did.
#[derive(Debug)]
pub enum Activation {
    /// Descended into a folder. The view should be re-rendered.
    Descended,
    /// A playable file. The engine's cue to load it.
    Play(Box<TrackInfo>),
    /// A file that cannot be played, with which of the reasons applies.
    Refused(Reject),
    /// A file libsndfile could not open at all.
    Unreadable(String),
    /// An empty folder, so there is nothing under the selection.
    Nothing,
}

/// Why the browser could not do something. The stick going away is the
/// dominant cause and is not exceptional.
#[derive(Debug, Clone, PartialEq, Eq)]
pub enum BrowseError {
    /// The folder could not be read. Almost always the medium being removed.
    Unreadable { path: Vec<u8>, reason: String },
    /// A path that resolved outside the root.
    OutsideRoot { path: Vec<u8> },
}

impl BrowseError {
    pub open spec fn text(self) -> Seq<char> {
        match self {
            BrowseError::Unreadable { path, reason } => text_of(path@) + ": "@ + reason@,
            BrowseError::OutsideRoot { path } => text_of(path@) + " resolves outside the medium"@,
        }
    }

    pub fn to_text(&self) -> (r: String)
        ensures
            r@ == self.text(),
    {
        match self {
            BrowseError::Unreadable { path, reason } => {
                let mut out: String = text_lossy(path.as_slice());
                out.append(": ");
                out.append(reason.as_str());
                out
            },
            BrowseError::OutsideRoot { path } => {
                let mut out: String = text_lossy(path.as_slice());
                out.append(" resolves outside the medium");
                out
            },
        }
    }
}

/// A header that has been read.
#[derive(Debug)]
pub struct Header {
    pub path: Vec<u8>,
    pub verdict: Verdict,
}

/// What the cache says of a path.
pub open spec fn known(headers: Seq<Header>, path: Seq<u8>) -> Option<VerdictView>
    decreases headers.len(),
{
    if headers.len() == 0 {
        None
    } else if headers.last().path@ == path {
        Some(headers.last().verdict@)
    } else {
        known(headers.drop_last(), path)
    }
}

fn lookup(headers: &Vec<Header>, path: &[u8]) -> (r: Option<Verdict>)
    ensures
        r matches Some(v) ==> known(headers@, path@) == Some(v@),
        r is None ==> known(headers@, path@) is None,
{
    let mut i: usize = headers.len();
    assert(headers@.take(i as int) =~= headers@);
    while i > 0
        invariant
            i <= headers@.len(),
            known(headers@.take(i as int), path@) == known(headers@, path@),
        decreases i,
    {
        assert(headers@.take(i as int).last() == headers@[i - 1]);
        assert(headers@.take(i as int).drop_last() =~= headers@.take(i - 1));
        if same_bytes(headers[i - 1].path.as_slice(), path) {
            return Some(headers[i - 1].verdict.duplicate());
        }
        i = i - 1;
    }
    None
}

/// What must be read from the medium before a press can be answered.
#[derive(Debug)]
pub enum Needs {
    Nothing,
    /// The folder at this path.
    Folder(Vec<u8>),
    /// The header of the file at this path.
    Header(Vec<u8>),
}

/// What was read from it.
#[derive(Debug)]
pub enum Fetched {
    Nothing,
    /// A directory read, or why there was none.
    Folder(Result<Vec<Item>, String>),
    Header(Verdict),
}

/// What a render gives: the rows, or the file whose header it needs first.
#[derive(Debug)]
pub enum Shown {
    Rows(Vec<Row>),
    Unread(Vec<u8>),
}

/// The top row that keeps `selected` inside a viewport of `height` rows over
/// `len` entries, from where it was: moved by the minimum, and never so far
/// down that rows at the bottom are blank while entries above could fill them.
pub open spec fn scrolled(first: int, selected: int, len: int, height: int) -> int {
    let kept = if selected < first {
        selected
    } else if selected >= first + height {
        selected + 1 - height
    } else {
        first
    };
    let max_first = if len > height {
        len - height
    } else {
        0
    };
    if kept < max_first {
        kept
    } else {
        max_first
    }
}

/// A path below the root, from the names that lead there.
pub open spec fn path_of(root: Seq<u8>, below: Seq<Vec<u8>>) -> Seq<u8>
    decreases below.len(),
{
    if below.len() == 0 {
        root
    } else {
        joined(path_of(root, below.drop_last()), below.last()@)
    }
}

/// Where a name stands among entries, or zero where it does not.
pub open spec fn found(es: Seq<EntryView>, name: Option<Seq<u8>>, from: int) -> int
    decreases es.len() - from,
{
    if from >= es.len() || name is None {
        0
    } else if es[from].name == name->0 {
        from
    } else {
        found(es, name, from + 1)
    }
}

#[derive(Debug)]
pub struct Browser {
    /// The mount point. Nothing above this is reachable.
    pub root: Vec<u8>,
    /// The names of the folders descended into, from the root down.
    pub below: Vec<Vec<u8>>,
    pub entries: Vec<Entry>,
    pub selected: usize,
    /// The top visible row, held here so that scrolling is stable.
    pub first: usize,
    /// The headers read so far.
    pub headers: Vec<Header>,
}

impl Browser {
    pub open spec fn wf(&self) -> bool {
        &&& all_wf(self.entries@)
        &&& self.selected < self.entries@.len() || (self.selected == 0 && self.entries@.len() == 0)
        &&& self.first <= self.entries@.len()
    }

    pub open spec fn cwd(&self) -> Seq<u8> {
        path_of(self.root@, self.below@)
    }

    pub open spec fn listing(&self) -> Seq<EntryView> {
        views(self.entries@)
    }

    /// The path of an entry of this folder.
    pub open spec fn entry_path(&self, i: int) -> Seq<u8> {
        joined(self.cwd(), self.entries@[i].name@)
    }

    /// The name under the selection.
    pub open spec fn chosen(&self) -> Option<Seq<u8>> {
        if self.entries@.len() > 0 {
            Some(self.entries@[self.selected as int].name@)
        } else {
            None
        }
    }

    /// Opens the medium's root folder.
    pub fn open(root: &[u8], listing: Result<Vec<Item>, String>) -> (r: Result<
        Browser,
        BrowseError,
    >)
        ensures
            match r {
                Ok(b) => {
                    &&& b.wf()
                    &&& b.root@ == root@
                    &&& b.below@.len() == 0
                    &&& listing matches Ok(items) && b.listing() == listed(items@)
                    &&& b.selected == 0
                    &&& b.first == 0
                    &&& b.headers@.len() == 0
                },
                Err(BrowseError::Unreadable { path, reason }) => path@ == root@
                    && listing == Err::<Vec<Item>, String>(reason),
                Err(_) => false,
            },
    {
        match listing {
            Ok(items) => Ok(
                Browser {
                    root: copied(root),
                    below: Vec::new(),
                    entries: read_folder(&items),
                    selected: 0,
                    first: 0,
                    headers: Vec::new(),
                },
            ),
            Err(reason) => Err(BrowseError::Unreadable { path: copied(root), reason }),
        }
    }

    /// Takes a fresh read of the current folder, keeping the selection on the
    /// same name where it is still there. The header cache is kept: a path on
    /// a read-only medium cannot have changed underneath.
    pub fn reload(&mut self, listing: Result<Vec<Item>, String>) -> (r: Result<(), BrowseError>)
        requires
            old(self).wf(),
        ensures
            final(self).wf(),
            final(self).root == old(self).root,
            final(self).below == old(self).below,
            final(self).headers == old(self).headers,
            match r {
                Ok(()) => {
                    &&& listing matches Ok(items) && final(self).listing() == listed(items@)
                    &&& final(self).selected == found(final(self).listing(), old(self).chosen(), 0)
                    &&& final(self).first == 0
                },
                Err(BrowseError::Unreadable { path, reason }) => {
                    &&& path@ == old(self).cwd()
                    &&& listing == Err::<Vec<Item>, String>(reason)
                    &&& *final(self) == *old(self)
                },
                Err(_) => false,
            },
    {
        match listing {
            Ok(items) => {
                let name: Option<Vec<u8>> = if self.entries.len() > 0 {
                    Some(copied(self.entries[self.selected].name.as_slice()))
                } else {
                    None
                };
                self.entries = read_folder(&items);
                self.selected = self.position_of(name);
                self.first = 0;
                Ok(())
            },
            Err(reason) => Err(BrowseError::Unreadable { path: self.path(), reason }),
        }
    }

    fn position_of(&self, name: Option<Vec<u8>>) -> (r: usize)
        ensures
            r == found(
                self.listing(),
                match name {
                    Some(n) => Some(n@),
                    None => None,
                },
                0,
            ),
            r < self.entries@.len() || r == 0,
    {
        match &name {
            None => 0,
            Some(n) => {
                let mut i: usize = 0;
                while i < self.entries.len()
                    invariant
                        i <= self.entries@.len(),
                        name == Some(*n),
                        found(self.listing(), Some(n@), 0) == found(
                            self.listing(),
                            Some(n@),
                            i as int,
                        ),
                    decreases self.entries@.len() - i,
                {
                    if same_bytes(self.entries[i].name.as_slice(), n.as_slice()) {
                        return i;
                    }
                    i = i + 1;
                }
                0
            },
        }
    }

    /// The folder that is listed.
    pub fn path(&self) -> (r: Vec<u8>)
        ensures
            r@ == self.cwd(),
    {
        let mut out: Vec<u8> = copied(self.root.as_slice());
        let mut i: usize = 0;
        assert(self.below@.take(0) =~= Seq::empty());
        while i < self.below.len()
            invariant
                i <= self.below@.len(),
                out@ == path_of(self.root@, self.below@.take(i as int)),
            decreases self.below@.len() - i,
        {
            proof {
                assert(self.below@.take(i + 1).drop_last() =~= self.below@.take(i as int));
                assert(self.below@.take(i + 1).last() == self.below@[i as int]);
            }
            out = join(out.as_slice(), self.below[i].as_slice());
            i = i + 1;
        }
        assert(self.below@.take(self.below@.len() as int) =~= self.below@);
        out
    }

    pub fn root(&self) -> (r: &[u8])
        ensures
            r@ == self.root@,
    {
        self.root.as_slice()
    }

    pub fn at_root(&self) -> (r: bool)
        ensures
            r == (self.below@.len() == 0),
    {
        self.below.len() == 0
    }

    pub fn len(&self) -> (r: usize)
        ensures
            r == self.listing().len(),
    {
        self.entries.len()
    }

    pub fn is_empty(&self) -> (r: bool)
        ensures
            r == (self.listing().len() == 0),
    {
        self.entries.len() == 0
    }

    pub fn selected_index(&self) -> (r: usize)
        ensures
            r == self.selected,
    {
        self.selected
    }

    /// The path under the selection, or `None` in an empty folder.
    pub fn selected_path(&self) -> (r: Option<Vec<u8>>)
        requires
            self.wf(),
        ensures
            r is None <==> self.listing().len() == 0,
            r matches Some(p) ==> p@ == self.entry_path(self.selected as int),
    {
        if self.entries.len() == 0 {
            return None;
        }
        Some(join(self.path().as_slice(), self.entries[self.selected].name.as_slice()))
    }

    /// Moves the selection down one row. Reads nothing, and does not wrap:
    /// arriving back at the top would be indistinguishable from a mis-scroll.
    pub fn select_next(&mut self)
        requires
            old(self).wf(),
        ensures
            final(self).wf(),
            *final(self) == (Browser {
                selected: if old(self).selected + 1 < old(self).entries@.len() {
                    (old(self).selected + 1) as usize
                } else {
                    old(self).selected
                },
                ..*old(self)
            }),
    {
        if self.selected < self.entries.len() && self.selected + 1 < self.entries.len() {
            self.selected = self.selected + 1;
        }
    }

    /// Moves the selection up one row. Reads nothing.
    pub fn select_prev(&mut self)
        requires
            old(self).wf(),
        ensures
            final(self).wf(),
            *final(self) == (Browser {
                selected: if old(self).selected > 0 {
                    (old(self).selected - 1) as usize
                } else {
                    0
                },
                ..*old(self)
            }),
    {
        if self.selected > 0 {
            self.selected = self.selected - 1;
        }
    }

    /// The row an entry renders as, with what is known of it.
    pub open spec fn row(&self, i: int) -> RowView {
        RowView {
            name: text_of(self.entries@[i].name@),
            verdict: if self.entries@[i].kind == EntryKind::Folder {
                None
            } else {
                known(self.headers@, self.entry_path(i))
            },
            selected: i == self.selected,
        }
    }

    /// An entry is a file whose header has not been read.
    pub open spec fn unread(&self, i: int) -> bool {
        self.entries@[i].kind == EntryKind::File && known(self.headers@, self.entry_path(i)) is None
    }

    /// One past the last row shown.
    pub open spec fn shown_end(&self, height: int) -> int {
        if self.first + height < self.entries@.len() {
            self.first + height
        } else {
            self.entries@.len() as int
        }
    }

    /// Renders `height` rows: scrolls the viewport only as far as it must to
    /// keep the selection inside it, and gives the rows, or the first file
    /// among exactly those rows whose header has to be read first.
    pub fn view(&mut self, height: usize) -> (r: Shown)
        requires
            old(self).wf(),
        ensures
            final(self).wf(),
            *final(self) == (Browser { first: final(self).first, ..*old(self) }),
            height == 0 || old(self).entries@.len() == 0 ==> *final(self) == *old(self)
                && (r matches Shown::Rows(rows) && rows@.len() == 0),
            height > 0 && old(self).entries@.len() > 0 ==> {
                let b = *final(self);
                &&& b.first == scrolled(
                    old(self).first as int,
                    old(self).selected as int,
                    old(self).entries@.len() as int,
                    height as int,
                )
                &&& match r {
                    Shown::Rows(rows) => {
                        &&& rows@.len() == b.shown_end(height as int) - b.first
                        &&& forall|i: int|
                            0 <= i < rows@.len() ==> (#[trigger] rows@[i])@ == b.row(b.first + i)
                        &&& forall|i: int|
                            b.first <= i < b.shown_end(height as int) ==> !(#[trigger] b.unread(i))
                    },
                    Shown::Unread(path) => exists|i: int|
                        {
                            &&& b.first <= i < b.shown_end(height as int)
                            &&& #[trigger] b.unread(i)
                            &&& path@ == b.entry_path(i)
                            &&& forall|k: int| b.first <= k < i ==> !(#[trigger] b.unread(k))
                        },
                }
            },
    {
        if height == 0 || self.entries.len() == 0 {
            return Shown::Rows(Vec::new());
        }
        let len: usize = self.entries.len();
        // Keep the selection visible, moving the window by the minimum.
        if self.selected < self.first {
            self.first = self.selected;
        } else if self.selected - self.first >= height {
            self.first = self.selected - (height - 1);
        }
        // And never leave blank rows at the bottom while there are entries
        // above that could fill them.
        let max_first: usize = if len > height {
            len - height
        } else {
            0
        };
        if self.first > max_first {
            self.first = max_first;
        }
        let last: usize = if len - self.first > height {
            self.first + height
        } else {
            len
        };
        let cwd: Vec<u8> = self.path();
        let mut rows: Vec<Row> = Vec::new();
        let mut i: usize = self.first;
        while i < last
            invariant
                self.wf(),
                *self == (Browser { first: self.first, ..*old(self) }),
                height > 0,
                self.entries@.len() > 0,
                self.first == scrolled(
                    old(self).first as int,
                    self.selected as int,
                    self.entries@.len() as int,
                    height as int,
                ),
                self.first <= i <= last,
                last == self.shown_end(height as int),
                last <= self.entries@.len(),
                cwd@ == self.cwd(),
                rows@.len() == i - self.first,
                forall|k: int|
                    0 <= k < rows@.len() ==> (#[trigger] rows@[k])@ == self.row(self.first + k),
                forall|k: int| self.first <= k < i ==> !(#[trigger] self.unread(k)),
            decreases last - i,
        {
            let name: String = self.entries[i].label.clone();
            let selected: bool = i == self.selected;
            match self.entries[i].kind {
                EntryKind::Folder => {
                    rows.push(Row::Folder { name, selected });
                },
                EntryKind::File => {
                    let path: Vec<u8> = join(cwd.as_slice(), self.entries[i].name.as_slice());
                    match lookup(&self.headers, path.as_slice()) {
                        Some(verdict) => {
                            rows.push(Row::File { name, verdict, selected });
                        },
                        None => {
                            assert(self.unread(i as int));
                            return Shown::Unread(path);
                        },
                    }
                },
            }
            assert(rows@[rows@.len() - 1]@ == self.row(i as int));
            assert(!self.unread(i as int));
            i = i + 1;
        }
        Shown::Rows(rows)
    }

    /// Caches what a header came to, once a path.
    pub fn learn(&mut self, path: Vec<u8>, verdict: Verdict)
        requires
            old(self).wf(),
        ensures
            final(self).wf(),
            *final(self) == (Browser { headers: final(self).headers, ..*old(self) }),
            known(old(self).headers@, path@) is Some ==> final(self).headers == old(self).headers,
            known(old(self).headers@, path@) is None ==> final(self).headers@ == old(self).headers@.push(Header { path, verdict }),
    {
        match lookup(&self.headers, path.as_slice()) {
            Some(_) => {},
            None => {
                self.headers.push(Header { path, verdict });
            },
        }
    }

    /// The top visible row, for a scrollbar.
    pub fn first_visible(&self) -> (r: usize)
        ensures
            r == self.first,
    {
        self.first
    }

    /// How many files have been read.
    pub fn headers_read(&self) -> (r: usize)
        ensures
            r == self.headers@.len(),
    {
        self.headers.len()
    }

    /// What ENTER needs from the medium.
    pub open spec fn need(&self) -> Option<EntryKind> {
        if self.entries@.len() == 0 {
            None
        } else if self.entries@[self.selected as int].kind == EntryKind::Folder {
            Some(EntryKind::Folder)
        } else if self.unread(self.selected as int) {
            Some(EntryKind::File)
        } else {
            None
        }
    }

    /// What has to be read before ENTER can be answered: a folder to descend
    /// into, or a header no render has read yet.
    pub fn enter_needs(&self) -> (r: Needs)
        requires
            self.wf(),
        ensures
            match r {
                Needs::Nothing => self.need() is None,
                Needs::Folder(path) => self.need() == Some(EntryKind::Folder) && path@
                    == self.entry_path(self.selected as int),
                Needs::Header(path) => self.need() == Some(EntryKind::File) && path@
                    == self.entry_path(self.selected as int),
            },
    {
        if self.entries.len() == 0 {
            return Needs::Nothing;
        }
        let path: Vec<u8> = join(
            self.path().as_slice(),
            self.entries[self.selected].name.as_slice(),
        );
        match self.entries[self.selected].kind {
            EntryKind::Folder => Needs::Folder(path),
            EntryKind::File => match lookup(&self.headers, path.as_slice()) {
                Some(_) => Needs::Nothing,
                None => Needs::Header(path),
            },
        }
    }

    /// ENTER: descend into the selection, or hand a playable file over.
    pub fn enter(&mut self, got: Fetched) -> (r: Result<Activation, BrowseError>)
        requires
            old(self).wf(),
            got is Folder <==> old(self).need() == Some(EntryKind::Folder),
            got is Header <==> old(self).need() == Some(EntryKind::File),
        ensures
            final(self).wf(),
            final(self).root == old(self).root,
            match got {
                Fetched::Folder(Ok(items)) => {
                    &&& r matches Ok(Activation::Descended)
                    &&& final(self).cwd() == old(self).entry_path(old(self).selected as int)
                    &&& final(self).below@.len() == old(self).below@.len() + 1
                    &&& final(self).below@.drop_last() == old(self).below@
                    &&& final(self).below@.last()@ == old(self).entries@[old(self).selected as int].name@
                    &&& final(self).listing() == listed(items@)
                    &&& final(self).selected == 0
                    &&& final(self).first == 0
                    &&& final(self).headers == old(self).headers
                },
                Fetched::Folder(Err(why)) => {
                    &&& r matches Err(BrowseError::Unreadable { path, reason }) && path@ == old(self).entry_path(old(self).selected as int) && reason == why
                    &&& *final(self) == *old(self)
                },
                Fetched::Header(verdict) => {
                    &&& activates(r, verdict@)
                    &&& *final(self) == (Browser { headers: final(self).headers, ..*old(self) })
                    &&& final(self).headers@.len() == old(self).headers@.len() + 1
                    &&& final(self).headers@.drop_last() == old(self).headers@
                    &&& final(self).headers@.last().path@ == old(self).entry_path(
                        old(self).selected as int,
                    )
                    &&& known(
                        final(self).headers@,
                        old(self).entry_path(old(self).selected as int),
                    ) == Some(verdict@)
                },
                Fetched::Nothing => {
                    &&& *final(self) == *old(self)
                    &&& old(self).entries@.len() == 0 ==> (r matches Ok(Activation::Nothing))
                    &&& old(self).entries@.len() > 0 ==> activates(
                        r,
                        known(
                            old(self).headers@,
                            old(self).entry_path(old(self).selected as int),
                        )->0,
                    )
                },
            },
    {
        if self.entries.len() == 0 {
            return Ok(Activation::Nothing);
        }
        let cwd: Vec<u8> = self.path();
        let path: Vec<u8> = join(cwd.as_slice(), self.entries[self.selected].name.as_slice());
        let verdict: Verdict = match got {
            Fetched::Folder(Err(reason)) => {
                return Err(BrowseError::Unreadable { path, reason });
            },
            Fetched::Folder(Ok(items)) => {
                let name: Vec<u8> = copied(self.entries[self.selected].name.as_slice());
                let ghost above = self.below@;
                self.below.push(name);
                assert(self.below@.drop_last() =~= above);
                self.entries = read_folder(&items);
                self.selected = 0;
                self.first = 0;
                return Ok(Activation::Descended);
            },
            Fetched::Header(verdict) => {
                let ghost before = self.headers@;
                let copy: Verdict = verdict.duplicate();
                self.headers.push(Header { path, verdict });
                assert(self.headers@.drop_last() =~= before);
                copy
            },
            Fetched::Nothing => match lookup(&self.headers, path.as_slice()) {
                Some(verdict) => verdict,
                None => {
                    assert(false);
                    return Ok(Activation::Nothing);
                },
            },
        };
        match verdict {
            Verdict::Plays(info) => Ok(Activation::Play(Box::new(info))),
            Verdict::Refused(why) => Ok(Activation::Refused(why)),
            Verdict::Unreadable(why) => Ok(Activation::Unreadable(why)),
        }
    }

    /// The folder above, which BACK needs a read of; none at the root.
    pub fn back_needs(&self) -> (r: Option<Vec<u8>>)
        ensures
            r is None <==> self.below@.len() == 0,
            r matches Some(p) ==> p@ == path_of(self.root@, self.below@.drop_last()),
    {
        if self.below.len() == 0 {
            return None;
        }
        let mut out: Vec<u8> = copied(self.root.as_slice());
        let mut i: usize = 0;
        let ghost above = self.below@.drop_last();
        assert(above.take(0) =~= Seq::empty());
        while self.below.len() - i > 1
            invariant
                i + 1 <= self.below@.len(),
                above == self.below@.drop_last(),
                out@ == path_of(self.root@, above.take(i as int)),
            decreases self.below@.len() - i,
        {
            proof {
                assert(above.take(i + 1).drop_last() =~= above.take(i as int));
                assert(above.take(i + 1).last() == self.below@[i as int]);
            }
            out = join(out.as_slice(), self.below[i].as_slice());
            i = i + 1;
        }
        assert(above.take(above.len() as int) =~= above);
        Some(out)
    }

    /// BACK: up one level. Answers false at the root, where there is nowhere
    /// to go: the medium's root is the top of the tree. The selection goes
    /// onto the folder just left.
    pub fn back(&mut self, listing: Result<Vec<Item>, String>) -> (r: Result<bool, BrowseError>)
        requires
            old(self).wf(),
        ensures
            final(self).wf(),
            final(self).root == old(self).root,
            final(self).headers == old(self).headers,
            old(self).below@.len() == 0 ==> r == Ok::<bool, BrowseError>(false) && *final(self)
                == *old(self),
            old(self).below@.len() > 0 ==> match r {
                Ok(up) => {
                    &&& up
                    &&& listing matches Ok(items) && final(self).listing() == listed(items@)
                    &&& final(self).below@ == old(self).below@.drop_last()
                    &&& final(self).selected == found(
                        final(self).listing(),
                        Some(old(self).below@.last()@),
                        0,
                    )
                    &&& final(self).first == 0
                },
                Err(BrowseError::Unreadable { path, reason }) => {
                    &&& path@ == path_of(old(self).root@, old(self).below@.drop_last())
                    &&& listing == Err::<Vec<Item>, String>(reason)
                    &&& *final(self) == *old(self)
                },
                Err(_) => false,
            },
    {
        let parent: Vec<u8> = match self.back_needs() {
            Some(p) => p,
            None => {
                return Ok(false);
            },
        };
        match listing {
            Ok(items) => {
                let left: Option<Vec<u8>> = self.below.pop();
                self.entries = read_folder(&items);
                self.selected = self.position_of(left);
                self.first = 0;
                Ok(true)
            },
            Err(reason) => Err(BrowseError::Unreadable { path: parent, reason }),
        }
    }
}

/// What ENTER answers for a file of this verdict.
pub open spec fn activates(r: Result<Activation, BrowseError>, v: VerdictView) -> bool {
    match r {
        Ok(Activation::Play(info)) => v == VerdictView::Plays(info@),
        Ok(Activation::Refused(why)) => v == VerdictView::Refused(why),
        Ok(Activation::Unreadable(why)) => v == VerdictView::Unreadable(why@),
        _ => false,
    }
}

/// The selection is always inside the viewport, no row at the bottom is blank
/// while entries above could fill it, and the viewport does not move when it
/// need not.
pub proof fn law_the_selection_stays_visible(first: int, selected: int, len: int, height: int)
    requires
        0 <= selected < len,
        0 <= first,
        height > 0,
    ensures
        ({
            let top = scrolled(first, selected, len, height);
            &&& 0 <= top <= selected < top + height
            &&& top + height <= len || top == 0
            &&& first <= selected < first + height && (first + height <= len || first == 0)
                ==> top == first
        }),
{
}

/// Stepping past the edge of the viewport scrolls it by one row.
pub proof fn law_scrolling_is_by_one(first: int, len: int, height: int)
    requires
        0 <= first,
        height > 0,
        first + height < len,
    ensures
        scrolled(first, first + height, len, height) == first + 1,
        scrolled(first + 1, first, len, height) == first,
{
}

proof fn lemma_found(es: Seq<EntryView>, i: int, from: int)
    requires
        0 <= from <= i < es.len(),
        forall|k: int| 0 <= k < i ==> (#[trigger] es[k]).name != es[i].name,
    ensures
        found(es, Some(es[i].name), from) == i,
    decreases i - from,
{
    if from < i {
        lemma_found(es, i, from + 1);
    }
}

/// A name goes back to its row: a reload keeps the selection on the entry it
/// was on, and BACK after ENTER returns to the folder just left, wherever a
/// fresh read of the folder puts it, and no name in a folder occurs twice.
pub proof fn law_the_selection_follows_its_name(es: Seq<EntryView>, i: int)
    requires
        0 <= i < es.len(),
        forall|k: int, l: int|
            0 <= k < l < es.len() ==> (#[trigger] es[k]).name != (#[trigger] es[l]).name,
    ensures
        found(es, Some(es[i].name), 0) == i,
{
    lemma_found(es, i, 0);
}

/// A power of ten.
pub open spec fn tens(n: nat) -> nat
    decreases n,
{
    if n == 0 {
        1
    } else {
        10 * tens((n - 1) as nat)
    }
}

/// The first digit of a run is worth a power of ten, and the rest less than
/// that.
proof fn lemma_first_digit(x: Seq<char>)
    requires
        decimal_digits(x),
        x.len() > 0,
    ensures
        number(x) == (x[0] as int - 48) * tens((x.len() - 1) as nat) + number(x.skip(1)),
        number(x.skip(1)) < tens((x.len() - 1) as nat),
        decimal_digits(x.skip(1)),
    decreases x.len(),
{
    let rest = x.skip(1);
    assert forall|i: int| 0 <= i < rest.len() implies 48 <= #[trigger] rest[i] as int <= 57 by {
        assert(rest[i] == x[i + 1]);
    }
    if x.len() == 1 {
        assert(x.drop_last() =~= Seq::empty());
        assert(rest =~= Seq::empty());
        assert(number(x.drop_last()) == 0);
        assert(48 <= x[0] as int <= 57);
        assert((x[0] as int - 48) * 1 == x[0] as int - 48);
    } else {
        let front = x.drop_last();
        assert forall|i: int| 0 <= i < front.len() implies 48 <= #[trigger] front[i] as int
            <= 57 by {
            assert(front[i] == x[i]);
        }
        lemma_first_digit(front);
        assert(front.skip(1) =~= rest.drop_last());
        assert(rest.last() == x.last());
        assert(48 <= x[x.len() - 1] as int <= 57);
        assert(48 <= x[0] as int <= 57);
        let d = x[0] as int - 48;
        let t = tens((x.len() - 2) as nat) as int;
        assert(tens((x.len() - 1) as nat) == 10 * t);
        assert(10 * (d * t) == d * (10 * t)) by (nonlinear_arith);
    }
}

proof fn lemma_tens_grow(a: nat, b: nat)
    requires
        a <= b,
    ensures
        0 < tens(a) <= tens(b),
    decreases b,
{
    if a < b {
        lemma_tens_grow(a, (b - 1) as nat);
    } else if b > 0 {
        lemma_tens_grow((a - 1) as nat, (b - 1) as nat);
    }
}

/// The zeros in front of a run are worth nothing, and without them its first
/// digit is worth something.
proof fn lemma_significant(run: Seq<char>)
    requires
        decimal_digits(run),
    ensures
        decimal_digits(significant(run)),
        number(significant(run)) == number(run),
        significant(run).len() <= run.len(),
        significant(run).len() > 0 ==> 49 <= significant(run)[0] as int <= 57,
        significant(run).len() > 0 ==> number(run) >= tens((significant(run).len() - 1) as nat),
        number(run) < tens(significant(run).len()),
    decreases run.len(),
{
    if run.len() > 0 {
        lemma_first_digit(run);
        assert(48 <= run[0] as int <= 57);
        if run[0] == '0' {
            lemma_significant(run.skip(1));
            assert((run[0] as int - 48) * tens((run.len() - 1) as nat) == 0) by (nonlinear_arith)
                requires
                    run[0] as int == 48,
            ;
        } else {
            let d = run[0] as int - 48;
            let t = tens((run.len() - 1) as nat) as int;
            assert(run[0] as int != 48);
            assert(d * t >= t && d * t + t <= 10 * t) by (nonlinear_arith)
                requires
                    1 <= d <= 9,
                    t >= 0,
            ;
        }
    }
}

/// Two runs of as many digits stand as the numbers they denote.
proof fn lemma_raw_is_by_number(x: Seq<char>, y: Seq<char>)
    requires
        decimal_digits(x),
        decimal_digits(y),
        x.len() == y.len(),
    ensures
        raw_order(x, y) == Relation::Before <==> number(x) < number(y),
        raw_order(x, y) == Relation::Same <==> number(x) == number(y),
    decreases x.len(),
{
    if x.len() > 0 {
        lemma_first_digit(x);
        lemma_first_digit(y);
        lemma_raw_is_by_number(x.skip(1), y.skip(1));
        let t = tens((x.len() - 1) as nat) as int;
        let a = x[0] as int - 48;
        let b = y[0] as int - 48;
        if a < b {
            assert(a * t + t <= b * t) by (nonlinear_arith)
                requires
                    a + 1 <= b,
                    t >= 0,
            ;
        } else if b < a {
            assert(b * t + t <= a * t) by (nonlinear_arith)
                requires
                    b + 1 <= a,
                    t >= 0,
            ;
        } else {
            assert(x[0] == y[0]);
        }
    }
}

/// Runs of digits stand in the order of the numbers they denote, whatever
/// zeros they start with and however long they are.
pub proof fn law_runs_of_digits_stand_as_numbers(a: Seq<char>, b: Seq<char>)
    requires
        decimal_digits(a),
        decimal_digits(b),
    ensures
        run_order(a, b) == Relation::Before <==> number(a) < number(b),
        run_order(a, b) == Relation::Same <==> number(a) == number(b),
        run_order(a, b) == Relation::After <==> number(a) > number(b),
{
    lemma_significant(a);
    lemma_significant(b);
    let x = significant(a);
    let y = significant(b);
    if x.len() < y.len() {
        lemma_tens_grow(x.len(), (y.len() - 1) as nat);
    } else if y.len() < x.len() {
        lemma_tens_grow(y.len(), (x.len() - 1) as nat);
    } else {
        lemma_raw_is_by_number(x, y);
    }
}

/// A name goes on with something other than a digit, or ends.
pub open spec fn no_digit_first(s: Seq<char>) -> bool {
    s.len() == 0 || !(48 <= s[0] as int <= 57)
}

proof fn lemma_run_end_at(s: Seq<char>, i: int, k: int)
    requires
        0 <= i <= k <= s.len(),
        forall|j: int| i <= j < k ==> ascii_digit(#[trigger] s[j]),
        k < s.len() ==> !ascii_digit(s[k]),
    ensures
        run_end(s, i) == k,
    decreases k - i,
{
    if i < k {
        lemma_run_end_at(s, i + 1, k);
    }
}

proof fn lemma_run_end_digits(s: Seq<char>, i: int)
    requires
        0 <= i <= s.len(),
    ensures
        i <= run_end(s, i) <= s.len(),
        forall|j: int| i <= j < run_end(s, i) ==> ascii_digit(#[trigger] s[j]),
        run_end(s, i) < s.len() ==> !ascii_digit(s[run_end(s, i)]),
    decreases s.len() - i,
{
    if i < s.len() && ascii_digit(s[i]) {
        lemma_run_end_digits(s, i + 1);
    }
}

/// What two names start with in common does not tell them apart.
proof fn lemma_common_front(p: Seq<char>, u: Seq<char>, v: Seq<char>)
    requires
        (p.len() == 0 || !ascii_digit(p.last())) || (no_digit_first(u) && no_digit_first(v)),
    ensures
        loose_order(p + u, p + v) == loose_order(u, v),
    decreases p.len(),
{
    if p.len() == 0 {
        assert(p + u =~= u);
        assert(p + v =~= v);
    } else {
        let x = p + u;
        let y = p + v;
        assert(x[0] == p[0] && y[0] == p[0]);
        if ascii_digit(p[0]) {
            let k = run_end(p, 0);
            lemma_run_end_digits(p, 0);
            lemma_run_end(p, 0);
            assert forall|j: int| 0 <= j < k implies ascii_digit(#[trigger] x[j]) && ascii_digit(
                y[j],
            ) by {
                assert(x[j] == p[j] && y[j] == p[j]);
            }
            if k < p.len() {
                assert(x[k] == p[k] && y[k] == p[k]);
            } else {
                assert(ascii_digit(p[p.len() - 1]));
            }
            lemma_run_end_at(x, 0, k);
            lemma_run_end_at(y, 0, k);
            assert(x.take(k) =~= p.take(k));
            assert(y.take(k) =~= p.take(k));
            lemma_raw_reversed(significant(p.take(k)), significant(p.take(k)));
            let q = p.skip(k);
            assert(x.skip(k) =~= q + u);
            assert(y.skip(k) =~= q + v);
            if q.len() > 0 {
                assert(q.last() == p.last());
            }
            lemma_common_front(q, u, v);
        } else {
            let q = p.skip(1);
            assert(x.skip(1) =~= q + u);
            assert(y.skip(1) =~= q + v);
            if q.len() > 0 {
                assert(q.last() == p.last());
            }
            lemma_common_front(q, u, v);
        }
    }
}

/// Numbers in names count: two names that start alike and go on with different
/// numbers stand as the numbers do, whatever follows.
pub proof fn law_names_stand_by_their_numbers(
    p: Seq<char>,
    a: Seq<char>,
    s: Seq<char>,
    b: Seq<char>,
    t: Seq<char>,
)
    requires
        p.len() > 0 ==> !(48 <= p.last() as int <= 57),
        decimal_digits(a) && a.len() > 0,
        decimal_digits(b) && b.len() > 0,
        no_digit_first(s),
        no_digit_first(t),
    ensures
        number(a) < number(b) ==> natural_order(p + (a + s), p + (b + t)) == Relation::Before,
        number(a) > number(b) ==> natural_order(p + (a + s), p + (b + t)) == Relation::After,
        number(a) == number(b) ==> loose_order(p + (a + s), p + (b + t)) == loose_order(s, t),
{
    let x = a + s;
    let y = b + t;
    lemma_common_front(p, x, y);
    law_runs_of_digits_stand_as_numbers(a, b);
    assert forall|j: int| 0 <= j < a.len() implies ascii_digit(#[trigger] x[j]) by {
        assert(x[j] == a[j]);
    }
    assert forall|j: int| 0 <= j < b.len() implies ascii_digit(#[trigger] y[j]) by {
        assert(y[j] == b[j]);
    }
    if s.len() > 0 {
        assert(x[a.len() as int] == s[0]);
    }
    if t.len() > 0 {
        assert(y[b.len() as int] == t[0]);
    }
    lemma_run_end_at(x, 0, a.len() as int);
    lemma_run_end_at(y, 0, b.len() as int);
    assert(x.take(a.len() as int) =~= a);
    assert(y.take(b.len() as int) =~= b);
    assert(x.skip(a.len() as int) =~= s);
    assert(y.skip(b.len() as int) =~= t);
    assert(ascii_digit(x[0]) && ascii_digit(y[0]));
}

/// Case is ignored: two names that start alike stand as the lower-case forms of
/// the first letters they differ in, and letters that differ in case alone do
/// not tell them apart.
pub proof fn law_names_stand_by_letters_of_either_case(
    p: Seq<char>,
    c: char,
    s: Seq<char>,
    d: char,
    t: Seq<char>,
)
    requires
        !(48 <= c as int <= 57) && !(48 <= lowercase_first(c) as int <= 57),
        !(48 <= d as int <= 57) && !(48 <= lowercase_first(d) as int <= 57),
    ensures
        (lowercase_first(c) as int) < (lowercase_first(d) as int) ==> natural_order(
            p + (seq![c] + s),
            p + (seq![d] + t),
        ) == Relation::Before,
        lowercase_first(c) == lowercase_first(d) ==> loose_order(
            p + (seq![c] + s),
            p + (seq![d] + t),
        ) == loose_order(s, t),
{
    let x = seq![c] + s;
    let y = seq![d] + t;
    assert(x[0] == c && y[0] == d);
    lemma_common_front(p, x, y);
    assert(x.skip(1) =~= s);
    assert(y.skip(1) =~= t);
}

/// A name that another starts with stands before it.
pub proof fn law_the_shorter_name_stands_first(p: Seq<char>, s: Seq<char>)
    requires
        s.len() > 0,
        no_digit_first(s) || (p.len() > 0 ==> !(48 <= p.last() as int <= 57)),
    ensures
        natural_order(p, p + s) == Relation::Before,
{
    lemma_common_front(p, Seq::empty(), s);
    assert(p + Seq::<char>::empty() =~= p);
}

/// Whether an item that was read is this entry: it has its name, which does not
/// start with a dot, and its kind, by itself or by what it leads to.
pub open spec fn stands_for(item: Item, e: EntryView) -> bool {
    &&& item.name@ == e.name
    &&& !(e.name.len() > 0 && e.name[0] == 46)
    &&& item.kind == ItemKind::Is(e.kind) || item.kind == ItemKind::Other(Some(e.kind))
}

/// A folder shows what was read of it: an entry is listed exactly where an item
/// that was read stands for it.
pub proof fn law_a_folder_shows_what_was_read(items: Seq<Item>, e: EntryView)
    ensures
        listed(items).contains(e) <==> exists|i: int|
            0 <= i < items.len() && stands_for(#[trigger] items[i], e),
    decreases items.len(),
{
    let es = listed(items);
    if items.len() > 0 {
        let rest = items.drop_last();
        let last = items.last();
        let before = listed(rest);
        law_a_folder_shows_what_was_read(rest, e);
        assert(stands_for(last, e) <==> shown_as(last) == Some(e));
        if let Some(x) = shown_as(last) {
            let at = place(before, x);
            lemma_place(before, x);
            lemma_insert_contains(before, at, x, e);
        }
        if stands_for(last, e) {
            assert(stands_for(items[items.len() - 1], e));
        }
        if exists|i: int| 0 <= i < rest.len() && stands_for(#[trigger] rest[i], e) {
            let i = choose|i: int| 0 <= i < rest.len() && stands_for(#[trigger] rest[i], e);
            assert(stands_for(items[i], e));
        }
        if exists|i: int| 0 <= i < items.len() && stands_for(#[trigger] items[i], e) {
            let i = choose|i: int| 0 <= i < items.len() && stands_for(#[trigger] items[i], e);
            if i < rest.len() {
                assert(stands_for(rest[i], e));
            }
        }
    }
}

proof fn lemma_insert_contains(es: Seq<EntryView>, at: int, x: EntryView, e: EntryView)
    requires
        0 <= at <= es.len(),
    ensures
        es.insert(at, x).contains(e) <==> es.contains(e) || x == e,
{
    let out = es.insert(at, x);
    assert(out[at] == x);
    if es.contains(e) {
        let k = choose|k: int| 0 <= k < es.len() && es[k] == e;
        if k < at {
            assert(out[k] == e);
        } else {
            assert(out[k + 1] == e);
        }
    }
    if out.contains(e) {
        let k = choose|k: int| 0 <= k < out.len() && out[k] == e;
        if k < at {
            assert(es[k] == e);
        } else if k > at {
            assert(es[k - 1] == e);
        }
    }
}

/// Folders are listed before files, and within each group no name stands behind
/// one that comes after it.
pub proof fn law_folders_come_first(items: Seq<Item>, i: int, j: int)
    requires
        0 <= i < j < listed(items).len(),
    ensures
        listed(items)[i].kind == EntryKind::File ==> listed(items)[j].kind == EntryKind::File,
        listed(items)[i].kind == listed(items)[j].kind ==> natural_order(
            text_of(listed(items)[i].name),
            text_of(listed(items)[j].name),
        ) != Relation::After,
{
    law_a_listing_is_sorted(items);
    let es = listed(items);
    assert(entry_order(es[i], es[j]) != Relation::After);
}

/// What is known of a file is the last that was read of it, and what is read of
/// one says nothing of another.
pub proof fn law_the_last_header_read_is_the_one_known(
    headers: Seq<Header>,
    header: Header,
    path: Seq<u8>,
)
    ensures
        known(headers.push(header), header.path@) == Some(header.verdict@),
        path != header.path@ ==> known(headers.push(header), path) == known(headers, path),
        known(Seq::empty(), path) is None,
{
    assert(headers.push(header).drop_last() =~= headers);
}

/// A folder is entered by its name: one more name is one more step below, and
/// going back is one less.
pub proof fn law_a_step_below_is_one_name_more(root: Seq<u8>, below: Seq<Vec<u8>>, name: Vec<u8>)
    ensures
        path_of(root, below.push(name)) == joined(path_of(root, below), name@),
        path_of(root, below.push(name).drop_last()) == path_of(root, below),
        path_of(root, Seq::empty()) == root,
{
    assert(below.push(name).drop_last() =~= below);
}

/// A row is the entry in its place: by its own name, with what is known of the
/// file, and marked where it is the selection; and what ENTER needs first is
/// what the selection is.
pub proof fn law_a_row_is_its_entry(b: Browser, i: int)
    requires
        0 <= i < b.entries@.len(),
        b.wf(),
    ensures
        b.row(i).name == text_of(b.entries@[i].name@),
        b.row(i).selected <==> i == b.selected,
        b.entries@[i].kind == EntryKind::Folder ==> b.row(i).verdict is None,
        b.entries@[i].kind == EntryKind::File ==> b.row(i).verdict == known(
            b.headers@,
            joined(b.cwd(), b.entries@[i].name@),
        ),
        b.chosen() == Some(b.entries@[b.selected as int].name@),
        b.entries@[b.selected as int].kind == EntryKind::Folder <==> b.need() == Some(
            EntryKind::Folder,
        ),
        b.need() == Some(EntryKind::File) <==> b.entries@[b.selected as int].kind == EntryKind::File
            && b.row(b.selected as int).verdict is None,
{
}

/// What is activated is what the verdict says: only a file that plays is
/// played, and the one it is the verdict on.
pub proof fn law_what_is_activated_is_the_verdict(
    r: Result<Activation, BrowseError>,
    v: VerdictView,
)
    requires
        activates(r, v),
    ensures
        r is Ok,
        v is Plays <==> (r matches Ok(Activation::Play(_))),
        v is Refused <==> (r matches Ok(Activation::Refused(_))),
        v is Unreadable <==> (r matches Ok(Activation::Unreadable(_))),
        r matches Ok(Activation::Play(info)) ==> (v matches VerdictView::Plays(i) && i == info@),
{
}

/// The order of names is the order they sort in.
pub proof fn law_the_order_is_the_one_sorted_by(a: Seq<char>, b: Seq<char>)
    ensures
        ordering_of(natural_order(a, b)) == Ordering::Less <==> natural_order(a, b)
            == Relation::Before,
        ordering_of(natural_order(a, b)) == Ordering::Greater <==> natural_order(a, b)
            == Relation::After,
        ordering_of(natural_order(a, b)) == Ordering::Equal <==> a == b,
{
    law_the_order_of_names_is_total(a, b, b);
}

} // verus!
