//! What the deck's own command line asks for.

use vstd::prelude::*;
use vstd::slice::slice_subrange;

use crate::cli::{after, behind};
use crate::display::text::console;
use crate::display::Geometry;
use crate::media::{same_text, MOUNT_POINT};
use crate::ring::WINDOW_BYTES_PLACEHOLDER;
use crate::scan::{
    find, first_at, law_a_word_of_digits_is_its_number, law_the_first_is_found,
    law_what_a_text_starts_with, number, number_of, starts,
};
use crate::text::{chars_of, decimal, law_a_number_is_written_as_what_it_is, quote, quoted};

verus! {

/// The output, by name: a number is a probe order, and moves.
pub const DEVICE: &'static str = "hw:CARD=sndrpihifiberry,DEV=0";

/// Frames per period, and periods.
pub const PERIOD: usize = 128;

pub const PERIODS: u32 = 2;

/// A mebibyte.
pub const MIB: usize = 1_048_576;

#[derive(Debug, PartialEq, Eq)]
pub struct Args {
    pub device: String,
    pub mount: String,
    pub window_bytes: usize,
    pub rt: bool,
    pub grid: Geometry,
}

/// The same as a mathematical value.
pub struct ArgsView {
    pub device: Seq<char>,
    pub mount: Seq<char>,
    pub window_bytes: usize,
    pub rt: bool,
    pub grid: Geometry,
}

impl View for Args {
    type V = ArgsView;

    open spec fn view(&self) -> ArgsView {
        ArgsView {
            device: self.device@,
            mount: self.mount@,
            window_bytes: self.window_bytes,
            rt: self.rt,
            grid: self.grid,
        }
    }
}

/// What an empty line asks for.
pub open spec fn plain() -> ArgsView {
    ArgsView {
        device: DEVICE@,
        mount: MOUNT_POINT@,
        window_bytes: WINDOW_BYTES_PLACEHOLDER,
        rt: true,
        grid: Geometry { cols: 40, rows: 12, colour: false },
    }
}

/// The grid a text names: columns, an x and rows.
pub open spec fn grid_in(spec: Seq<char>) -> Result<Geometry, Seq<char>> {
    let x = first_at(spec, 'x');
    if x >= spec.len() {
        Err("--grid= wants COLSxROWS, got "@ + quoted(spec))
    } else {
        match number_of(spec.take(x), usize::MAX as nat) {
            None => Err("bad columns in "@ + quoted(spec)),
            Some(cols) => match number_of(spec.skip(x + 1), usize::MAX as nat) {
                None => Err("bad rows in "@ + quoted(spec)),
                Some(rows) => Ok(
                    Geometry { cols: cols as usize, rows: rows as usize, colour: false },
                ),
            },
        }
    }
}

/// What one argument makes of what was asked: none for help.
pub open spec fn asked(a: ArgsView, arg: Seq<char>) -> Result<Option<ArgsView>, Seq<char>> {
    if arg == "-h"@ || arg == "--help"@ {
        Ok(None)
    } else if arg == "--no-rt"@ {
        Ok(Some(ArgsView { rt: false, ..a }))
    } else if starts(arg, "--device="@) {
        Ok(Some(ArgsView { device: after(arg, "--device="@), ..a }))
    } else if starts(arg, "--mount="@) {
        Ok(Some(ArgsView { mount: after(arg, "--mount="@), ..a }))
    } else if starts(arg, "--window-mib="@) {
        let n = after(arg, "--window-mib="@);
        match number_of(n, usize::MAX as nat) {
            None => Err("--window-mib= wants a number, got "@ + quoted(n)),
            Some(mib) => Ok(Some(ArgsView { window_bytes: (mib * MIB) as usize, ..a })),
        }
    } else if starts(arg, "--grid="@) {
        match grid_in(after(arg, "--grid="@)) {
            Err(why) => Err(why),
            Ok(grid) => Ok(Some(ArgsView { grid, ..a })),
        }
    } else {
        Err("unknown argument "@ + quoted(arg))
    }
}

/// What a line asks for: the first argument that asks for help, or that cannot
/// be taken, decides.
pub open spec fn asked_all(a: ArgsView, args: Seq<Seq<char>>) -> Result<Option<ArgsView>, Seq<char>>
    decreases args.len(),
{
    if args.len() == 0 {
        Ok(Some(a))
    } else {
        match asked(a, args[0]) {
            Ok(Some(next)) => asked_all(next, args.skip(1)),
            other => other,
        }
    }
}

pub open spec fn words(args: Seq<String>) -> Seq<Seq<char>> {
    args.map_values(|s: String| s@)
}

pub open spec fn parsed(r: Result<Option<Args>, String>) -> Result<Option<ArgsView>, Seq<char>> {
    match r {
        Ok(Some(a)) => Ok(Some(a@)),
        Ok(None) => Ok(None),
        Err(why) => Err(why@),
    }
}

/// Whether an argument's window, where it names one, can be counted in bytes.
pub open spec fn fits(arg: Seq<char>) -> bool {
    starts(arg, "--window-mib="@) ==> (number_of(
        after(arg, "--window-mib="@),
        usize::MAX as nat,
    ) matches Some(mib) ==> mib * MIB <= usize::MAX)
}

pub fn window_fits(arg: &str) -> (r: bool)
    ensures
        r == fits(arg@),
{
    match behind(arg, "--window-mib=") {
        None => true,
        Some(n) => {
            let cs: Vec<char> = chars_of(n.as_str());
            match number(cs.as_slice(), usize::MAX as u64) {
                None => true,
                Some(mib) => {
                    let fitting: bool = mib as usize <= usize::MAX / MIB;
                    fitting
                },
            }
        },
    }
}

fn grid(spec: &str) -> (r: Result<Geometry, String>)
    ensures
        match grid_in(spec@) {
            Ok(g) => r == Ok::<Geometry, String>(g),
            Err(why) => r is Err && r->Err_0@ == why,
        },
{
    let cs: Vec<char> = chars_of(spec);
    let x: usize = find(cs.as_slice(), 'x');
    let shown: String = quote(spec);
    if x >= cs.len() {
        let mut why: String = "--grid= wants COLSxROWS, got ".to_owned();
        why.append(shown.as_str());
        return Err(why);
    }
    let left: &[char] = slice_subrange(cs.as_slice(), 0, x);
    assert(left@ =~= spec@.take(x as int));
    let right: &[char] = slice_subrange(cs.as_slice(), x + 1, cs.len());
    assert(right@ =~= spec@.skip(x + 1));
    match number(left, usize::MAX as u64) {
        None => {
            let mut why: String = "bad columns in ".to_owned();
            why.append(shown.as_str());
            Err(why)
        },
        Some(cols) => match number(right, usize::MAX as u64) {
            None => {
                let mut why: String = "bad rows in ".to_owned();
                why.append(shown.as_str());
                Err(why)
            },
            Some(rows) => Ok(
                Geometry { cols: cols as usize, rows: rows as usize, colour: false },
            ),
        },
    }
}

/// One argument.
fn take(a: Args, arg: &str) -> (r: Result<Option<Args>, String>)
    requires
        fits(arg@),
    ensures
        parsed(r) == asked(a@, arg@),
{
    if same_text(arg, "-h") || same_text(arg, "--help") {
        return Ok(None);
    }
    if same_text(arg, "--no-rt") {
        return Ok(
            Some(
                Args {
                    device: a.device,
                    mount: a.mount,
                    window_bytes: a.window_bytes,
                    rt: false,
                    grid: a.grid,
                },
            ),
        );
    }
    if let Some(device) = behind(arg, "--device=") {
        return Ok(
            Some(
                Args {
                    device,
                    mount: a.mount,
                    window_bytes: a.window_bytes,
                    rt: a.rt,
                    grid: a.grid,
                },
            ),
        );
    }
    if let Some(mount) = behind(arg, "--mount=") {
        return Ok(
            Some(
                Args {
                    device: a.device,
                    mount,
                    window_bytes: a.window_bytes,
                    rt: a.rt,
                    grid: a.grid,
                },
            ),
        );
    }
    if let Some(n) = behind(arg, "--window-mib=") {
        let cs: Vec<char> = chars_of(n.as_str());
        return match number(cs.as_slice(), usize::MAX as u64) {
            None => {
                let mut why: String = "--window-mib= wants a number, got ".to_owned();
                let shown: String = quote(n.as_str());
                why.append(shown.as_str());
                Err(why)
            },
            Some(mib) => Ok(
                Some(
                    Args {
                        device: a.device,
                        mount: a.mount,
                        window_bytes: mib as usize * MIB,
                        rt: a.rt,
                        grid: a.grid,
                    },
                ),
            ),
        };
    }
    if let Some(spec) = behind(arg, "--grid=") {
        return match grid(spec.as_str()) {
            Err(why) => Err(why),
            Ok(grid) => Ok(
                Some(
                    Args {
                        device: a.device,
                        mount: a.mount,
                        window_bytes: a.window_bytes,
                        rt: a.rt,
                        grid,
                    },
                ),
            ),
        };
    }
    let mut why: String = "unknown argument ".to_owned();
    let shown: String = quote(arg);
    why.append(shown.as_str());
    Err(why)
}

/// Reads the deck's command line: none where help was asked for.
pub fn parse(argv: &[String]) -> (r: Result<Option<Args>, String>)
    requires
        forall|i: int| 0 <= i < argv@.len() ==> fits((#[trigger] argv@[i])@),
    ensures
        parsed(r) == asked_all(plain(), words(argv@)),
{
    let mut a: Args = Args {
        device: DEVICE.to_owned(),
        mount: MOUNT_POINT.to_owned(),
        window_bytes: WINDOW_BYTES_PLACEHOLDER,
        rt: true,
        grid: console(),
    };
    let ghost all = words(argv@);
    let mut i: usize = 0;
    assert(all.skip(0) =~= all);
    while i < argv.len()
        invariant
            i <= argv@.len(),
            all == words(argv@),
            asked_all(a@, all.skip(i as int)) == asked_all(plain(), all),
            forall|k: int| 0 <= k < argv@.len() ==> fits((#[trigger] argv@[k])@),
        decreases argv@.len() - i,
    {
        assert(all.skip(i as int)[0] == argv@[i as int]@);
        assert(all.skip(i as int).skip(1) =~= all.skip(i + 1));
        match take(a, argv[i].as_str()) {
            Ok(Some(next)) => {
                a = next;
            },
            Ok(None) => {
                return Ok(None);
            },
            Err(why) => {
                return Err(why);
            },
        }
        i = i + 1;
    }
    Ok(Some(a))
}

/// A grid is so many columns, an `x` and so many rows.
pub proof fn law_a_grid_is_columns_by_rows(cols: usize, rows: usize)
    ensures
        grid_in(decimal(cols as nat).push('x') + decimal(rows as nat)) == Ok::<Geometry, Seq<char>>(
            Geometry { cols, rows, colour: false },
        ),
{
    let (c, r) = (decimal(cols as nat), decimal(rows as nat));
    law_a_number_is_written_as_what_it_is(cols as nat);
    law_a_number_is_written_as_what_it_is(rows as nat);
    assert forall|i: int| 0 <= i < c.len() implies c[i] != 'x' by {
        assert(48 <= c[i] as int <= 57);
    }
    law_the_first_is_found(c, 'x', r);
    let spec = c.push('x') + r;
    assert(spec.take(c.len() as int) =~= c);
    assert(spec.skip(c.len() as int + 1) =~= r);
    law_a_word_of_digits_is_its_number(c, usize::MAX as nat);
    law_a_word_of_digits_is_its_number(r, usize::MAX as nat);
}

/// An option sets what it names to the value behind its equals sign and leaves
/// the rest alone: the output, the mount point, a window of so many times
/// 1048576 bytes, and the grid.
pub proof fn law_an_option_sets_what_it_names(
    a: ArgsView,
    value: Seq<char>,
    mib: nat,
    cols: usize,
    rows: usize,
)
    requires
        mib * 1_048_576 <= usize::MAX,
    ensures
        asked(a, "--device="@ + value) == Ok::<Option<ArgsView>, Seq<char>>(
            Some(ArgsView { device: value, ..a }),
        ),
        asked(a, "--mount="@ + value) == Ok::<Option<ArgsView>, Seq<char>>(
            Some(ArgsView { mount: value, ..a }),
        ),
        asked(a, "--window-mib="@ + decimal(mib)) == Ok::<Option<ArgsView>, Seq<char>>(
            Some(ArgsView { window_bytes: (mib * 1_048_576) as usize, ..a }),
        ),
        asked(a, "--grid="@ + (decimal(cols as nat).push('x') + decimal(rows as nat))) == Ok::<
            Option<ArgsView>,
            Seq<char>,
        >(Some(ArgsView { grid: Geometry { cols, rows, colour: false }, ..a })),
        asked(a, "--no-rt"@) == Ok::<Option<ArgsView>, Seq<char>>(Some(ArgsView { rt: false, ..a })),
        asked(a, "-h"@) == Ok::<Option<ArgsView>, Seq<char>>(None),
        asked(a, "--help"@) == Ok::<Option<ArgsView>, Seq<char>>(None),
{
    reveal_strlit("-h");
    reveal_strlit("--help");
    reveal_strlit("--no-rt");
    reveal_strlit("--device=");
    reveal_strlit("--mount=");
    reveal_strlit("--window-mib=");
    reveal_strlit("--grid=");
    let grid = decimal(cols as nat).push('x') + decimal(rows as nat);
    let d = "--device="@ + value;
    let m = "--mount="@ + value;
    let w = "--window-mib="@ + decimal(mib);
    let g = "--grid="@ + grid;
    law_what_a_text_starts_with(d, "--device="@, value);
    law_what_a_text_starts_with(m, "--mount="@, value);
    law_what_a_text_starts_with(w, "--window-mib="@, decimal(mib));
    law_what_a_text_starts_with(g, "--grid="@, grid);
    law_a_number_is_written_as_what_it_is(mib);
    law_a_word_of_digits_is_its_number(decimal(mib), usize::MAX as nat);
    law_a_grid_is_columns_by_rows(cols, rows);
    lemma_third();
    assert(d[2] == 'd' && m[2] == 'm' && w[2] == 'w' && g[2] == 'g');
    assert("--no-rt"@[2] == 'n' && "--help"@[2] == 'h');
    assert("-h"@.len() == 2 && d.len() > 2 && m.len() > 2 && w.len() > 2 && g.len() > 2);
}

/// An option is told by the letter behind its dashes.
proof fn lemma_third()
    ensures
        forall|s: Seq<char>| #[trigger] starts(s, "--device="@) ==> s[2] == 'd',
        forall|s: Seq<char>| #[trigger] starts(s, "--mount="@) ==> s[2] == 'm',
        forall|s: Seq<char>| #[trigger] starts(s, "--window-mib="@) ==> s[2] == 'w',
        forall|s: Seq<char>| #[trigger] starts(s, "--grid="@) ==> s[2] == 'g',
{
    reveal_strlit("--device=");
    reveal_strlit("--mount=");
    reveal_strlit("--window-mib=");
    reveal_strlit("--grid=");
    assert forall|s: Seq<char>| #[trigger] starts(s, "--device="@) implies s[2] == 'd' by {
        assert(s.take(9)[2] == s[2]);
    }
    assert forall|s: Seq<char>| #[trigger] starts(s, "--mount="@) implies s[2] == 'm' by {
        assert(s.take(8)[2] == s[2]);
    }
    assert forall|s: Seq<char>| #[trigger] starts(s, "--window-mib="@) implies s[2] == 'w' by {
        assert(s.take(13)[2] == s[2]);
    }
    assert forall|s: Seq<char>| #[trigger] starts(s, "--grid="@) implies s[2] == 'g' by {
        assert(s.take(7)[2] == s[2]);
    }
}

/// The options are taken in turn, the last of a kind holds, and help or a
/// refusal ends the line.
pub proof fn law_the_options_are_taken_in_turn(a: ArgsView, arg: Seq<char>, rest: Seq<Seq<char>>)
    ensures
        asked(a, arg) matches Ok(Some(next)) ==> asked_all(a, seq![arg] + rest) == asked_all(
            next,
            rest,
        ),
        asked(a, arg) matches Ok(None) ==> asked_all(a, seq![arg] + rest) == Ok::<
            Option<ArgsView>,
            Seq<char>,
        >(None),
        asked(a, arg) matches Err(why) ==> asked_all(a, seq![arg] + rest) == Err::<
            Option<ArgsView>,
            Seq<char>,
        >(why),
        asked_all(a, Seq::empty()) == Ok::<Option<ArgsView>, Seq<char>>(Some(a)),
{
    assert((seq![arg] + rest).skip(1) =~= rest);
}

} // verus!
