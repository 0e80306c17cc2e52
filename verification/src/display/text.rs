//! A console in place of a panel: the same screen as a block of lines.
//!
//! What this gives is text to write; the program writes it.

use vstd::prelude::*;

use crate::display::paint::{mark_of, marks};
use crate::display::{Geometry, LineView, Screen, ScreenView};
use crate::text::{decimal, push_decimal};

verus! {

/// The console's grid.
pub fn console() -> (r: Geometry)
    ensures
        r == (Geometry { cols: 40, rows: 12, colour: false }),
{
    Geometry { cols: 40, rows: 12, colour: false }
}

/// A block of lines that is drawn over in place where the terminal allows it.
#[derive(Debug)]
pub struct Text {
    pub geometry: Geometry,
    pub ansi: bool,
    /// Lines of the last block still on the terminal.
    pub on_screen: usize,
}

/// A text padded with spaces to so many characters.
pub open spec fn padded(text: Seq<char>, cols: int) -> Seq<char> {
    if text.len() < cols {
        text + Seq::new((cols - text.len()) as nat, |i: int| ' ')
    } else {
        text
    }
}

/// A row of the listing. The selection is in reverse video where the terminal
/// can show it, and costs a column where it cannot.
pub open spec fn row_text(line: LineView, g: Geometry, ansi: bool) -> Seq<char> {
    let text = mark_of(line.kind, g.colour).0@ + line.text + mark_of(line.kind, g.colour).1@;
    if !line.selected {
        text
    } else if ansi {
        "\x1b[7m"@ + padded(text, g.cols as int) + "\x1b[0m"@
    } else {
        ">"@ + text
    }
}

/// The lines of a screen: the path, every row of the listing whether or not
/// there is an entry for it, and the status.
pub open spec fn block_of(s: ScreenView, g: Geometry, ansi: bool) -> Seq<Seq<char>> {
    seq![s.folder] + Seq::new(
        g.listing() as nat,
        |i: int|
            if i < s.lines.len() {
                row_text(s.lines[i], g, ansi)
            } else {
                Seq::empty()
            },
    ) + seq![s.status]
}

/// Lines, each with its newline.
pub open spec fn written(lines: Seq<Seq<char>>) -> Seq<char>
    decreases lines.len(),
{
    if lines.len() == 0 {
        Seq::empty()
    } else {
        written(lines.drop_last()) + lines.last() + "\n"@
    }
}

/// What takes the cursor back to the top of the last block and clears it.
pub open spec fn rewound(ansi: bool, on_screen: usize) -> Seq<char> {
    if ansi && on_screen > 0 {
        "\x1b["@ + decimal(on_screen as nat) + "A\x1b[0J"@
    } else {
        Seq::empty()
    }
}

pub open spec fn strings(lines: Seq<String>) -> Seq<Seq<char>> {
    lines.map_values(|l: String| l@)
}

fn push_padded(out: &mut String, text: &str, cols: usize)
    ensures
        final(out)@ == old(out)@ + padded(text@, cols as int),
{
    out.append(text);
    let mut n: usize = crate::text::chars_of(text).len();
    let ghost start = out@;
    let ghost len = text@.len();
    assert(start =~= start + Seq::new(0, |i: int| ' '));
    while n < cols
        invariant
            len <= n,
            n <= cols || n == len,
            out@ == start + Seq::new((n - len) as nat, |i: int| ' '),
        decreases cols - n,
    {
        out.push(' ');
        n = n + 1;
        assert(out@ =~= start + Seq::new((n - len) as nat, |i: int| ' '));
    }
    assert(out@ =~= old(out)@ + padded(text@, cols as int));
}

impl Text {
    pub fn new(geometry: Geometry) -> (r: Text)
        ensures
            r.geometry == geometry,
            !r.ansi,
            r.on_screen == 0,
    {
        Text { geometry, ansi: false, on_screen: 0 }
    }

    pub fn with_ansi(self, ansi: bool) -> (r: Text)
        ensures
            r.geometry == self.geometry,
            r.ansi == ansi,
            r.on_screen == self.on_screen,
    {
        Text { geometry: self.geometry, ansi, on_screen: self.on_screen }
    }

    /// The grid of cells to compose a screen for.
    pub fn geometry(&self) -> (r: Geometry)
        ensures
            r == self.geometry,
    {
        self.geometry
    }

    /// A line of its own. The block is dropped, so the next one starts clean
    /// below it.
    pub fn note(&mut self, line: &str) -> (r: String)
        ensures
            *final(self) == (Text { on_screen: 0, ..*old(self) }),
            r@ == rewound(old(self).ansi, old(self).on_screen) + line@ + "\n"@,
    {
        let mut out: String = self.rewind();
        out.append(line);
        out.append("\n");
        out
    }

    fn rewind(&mut self) -> (r: String)
        ensures
            *final(self) == (Text { on_screen: 0, ..*old(self) }),
            r@ == rewound(old(self).ansi, old(self).on_screen),
    {
        let mut out: String = String::new();
        if self.ansi && self.on_screen > 0 {
            out.append("\x1b[");
            push_decimal(&mut out, self.on_screen as u128);
            out.append("A\x1b[0J");
        }
        assert(out@ =~= rewound(self.ansi, self.on_screen));
        self.on_screen = 0;
        out
    }

    fn block(&self, screen: &Screen) -> (r: Vec<String>)
        ensures
            strings(r@) == block_of(screen@, self.geometry, self.ansi),
    {
        let g: Geometry = self.geometry;
        let ghost s = screen@;
        let ghost whole = block_of(s, g, self.ansi);
        let mut out: Vec<String> = Vec::new();
        out.push(screen.folder.clone());
        let rows: usize = g.listing_rows();
        let mut i: usize = 0;
        while i < rows
            invariant
                i <= rows,
                rows == g.listing(),
                g == self.geometry,
                s == screen@,
                whole == block_of(s, g, self.ansi),
                out@.len() == i + 1,
                forall|k: int| 0 <= k <= i ==> (#[trigger] out@[k])@ == whole[k],
            decreases rows - i,
        {
            let mut row: String = String::new();
            if i < screen.lines.len() {
                assert(s.lines[i as int] == screen.lines@[i as int]@);
                let (prefix, suffix) = marks(screen.lines[i].kind, g.colour);
                let mut text: String = String::new();
                text.append(prefix);
                text.append(screen.lines[i].text.as_str());
                text.append(suffix);
                if !screen.lines[i].selected {
                    row = text;
                } else if self.ansi {
                    row.append("\x1b[7m");
                    push_padded(&mut row, text.as_str(), g.cols);
                    row.append("\x1b[0m");
                } else {
                    row.append(">");
                    row.append(text.as_str());
                }
                assert(row@ =~= row_text(s.lines[i as int], g, self.ansi));
            }
            assert(row@ =~= whole[i + 1]);
            out.push(row);
            i = i + 1;
        }
        out.push(screen.status.clone());
        assert(strings(out@) =~= whole);
        out
    }

    /// A screen, over the last one.
    pub fn show(&mut self, screen: &Screen) -> (r: String)
        requires
            old(self).geometry.rows < usize::MAX,
        ensures
            *final(self) == (Text {
                on_screen: (old(self).geometry.listing() + 2) as usize,
                ..*old(self)
            }),
            r@ == rewound(old(self).ansi, old(self).on_screen) + written(
                block_of(screen@, old(self).geometry, old(self).ansi),
            ),
    {
        let mut out: String = self.rewind();
        let ghost start = out@;
        let lines: Vec<String> = self.block(screen);
        let ghost all = strings(lines@);
        let mut i: usize = 0;
        assert(start + written(all.take(0)) =~= start);
        while i < lines.len()
            invariant
                i <= lines@.len(),
                all == strings(lines@),
                out@ == start + written(all.take(i as int)),
            decreases lines@.len() - i,
        {
            proof {
                assert(all.take(i + 1).drop_last() =~= all.take(i as int));
                assert(all.take(i + 1).last() == lines@[i as int]@);
            }
            out.append(lines[i].as_str());
            out.append("\n");
            assert(out@ =~= start + written(all.take(i + 1)));
            i = i + 1;
        }
        assert(all.take(all.len() as int) =~= all);
        self.on_screen = lines.len();
        out
    }
}

/// The block is always the panel's height, whatever there is to show: what is
/// drawn over it covers it exactly.
pub proof fn law_the_block_is_the_panels_height(s: ScreenView, g: Geometry, ansi: bool)
    requires
        g.rows >= 2,
    ensures
        block_of(s, g, ansi).len() == g.rows,
{
}

/// The block is the screen from top to bottom: the path, the rows in their
/// order, and the status, with blank lines where there are no more rows.
pub proof fn law_the_block_is_the_screen(s: ScreenView, g: Geometry, ansi: bool, i: int)
    requires
        g.rows >= 2,
        0 <= i < g.rows - 2,
    ensures
        block_of(s, g, ansi)[0] == s.folder,
        block_of(s, g, ansi)[g.rows - 1] == s.status,
        i < s.lines.len() ==> block_of(s, g, ansi)[i + 1] == row_text(s.lines[i], g, ansi),
        i >= s.lines.len() ==> block_of(s, g, ansi)[i + 1] == Seq::<char>::empty(),
{
}

/// A selected row stands out: reversed and as wide as the panel where the
/// terminal can, and led by a `>` where it cannot; a row that is not selected
/// reads the same either way, and has its name in it.
pub proof fn law_the_selected_row_stands_out(line: LineView, g: Geometry)
    ensures
        line.selected ==> row_text(line, g, false)[0] == '>' && row_text(line, g, false).skip(1)
            == row_text((LineView { selected: false, ..line }), g, true),
        line.selected ==> row_text(line, g, true).take(4) =~= seq!['\x1b', '[', '7', 'm'],
        line.selected ==> row_text(line, g, true).len() >= 8 + g.cols,
        !line.selected ==> row_text(line, g, true) == row_text(line, g, false),
{
    reveal_strlit("\x1b[7m");
    reveal_strlit("\x1b[0m");
    reveal_strlit(">");
    if line.selected {
        assert(row_text(line, g, false).skip(1) =~= row_text(
            (LineView { selected: false, ..line }),
            g,
            true,
        ));
    }
}

/// A block is written a line at a time, each ended.
pub proof fn law_a_block_is_written_line_by_line(lines: Seq<Seq<char>>, line: Seq<char>)
    ensures
        written(lines.push(line)) == written(lines) + line.push('\n'),
{
    reveal_strlit("\n");
    assert(lines.push(line).drop_last() =~= lines);
    assert(written(lines) + line + "\n"@ =~= written(lines) + line.push('\n'));
}

} // verus!
