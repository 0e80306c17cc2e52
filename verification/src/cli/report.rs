//! What the command line tool and the deck say of what they found.

use vstd::prelude::*;

use crate::app::controls::Turn;
use crate::app::deck::DeckError;
use crate::app::medium::Change;
use crate::browser::{Row, RowView, Verdict, VerdictView};
use crate::media::{Medium, StatFailed};
use crate::rt::{shown, InForceView, Limits, RtError, RtInForce, RtRequest};
use crate::text::{decimal, push_decimal, push_signed, signed_decimal};

verus! {

/// What `mlockall` has to cover: a track change overlaps two rings.
pub const NEEDED_BYTES: u64 = 134_217_728;

/// The limits, in words.
pub open spec fn limits_line(lim: Limits) -> Seq<char> {
    "limits: memlock "@ + (match lim.memlock_bytes {
        None => "unlimited"@,
        Some(b) => decimal(b as nat) + " bytes ("@ + decimal(b as nat / 1_048_576) + " MiB)"@,
    }) + "  rtprio "@ + decimal(lim.rtprio as nat)
}

pub fn limits_text(lim: &Result<Limits, RtError>) -> (r: String)
    ensures
        r@ == (match *lim {
            Ok(l) => limits_line(l),
            Err(e) => "limits: unreadable — "@ + RtError::text(e@),
        }),
{
    let mut out: String = String::new();
    match lim {
        Ok(l) => {
            out.append("limits: memlock ");
            match l.memlock_bytes {
                None => {
                    out.append("unlimited");
                },
                Some(b) => {
                    push_decimal(&mut out, b as u128);
                    out.append(" bytes (");
                    push_decimal(&mut out, (b / 1_048_576) as u128);
                    out.append(" MiB)");
                },
            }
            out.append("  rtprio ");
            push_decimal(&mut out, l.rtprio as u128);
            assert(out@ =~= limits_line(*l));
        },
        Err(e) => {
            out.append("limits: unreadable — ");
            let why: String = e.to_text();
            out.append(why.as_str());
            assert(out@ =~= "limits: unreadable — "@ + RtError::text(e@));
        },
    }
    out
}

/// A core, where one was asked for.
pub open spec fn core_text(cpu: Option<usize>) -> Seq<char> {
    match cpu {
        None => "None"@,
        Some(n) => "Some("@ + decimal(n as nat) + ")"@,
    }
}

/// What is about to be asked of the kernel, in words.
pub fn asking_text(req: &RtRequest, needed: u64) -> (r: String)
    ensures
        r@ == "asking:  SCHED_FIFO "@ + signed_decimal(req.priority as int) + "  memlock >= "@
            + decimal(needed as nat / 1_048_576) + " MiB  prefault "@ + decimal(
            req.stack_prefault_bytes as nat / 1024,
        ) + " KiB  cpu "@ + core_text(req.cpu),
{
    let mut out: String = String::new();
    out.append("asking:  SCHED_FIFO ");
    push_signed(&mut out, req.priority as i64);
    out.append("  memlock >= ");
    push_decimal(&mut out, (needed / 1_048_576) as u128);
    out.append(" MiB  prefault ");
    push_decimal(&mut out, (req.stack_prefault_bytes / 1024) as u128);
    out.append(" KiB  cpu ");
    match req.cpu {
        None => {
            out.append("None");
        },
        Some(n) => {
            out.append("Some(");
            push_decimal(&mut out, n as u128);
            out.append(")");
        },
    }
    assert(out@ =~= "asking:  SCHED_FIFO "@ + signed_decimal(req.priority as int)
        + "  memlock >= "@ + decimal(needed as nat / 1_048_576) + " MiB  prefault "@ + decimal(
        req.stack_prefault_bytes as nat / 1024,
    ) + " KiB  cpu "@ + core_text(req.cpu));
    out
}

/// What the kernel granted, in words.
pub open spec fn in_force_line(got: InForceView) -> Seq<char> {
    "in force: "@ + got.policy.text() + " priority "@ + signed_decimal(got.priority as int)
        + "  VmLck "@ + decimal(got.locked_kib as nat) + " kB  cpus ["@ + shown(got.cpus) + "]"@
}

/// How a realtime check came out: what to print, and the exit code.
pub fn rt_verdict(outcome: &Result<RtInForce, RtError>) -> (r: (String, i32))
    ensures
        match *outcome {
            Ok(got) => r.0@ == in_force_line(got@) + "\nrt-check: OK"@ && r.1 == 0,
            Err(e) => r.0@ == "rt-check: FAILED\n"@ + RtError::text(e@) && r.1 == 1,
        },
{
    let mut out: String = String::new();
    match outcome {
        Ok(got) => {
            out.append("in force: ");
            let policy: String = got.policy.to_text();
            out.append(policy.as_str());
            out.append(" priority ");
            push_signed(&mut out, got.priority as i64);
            out.append("  VmLck ");
            push_decimal(&mut out, got.locked_kib as u128);
            out.append(" kB  cpus [");
            let cores: String = crate::rt::shown_text(got.cpus.as_slice());
            out.append(cores.as_str());
            out.append("]\nrt-check: OK");
            proof {
                reveal_strlit("]");
                reveal_strlit("\nrt-check: OK");
                reveal_strlit("]\nrt-check: OK");
                assert("]\nrt-check: OK"@ =~= "]"@ + "\nrt-check: OK"@);
            }
            assert(out@ =~= in_force_line(got@) + "\nrt-check: OK"@);
            (out, 0)
        },
        Err(e) => {
            out.append("rt-check: FAILED\n");
            let why: String = e.to_text();
            out.append(why.as_str());
            assert(out@ =~= "rt-check: FAILED\n"@ + RtError::text(e@));
            (out, 1)
        },
    }
}

/// What the mount test says. A directory that exists and has nothing mounted
/// is the case a test of existence gets wrong, so it is said.
pub fn mount_text(mounted: &Result<bool, StatFailed>, reason: &str, exists: bool) -> (r: String)
    ensures
        r@ == "  mount test: "@ + (match *mounted {
            Ok(true) => "something is mounted here"@,
            Ok(false) => if exists {
                "nothing mounted — but the directory exists, which an existence test would call a stick"@
            } else {
                "nothing mounted"@
            },
            Err(_) => reason@,
        }),
{
    let mut out: String = "  mount test: ".to_owned();
    match mounted {
        Ok(true) => {
            out.append("something is mounted here");
        },
        Ok(false) => {
            if exists {
                out.append(
                    "nothing mounted — but the directory exists, which an existence test would call a stick",
                );
            } else {
                out.append("nothing mounted");
            }
        },
        Err(_) => {
            out.append(reason);
        },
    }
    out
}

/// The exit code of a media check: only a stick that can be browsed is good.
pub fn media_code(state: &Medium) -> (r: i32)
    ensures
        r == (if state@ is Browsable {
            0int
        } else {
            1int
        }),
{
    if state.is_browsable() {
        0
    } else {
        1
    }
}

/// One row of a listing, in words.
pub open spec fn row_line(row: RowView) -> Seq<char> {
    match row.verdict {
        None => "    [dir]  "@ + row.name,
        Some(VerdictView::Plays(i)) => "    PLAYS  "@ + row.name + "  "@ + i.container.label()@
            + " "@ + decimal(i.rate as nat) + " Hz "@ + i.depth.label()@,
        Some(VerdictView::Refused(why)) => "    refuse "@ + row.name + "  "@ + why.text(),
        Some(VerdictView::Unreadable(why)) => "    ??     "@ + row.name + "  "@ + why,
    }
}

pub fn row_text(row: &Row) -> (r: String)
    ensures
        r@ == row_line(row@),
{
    let mut out: String = String::new();
    match row {
        Row::Folder { name, .. } => {
            out.append("    [dir]  ");
            out.append(name.as_str());
        },
        Row::File { name, verdict, .. } => match verdict {
            Verdict::Plays(i) => {
                out.append("    PLAYS  ");
                out.append(name.as_str());
                out.append("  ");
                out.append(i.container.name());
                out.append(" ");
                push_decimal(&mut out, i.rate as u128);
                out.append(" Hz ");
                out.append(i.depth.name());
            },
            Verdict::Refused(why) => {
                out.append("    refuse ");
                out.append(name.as_str());
                out.append("  ");
                let reason: String = why.to_text();
                out.append(reason.as_str());
            },
            Verdict::Unreadable(why) => {
                out.append("    ??     ");
                out.append(name.as_str());
                out.append("  ");
                out.append(why.as_str());
            },
        },
    }
    assert(out@ =~= row_line(row@));
    out
}

/// The exit code of a run over files: good only if every one of them played.
pub fn exit_code(bad: usize) -> (r: i32)
    ensures
        r == (if bad > 0 {
            1int
        } else {
            0int
        }),
{
    if bad > 0 {
        1
    } else {
        0
    }
}

/// Lines as mathematical values.
pub open spec fn lines_view(lines: Seq<String>) -> Seq<Seq<char>> {
    lines.map_values(|l: String| l@)
}

/// What a change of medium has to say.
pub open spec fn change_says(c: Change) -> Seq<Seq<char>> {
    seq!["medium: "@ + Medium::text(c.medium@)] + (match c.unbrowsable {
        Some(e) => seq!["  cannot browse it: "@ + e.text()],
        None => Seq::empty(),
    }) + (match c.cueless {
        Some(e) => seq![
            "  cues will not load: "@ + e.text() + " — the deck plays, cues do not persist"@,
        ],
        None => Seq::empty(),
    }) + (match c.ended {
        Some(_) => seq!["  the track it was playing has been unloaded"@],
        None => Seq::empty(),
    })
}

pub fn change_lines(c: &Change) -> (r: Vec<String>)
    ensures
        lines_view(r@) == change_says(*c),
{
    let mut out: Vec<String> = Vec::new();
    let mut first: String = "medium: ".to_owned();
    let medium: String = c.medium.to_text();
    first.append(medium.as_str());
    out.push(first);
    assert(lines_view(out@) =~= seq!["medium: "@ + Medium::text(c.medium@)]);
    let ghost one = lines_view(out@);
    if let Some(e) = &c.unbrowsable {
        let mut line: String = "  cannot browse it: ".to_owned();
        let why: String = e.to_text();
        line.append(why.as_str());
        out.push(line);
        assert(lines_view(out@) =~= one.push("  cannot browse it: "@ + e.text()));
    }
    let ghost two = lines_view(out@);
    if let Some(e) = &c.cueless {
        let mut line: String = "  cues will not load: ".to_owned();
        let why: String = e.to_text();
        line.append(why.as_str());
        line.append(" — the deck plays, cues do not persist");
        out.push(line);
        assert(lines_view(out@) =~= two.push(
            "  cues will not load: "@ + e.text() + " — the deck plays, cues do not persist"@,
        ));
    }
    let ghost three = lines_view(out@);
    if c.ended.is_some() {
        out.push("  the track it was playing has been unloaded".to_owned());
        assert(lines_view(out@) =~= three.push("  the track it was playing has been unloaded"@));
    }
    assert(lines_view(out@) =~= change_says(*c));
    out
}

/// The refusals of a turn, in words.
pub open spec fn refusals(errors: Seq<DeckError>) -> Seq<Seq<char>> {
    errors.map_values(|e: DeckError| "refused: "@ + e.text())
}

/// How many nodes of the control surface something happened to, if any.
pub open spec fn nodes_say(n: usize, what: Seq<char>) -> Seq<Seq<char>> {
    if n > 0 {
        seq!["control surface: "@ + decimal(n as nat) + what]
    } else {
        Seq::empty()
    }
}

/// What a turn of the controls has to say, apart from how a track ended.
pub open spec fn turn_says(turn: Turn) -> Seq<Seq<char>> {
    nodes_say(turn.lost, " node(s) went away"@) + nodes_say(
        turn.reopened,
        " node(s) came back"@,
    ) + refusals(turn.errors@)
}

fn push_nodes(out: &mut Vec<String>, n: usize, what: &str)
    ensures
        lines_view(final(out)@) == lines_view(old(out)@) + nodes_say(n, what@),
{
    let ghost before = lines_view(out@);
    if n > 0 {
        let mut line: String = "control surface: ".to_owned();
        push_decimal(&mut line, n as u128);
        line.append(what);
        out.push(line);
    }
    assert(lines_view(out@) =~= before + nodes_say(n, what@));
}

pub fn turn_lines(turn: &Turn) -> (r: Vec<String>)
    ensures
        lines_view(r@) == turn_says(*turn),
{
    let mut out: Vec<String> = Vec::new();
    assert(lines_view(out@) =~= Seq::empty());
    push_nodes(&mut out, turn.lost, " node(s) went away");
    push_nodes(&mut out, turn.reopened, " node(s) came back");
    let ghost before = lines_view(out@);
    assert(before =~= nodes_say(turn.lost, " node(s) went away"@) + nodes_say(
        turn.reopened,
        " node(s) came back"@,
    ));
    let mut i: usize = 0;
    assert(before + refusals(turn.errors@).take(0) =~= before);
    while i < turn.errors.len()
        invariant
            i <= turn.errors@.len(),
            lines_view(out@) == before + refusals(turn.errors@).take(i as int),
        decreases turn.errors@.len() - i,
    {
        let ghost was = lines_view(out@);
        let mut line: String = "refused: ".to_owned();
        let why: String = turn.errors[i].to_text();
        line.append(why.as_str());
        let ghost said = line@;
        out.push(line);
        assert(said == refusals(turn.errors@)[i as int]);
        assert(lines_view(out@) =~= was.push(said));
        assert(lines_view(out@) =~= before + refusals(turn.errors@).take(i + 1));
        i = i + 1;
    }
    assert(lines_view(out@) =~= turn_says(*turn));
    out
}

/// What is printed of a row tells what it is in its first columns, and has the
/// name behind them.
pub proof fn law_the_printed_rows_read_apart(row: RowView)
    ensures
        row.verdict is None ==> row_line(row)[4] == '[',
        (row.verdict matches Some(v) && v is Plays) ==> row_line(row)[4] == 'P',
        (row.verdict matches Some(v) && v is Refused) ==> row_line(row)[4] == 'r',
        (row.verdict matches Some(v) && v is Unreadable) ==> row_line(row)[4] == '?',
        row_line(row).subrange(11, 11 + row.name.len() as int) == row.name,
{
    reveal_strlit("    [dir]  ");
    reveal_strlit("    PLAYS  ");
    reveal_strlit("    refuse ");
    reveal_strlit("    ??     ");
    assert(row_line(row).subrange(11, 11 + row.name.len() as int) =~= row.name);
}

/// Nodes are spoken of only where there are any, with how many.
pub proof fn law_nodes_are_counted(n: usize, what: Seq<char>)
    ensures
        n == 0 ==> nodes_say(n, what).len() == 0,
        n > 0 ==> nodes_say(n, what).len() == 1 && crate::text::number(
            nodes_say(n, what)[0].subrange(17, 17 + decimal(n as nat).len() as int),
        ) == n,
{
    reveal_strlit("control surface: ");
    crate::text::law_a_number_is_written_as_what_it_is(n as nat);
    if n > 0 {
        assert(nodes_say(n, what)[0].subrange(17, 17 + decimal(n as nat).len() as int) =~= decimal(
            n as nat,
        ));
    }
}

} // verus!
