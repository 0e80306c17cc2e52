//! What the command line asks for.
//!
//! Every argument that is not understood is an error, and a run does exactly
//! one thing: nothing on the line is dropped in silence.

use vstd::prelude::*;
use vstd::slice::slice_subrange;

use crate::media::{same_text, text_option, MOUNT_POINT};
use crate::scan::{
    law_a_word_of_digits_is_its_number, law_what_a_text_starts_with, number, number_of, starts,
    starts_with,
};
use crate::text::{
    chars_of, copied, decimal, law_a_number_is_written_as_what_it_is, quote, quoted, string_of,
    text_lossy, text_of,
};

pub mod deck;
pub mod report;

verus! {

/// What to do. Exactly one of these.
#[derive(Debug, PartialEq, Eq)]
pub enum Mode {
    /// Report what the file layer makes of each path.
    Report,
    /// Also pull every frame through the ring and the callback.
    Drain,
    /// Play for real.
    Device(String),
    RtCheck(Option<usize>),
    MediaCheck(String),
}

#[derive(Debug, PartialEq, Eq)]
pub struct Args {
    pub mode: Mode,
    pub paths: Vec<Vec<u8>>,
}

/// A mode as a mathematical value.
pub enum ModeView {
    Report,
    Drain,
    Device(Seq<char>),
    RtCheck(Option<usize>),
    MediaCheck(Seq<char>),
}

impl View for Mode {
    type V = ModeView;

    open spec fn view(&self) -> ModeView {
        match *self {
            Mode::Report => ModeView::Report,
            Mode::Drain => ModeView::Drain,
            Mode::Device(d) => ModeView::Device(d@),
            Mode::RtCheck(cpu) => ModeView::RtCheck(cpu),
            Mode::MediaCheck(at) => ModeView::MediaCheck(at@),
        }
    }
}

/// What was asked for, as a mathematical value.
pub struct ArgsView {
    pub mode: ModeView,
    pub paths: Seq<Seq<u8>>,
}

pub open spec fn paths_of(paths: Seq<Vec<u8>>) -> Seq<Seq<u8>> {
    paths.map_values(|p: Vec<u8>| p@)
}

impl View for Args {
    type V = ArgsView;

    open spec fn view(&self) -> ArgsView {
        ArgsView { mode: self.mode@, paths: paths_of(self.paths@) }
    }
}

/// What has been read of a line so far.
pub struct Asked {
    pub paths: Seq<Seq<u8>>,
    pub drain: bool,
    pub device: Option<Seq<char>>,
    pub rt_check: Option<Option<usize>>,
    pub media_check: Option<Seq<char>>,
    pub only_paths: bool,
}

pub open spec fn nothing_asked() -> Asked {
    Asked {
        paths: Seq::empty(),
        drain: false,
        device: None,
        rt_check: None,
        media_check: None,
        only_paths: false,
    }
}

/// The value behind a prefix.
pub open spec fn after(text: Seq<char>, prefix: Seq<char>) -> Seq<char> {
    text.skip(prefix.len() as int)
}

/// What one argument adds, or why it cannot be taken.
pub open spec fn asked(a: Asked, arg: Seq<u8>) -> Result<Asked, Seq<char>> {
    let text = text_of(arg);
    if a.only_paths || !starts(text, "-"@) {
        Ok(Asked { paths: a.paths.push(arg), ..a })
    } else if text == "--"@ {
        Ok(Asked { only_paths: true, ..a })
    } else if text == "--drain"@ {
        Ok(Asked { drain: true, ..a })
    } else if text == "--rt-check"@ {
        Ok(Asked { rt_check: Some(None), ..a })
    } else if text == "--media-check"@ {
        Ok(Asked { media_check: Some(MOUNT_POINT@), ..a })
    } else if starts(text, "--device="@) {
        Ok(Asked { device: Some(after(text, "--device="@)), ..a })
    } else if starts(text, "--rt-check="@) {
        let n = after(text, "--rt-check="@);
        match number_of(n, usize::MAX as nat) {
            Some(cpu) => Ok(Asked { rt_check: Some(Some(cpu as usize)), ..a }),
            None => Err("--rt-check= wants a core number, got "@ + quoted(n)),
        }
    } else if starts(text, "--media-check="@) {
        Ok(Asked { media_check: Some(after(text, "--media-check="@)), ..a })
    } else if text == "--device"@ || text == "--rt-check-"@ {
        Err(text + " takes its value with '=', as "@ + text + "=..."@)
    } else {
        Err("unknown argument "@ + quoted(text))
    }
}

/// What a line asks for, argument by argument: the first that cannot be taken
/// decides.
pub open spec fn asked_all(args: Seq<Seq<u8>>) -> Result<Asked, Seq<char>>
    decreases args.len(),
{
    if args.len() == 0 {
        Ok(nothing_asked())
    } else {
        match asked_all(args.drop_last()) {
            Ok(a) => asked(a, args.last()),
            Err(why) => Err(why),
        }
    }
}

/// The ordinary run: report, drain, or play.
pub open spec fn played(drain: bool, device: Option<Seq<char>>, paths: Seq<Seq<u8>>) -> Result<
    ArgsView,
    Seq<char>,
> {
    if drain && device is Some {
        Err("--drain and --device= are two different runs; pick one"@)
    } else if paths.len() == 0 {
        Err("no file given"@)
    } else {
        Ok(
            ArgsView {
                mode: match device {
                    Some(d) => ModeView::Device(d),
                    None => if drain {
                        ModeView::Drain
                    } else {
                        ModeView::Report
                    },
                },
                paths,
            },
        )
    }
}

/// What was asked for becomes one run. A check takes the whole line.
pub open spec fn settled(a: Asked) -> Result<ArgsView, Seq<char>> {
    let extras = a.drain || a.device is Some || a.paths.len() > 0;
    match (a.rt_check, a.media_check) {
        (Some(_), Some(_)) => Err("--rt-check and --media-check are separate runs"@),
        (Some(cpu), None) => if extras {
            Err("--rt-check takes nothing else; it is a check, not a mode"@)
        } else {
            Ok(ArgsView { mode: ModeView::RtCheck(cpu), paths: a.paths })
        },
        (None, Some(at)) => if extras {
            Err("--media-check takes nothing else; it is a check, not a mode"@)
        } else {
            Ok(ArgsView { mode: ModeView::MediaCheck(at), paths: a.paths })
        },
        (None, None) => played(a.drain, a.device, a.paths),
    }
}

/// What a whole line asks for.
pub open spec fn line_asks(args: Seq<Seq<u8>>) -> Result<ArgsView, Seq<char>> {
    match asked_all(args) {
        Ok(a) => settled(a),
        Err(why) => Err(why),
    }
}

pub open spec fn args_view(r: Result<Args, String>) -> Result<ArgsView, Seq<char>> {
    match r {
        Ok(args) => Ok(args@),
        Err(why) => Err(why@),
    }
}

/// The text after a prefix, where a text starts with it.
pub(crate) fn behind(text: &str, prefix: &str) -> (r: Option<String>)
    ensures
        r is Some <==> starts(text@, prefix@),
        r matches Some(rest) ==> rest@ == after(text@, prefix@),
{
    let cs: Vec<char> = chars_of(text);
    let ps: Vec<char> = chars_of(prefix);
    if !starts_with(cs.as_slice(), ps.as_slice()) {
        return None;
    }
    let rest: &[char] = slice_subrange(cs.as_slice(), ps.len(), cs.len());
    assert(rest@ =~= after(text@, prefix@));
    Some(string_of(rest))
}

/// Reads a command line.
pub fn parse(argv: &[Vec<u8>]) -> (r: Result<Args, String>)
    ensures
        args_view(r) == line_asks(paths_of(argv@)),
{
    let mut paths: Vec<Vec<u8>> = Vec::new();
    let mut drain: bool = false;
    let mut device: Option<String> = None;
    let mut rt_check: Option<Option<usize>> = None;
    let mut media_check: Option<String> = None;
    let mut only_paths: bool = false;
    let ghost all = paths_of(argv@);
    let mut i: usize = 0;
    assert(all.take(0) =~= Seq::empty());
    assert(paths_of(paths@) =~= Seq::empty());
    while i < argv.len()
        invariant
            i <= argv@.len(),
            all == paths_of(argv@),
            asked_all(all.take(i as int)) == Ok::<Asked, Seq<char>>(
                Asked {
                    paths: paths_of(paths@),
                    drain,
                    device: text_option(device),
                    rt_check,
                    media_check: text_option(media_check),
                    only_paths,
                },
            ),
        decreases argv@.len() - i,
    {
        let ghost upto = all.take(i + 1);
        assert(upto.drop_last() =~= all.take(i as int));
        assert(upto.last() == argv@[i as int]@);
        let text: String = text_lossy(argv[i].as_slice());
        assert(text@ == text_of(argv@[i as int]@));
        match take(text, only_paths) {
            Took::Path => {
                let ghost was = paths_of(paths@);
                paths.push(copied(argv[i].as_slice()));
                assert(paths_of(paths@) =~= was.push(argv@[i as int]@));
            },
            Took::OnlyPaths => {
                only_paths = true;
            },
            Took::Drain => {
                drain = true;
            },
            Took::RtCheck(cpu) => {
                rt_check = Some(cpu);
            },
            Took::MediaCheck(at) => {
                media_check = Some(at);
            },
            Took::Device(d) => {
                device = Some(d);
            },
            Took::Refused(why) => {
                proof {
                    lemma_refused(all, i + 1);
                }
                return Err(why);
            },
        }
        i = i + 1;
    }
    assert(all.take(i as int) =~= all);
    let extras: bool = drain || device.is_some() || paths.len() > 0;
    match (rt_check, media_check) {
        (Some(_), Some(_)) => Err("--rt-check and --media-check are separate runs".to_owned()),
        (Some(cpu), None) => if extras {
            Err("--rt-check takes nothing else; it is a check, not a mode".to_owned())
        } else {
            Ok(Args { mode: Mode::RtCheck(cpu), paths })
        },
        (None, Some(at)) => if extras {
            Err("--media-check takes nothing else; it is a check, not a mode".to_owned())
        } else {
            Ok(Args { mode: Mode::MediaCheck(at), paths })
        },
        (None, None) => playback(drain, device, paths),
    }
}

proof fn lemma_refused(args: Seq<Seq<u8>>, n: int)
    requires
        0 < n <= args.len(),
        asked_all(args.take(n)) is Err,
    ensures
        asked_all(args) == asked_all(args.take(n)),
    decreases args.len() - n,
{
    if n < args.len() {
        assert(args.take(n + 1).drop_last() =~= args.take(n));
        lemma_refused(args, n + 1);
    } else {
        assert(args.take(n) =~= args);
    }
}

/// What one argument is.
enum Took {
    Path,
    OnlyPaths,
    Drain,
    RtCheck(Option<usize>),
    MediaCheck(String),
    Device(String),
    Refused(String),
}

/// What one argument makes of what was asked.
spec fn taken(a: Asked, arg: Seq<u8>, took: Took) -> Result<Asked, Seq<char>> {
    match took {
        Took::Path => Ok(Asked { paths: a.paths.push(arg), ..a }),
        Took::OnlyPaths => Ok(Asked { only_paths: true, ..a }),
        Took::Drain => Ok(Asked { drain: true, ..a }),
        Took::RtCheck(cpu) => Ok(Asked { rt_check: Some(cpu), ..a }),
        Took::MediaCheck(at) => Ok(Asked { media_check: Some(at@), ..a }),
        Took::Device(d) => Ok(Asked { device: Some(d@), ..a }),
        Took::Refused(why) => Err(why@),
    }
}

fn take(text: String, only_paths: bool) -> (r: Took)
    ensures
        forall|a: Asked, arg: Seq<u8>|
            a.only_paths == only_paths && text_of(arg) == text@ ==> #[trigger] asked(a, arg)
                == taken(a, arg, r),
{
    let t: &str = text.as_str();
    if only_paths || behind(t, "-").is_none() {
        return Took::Path;
    }
    if same_text(t, "--") {
        return Took::OnlyPaths;
    }
    if same_text(t, "--drain") {
        return Took::Drain;
    }
    if same_text(t, "--rt-check") {
        return Took::RtCheck(None);
    }
    if same_text(t, "--media-check") {
        return Took::MediaCheck(MOUNT_POINT.to_owned());
    }
    if let Some(d) = behind(t, "--device=") {
        return Took::Device(d);
    }
    if let Some(n) = behind(t, "--rt-check=") {
        let cs: Vec<char> = chars_of(n.as_str());
        return match number(cs.as_slice(), usize::MAX as u64) {
            Some(cpu) => Took::RtCheck(Some(cpu as usize)),
            None => {
                let mut why: String = "--rt-check= wants a core number, got ".to_owned();
                let shown: String = quote(n.as_str());
                why.append(shown.as_str());
                Took::Refused(why)
            },
        };
    }
    if let Some(at) = behind(t, "--media-check=") {
        return Took::MediaCheck(at);
    }
    if same_text(t, "--device") || same_text(t, "--rt-check-") {
        let mut why: String = text.clone();
        why.append(" takes its value with '=', as ");
        why.append(t);
        why.append("=...");
        return Took::Refused(why);
    }
    let mut why: String = "unknown argument ".to_owned();
    let shown: String = quote(t);
    why.append(shown.as_str());
    Took::Refused(why)
}

pub fn playback(drain: bool, device: Option<String>, paths: Vec<Vec<u8>>) -> (r: Result<
    Args,
    String,
>)
    ensures
        args_view(r) == played(drain, text_option(device), paths_of(paths@)),
{
    if drain && device.is_some() {
        return Err("--drain and --device= are two different runs; pick one".to_owned());
    }
    if paths.len() == 0 {
        return Err("no file given".to_owned());
    }
    let mode: Mode = match device {
        Some(d) => Mode::Device(d),
        None => if drain {
            Mode::Drain
        } else {
            Mode::Report
        },
    };
    Ok(Args { mode, paths })
}

/// Nothing on a line is dropped: a run that is a check has no paths, and no
/// run both drains and plays.
pub proof fn law_nothing_on_a_line_is_dropped(a: Asked)
    ensures
        settled(a) matches Ok(args) ==> {
            &&& args.paths == a.paths
            &&& args.mode is RtCheck || args.mode is MediaCheck ==> a.paths.len() == 0 && !a.drain
                && a.device is None
            &&& a.drain ==> args.mode is Drain
            &&& a.device is Some ==> args.mode == ModeView::Device(a.device->0)
            &&& a.rt_check is Some ==> args.mode == ModeView::RtCheck(a.rt_check->0)
            &&& a.media_check is Some ==> args.mode == ModeView::MediaCheck(a.media_check->0)
        },
{
}

/// An argument that does not start with a dash is a path, and behind a lone
/// `--` every argument is, dash or not; a path is kept as it was given, behind
/// those before it.
pub proof fn law_what_is_a_path(a: Asked, arg: Seq<u8>)
    ensures
        a.only_paths || text_of(arg).len() == 0 || text_of(arg)[0] != '-' ==> asked(a, arg) == Ok::<
            Asked,
            Seq<char>,
        >(Asked { paths: a.paths.push(arg), ..a }),
        !a.only_paths && text_of(arg).len() > 0 && text_of(arg)[0] == '-' ==> (asked(
            a,
            arg,
        ) matches Ok(next) ==> next.paths == a.paths),
        !a.only_paths && text_of(arg) == seq!['-', '-'] ==> asked(a, arg) == Ok::<Asked, Seq<char>>(
            Asked { only_paths: true, ..a },
        ),
{
    reveal_strlit("-");
    reveal_strlit("--");
    let t = text_of(arg);
    if t.len() > 0 && t[0] == '-' {
        assert(t.take(1) =~= "-"@);
    }
    if starts(t, "-"@) {
        assert(t.take(1)[0] == '-');
    }
    if t == seq!['-', '-'] {
        assert(t =~= "--"@);
    }
}

/// An option that takes a value has the value that stands behind its equals
/// sign, and changes nothing else: a device by name, a core by number, a mount
/// point by path.
pub proof fn law_an_option_has_the_value_behind_it(
    a: Asked,
    arg: Seq<u8>,
    value: Seq<char>,
    core: nat,
)
    requires
        !a.only_paths,
        core <= usize::MAX,
    ensures
        text_of(arg) == "--device="@ + value ==> asked(a, arg) == Ok::<Asked, Seq<char>>(
            Asked { device: Some(value), ..a },
        ),
        text_of(arg) == "--media-check="@ + value ==> asked(a, arg) == Ok::<Asked, Seq<char>>(
            Asked { media_check: Some(value), ..a },
        ),
        text_of(arg) == "--rt-check="@ + decimal(core) ==> asked(a, arg) == Ok::<Asked, Seq<char>>(
            Asked { rt_check: Some(Some(core as usize)), ..a },
        ),
        text_of(arg) == "--drain"@ ==> asked(a, arg) == Ok::<Asked, Seq<char>>(
            Asked { drain: true, ..a },
        ),
        text_of(arg) == "--rt-check"@ ==> asked(a, arg) == Ok::<Asked, Seq<char>>(
            Asked { rt_check: Some(None), ..a },
        ),
        text_of(arg) == "--device"@ ==> asked(a, arg) is Err,
{
    reveal_strlit("-");
    reveal_strlit("--");
    reveal_strlit("--drain");
    reveal_strlit("--device");
    reveal_strlit("--rt-check");
    reveal_strlit("--rt-check-");
    reveal_strlit("--media-check");
    reveal_strlit("--device=");
    reveal_strlit("--rt-check=");
    reveal_strlit("--media-check=");
    let t = text_of(arg);
    law_what_a_text_starts_with(t, "--device="@, value);
    law_what_a_text_starts_with(t, "--media-check="@, value);
    law_what_a_text_starts_with(t, "--rt-check="@, decimal(core));
    law_a_number_is_written_as_what_it_is(core);
    law_a_word_of_digits_is_its_number(decimal(core), usize::MAX as nat);
    if t.len() > 0 && t[0] == '-' {
        assert(t.take(1) =~= "-"@);
    }
    if starts(t, "--device="@) {
        assert(t.take(9)[2] == 'd' && t.take(9)[3] == 'e' && t.take(9)[8] == '=');
    }
    if starts(t, "--rt-check="@) {
        assert(t.take(11)[2] == 'r' && t.take(11)[10] == '=');
    }
    if starts(t, "--media-check="@) {
        assert(t.take(14)[2] == 'm' && t.take(14)[13] == '=');
    }
    if t == "--device="@ + value {
        assert(t[2] == 'd' && t[3] == 'e' && t[8] == '=' && t.len() >= 9);
    }
    if t == "--media-check="@ + value {
        assert(t[2] == 'm' && t[13] == '=');
    }
    if t == "--rt-check="@ + decimal(core) {
        assert(t[2] == 'r' && t[10] == '=');
    }
    if t == "--drain"@ {
        assert(t[3] == 'r');
    }
    assert("--drain"@[3] == 'r' && "--drain"@[2] == 'd');
    assert("--rt-check"@[2] == 'r' && "--media-check"@[2] == 'm' && "--device"@[2] == 'd');
}

/// What is left when the line is read says which run it is: a check takes
/// nothing beside it, a run takes one output and at least one file, and two
/// runs at once are refused.
pub proof fn law_which_run_a_line_asks_for(a: Asked)
    ensures
        a.rt_check is Some && a.media_check is Some ==> settled(a) is Err,
        a.rt_check is Some || a.media_check is Some ==> (a.drain || a.device is Some || a.paths.len()
            > 0 ==> settled(a) is Err),
        a.rt_check is None && a.media_check is None && a.drain && a.device is Some ==> settled(a)
            is Err,
        a.rt_check is None && a.media_check is None && a.paths.len() == 0 ==> settled(a) is Err,
        a.rt_check is None && a.media_check is None && a.paths.len() > 0 && !(a.drain
            && a.device is Some) ==> (settled(a) matches Ok(args) && args.paths == a.paths && (
        args.mode is Drain <==> a.drain) && (args.mode is Report <==> !a.drain && a.device is None)),
        a.rt_check is Some && a.media_check is None && !a.drain && a.device is None && a.paths.len()
            == 0 ==> settled(a) is Ok,
        a.rt_check is None && a.media_check is Some && !a.drain && a.device is None && a.paths.len()
            == 0 ==> settled(a) is Ok,
{
}

/// The arguments are taken in turn, and the first that is refused ends the
/// line.
pub proof fn law_the_arguments_are_taken_in_turn(args: Seq<Seq<u8>>, arg: Seq<u8>)
    ensures
        asked_all(args) matches Ok(a) ==> asked_all(args.push(arg)) == asked(a, arg),
        asked_all(args) matches Err(why) ==> asked_all(args.push(arg)) == Err::<Asked, Seq<char>>(
            why,
        ),
{
    assert(args.push(arg).drop_last() =~= args);
}

/// A line with nothing on it asks for nothing, and is refused; a line of paths
/// alone asks for a report on them.
pub proof fn law_a_line_of_paths_is_a_report(args: Seq<Seq<u8>>)
    requires
        forall|i: int|
            0 <= i < args.len() ==> text_of(#[trigger] args[i]).len() > 0 && text_of(args[i])[0]
                != '-',
    ensures
        asked_all(args) == Ok::<Asked, Seq<char>>(Asked { paths: args, ..nothing_asked() }),
        args.len() > 0 ==> line_asks(args) == Ok::<ArgsView, Seq<char>>(
            ArgsView { mode: ModeView::Report, paths: args },
        ),
        args.len() == 0 ==> line_asks(args) is Err,
    decreases args.len(),
{
    if args.len() > 0 {
        let front = args.drop_last();
        assert forall|i: int| 0 <= i < front.len() implies text_of(#[trigger] front[i]).len() > 0
            && text_of(front[i])[0] != '-' by {
            assert(front[i] == args[i]);
        }
        law_a_line_of_paths_is_a_report(front);
        assert(args[args.len() - 1] == args.last());
        law_what_is_a_path(Asked { paths: front, ..nothing_asked() }, args.last());
        assert(front.push(args.last()) =~= args);
    } else {
        assert(args =~= Seq::empty());
    }
}

} // verus!
