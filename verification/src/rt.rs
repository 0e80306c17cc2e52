//! Realtime process setup: locked memory, `SCHED_FIFO`, core pinning.
//!
//! Everything here fails silently if it is let: each call is applied and then
//! read back, and a mismatch names the field. Two of the limits can be asked
//! about before trying, which says what is missing rather than that something
//! was refused.

use vstd::prelude::*;

use crate::scan::{
    all_white, first_word, law_a_word_of_digits_is_its_number, law_the_first_word_is_found,
    law_what_a_text_starts_with, lines, lines_of, number, number_of, starts, starts_with, texts, white,
    word,
};
use crate::text::{
    chars_of, decimal, decimal_text, law_a_number_is_written_as_what_it_is, push_decimal, push_signed,
    signed_decimal, signed_text,
};
use vstd::slice::slice_subrange;

verus! {

/// The priorities that may be asked for. One outside them is refused rather
/// than passed on: the kernel would take one above its own threads.
pub const PRIORITY_MIN: i32 = 70;

pub const PRIORITY_MAX: i32 = 80;

pub open spec fn in_range(priority: i32) -> bool {
    PRIORITY_MIN <= priority <= PRIORITY_MAX
}

/// Whether a priority is one that may be asked for.
pub fn in_priority_range(priority: i32) -> (r: bool)
    ensures
        r == in_range(priority),
{
    PRIORITY_MIN <= priority && priority <= PRIORITY_MAX
}

/// What to ask the kernel for.
#[derive(Debug, Clone, Copy, PartialEq, Eq)]
pub struct RtRequest {
    pub priority: i32,
    /// Stack bytes to touch before the deadline starts.
    pub stack_prefault_bytes: usize,
    /// The core to pin the audio thread to.
    pub cpu: Option<usize>,
}

impl Default for RtRequest {
    fn default() -> (r: RtRequest)
        ensures
            r == (RtRequest { priority: 75, stack_prefault_bytes: 262_144, cpu: None }),
    {
        RtRequest { priority: 75, stack_prefault_bytes: 262_144, cpu: None }
    }
}

/// The scheduling policy in force.
#[derive(Debug, Clone, Copy, PartialEq, Eq, Structural)]
pub enum Policy {
    Fifo,
    RoundRobin,
    /// The ordinary timeshare policy, which a refused promotion leaves.
    Other,
    Unknown(i32),
}

pub const SCHED_OTHER: i32 = 0;

pub const SCHED_FIFO: i32 = 1;

pub const SCHED_RR: i32 = 2;

impl Policy {
    pub open spec fn numbered(n: i32) -> Policy {
        if n == SCHED_FIFO {
            Policy::Fifo
        } else if n == SCHED_RR {
            Policy::RoundRobin
        } else if n == SCHED_OTHER {
            Policy::Other
        } else {
            Policy::Unknown(n)
        }
    }

    /// The policy the kernel calls by a number.
    pub fn of(n: i32) -> (r: Policy)
        ensures
            r == Policy::numbered(n),
    {
        if n == SCHED_FIFO {
            Policy::Fifo
        } else if n == SCHED_RR {
            Policy::RoundRobin
        } else if n == SCHED_OTHER {
            Policy::Other
        } else {
            Policy::Unknown(n)
        }
    }

    pub open spec fn text(self) -> Seq<char> {
        match self {
            Policy::Fifo => "SCHED_FIFO"@,
            Policy::RoundRobin => "SCHED_RR"@,
            Policy::Other => "SCHED_OTHER"@,
            Policy::Unknown(n) => "policy "@ + signed_decimal(n as int),
        }
    }

    pub fn to_text(self) -> (r: String)
        ensures
            r@ == self.text(),
    {
        match self {
            Policy::Fifo => "SCHED_FIFO".to_owned(),
            Policy::RoundRobin => "SCHED_RR".to_owned(),
            Policy::Other => "SCHED_OTHER".to_owned(),
            Policy::Unknown(n) => {
                let mut out: String = "policy ".to_owned();
                push_signed(&mut out, n as i64);
                out
            },
        }
    }
}

/// The two limits that decide whether any of this can work.
#[derive(Debug, Clone, Copy, PartialEq, Eq)]
pub struct Limits {
    /// Bytes that may be locked, or none for no limit.
    pub memlock_bytes: Option<u64>,
    /// The highest priority that may be asked for.
    pub rtprio: u64,
}

impl Limits {
    pub open spec fn lockable(self, needed: u64) -> bool {
        self.memlock_bytes matches Some(limit) ==> limit >= needed
    }

    pub fn allows_locking(&self, needed_bytes: u64) -> (r: bool)
        ensures
            r == self.lockable(needed_bytes),
    {
        match self.memlock_bytes {
            None => true,
            Some(limit) => limit >= needed_bytes,
        }
    }

    pub open spec fn grantable(self, priority: i32) -> bool {
        priority >= 0 && self.rtprio >= priority
    }

    pub fn allows_priority(&self, priority: i32) -> (r: bool)
        ensures
            r == self.grantable(priority),
    {
        priority >= 0 && self.rtprio >= priority as u64
    }
}

/// What the kernel says is in force.
#[derive(Debug, Clone, PartialEq, Eq)]
pub struct RtInForce {
    pub policy: Policy,
    pub priority: i32,
    /// Locked memory, in KiB.
    pub locked_kib: u64,
    /// The cores this thread may run on.
    pub cpus: Vec<usize>,
}

/// The same as a mathematical value.
pub struct InForceView {
    pub policy: Policy,
    pub priority: i32,
    pub locked_kib: u64,
    pub cpus: Seq<usize>,
}

impl View for RtInForce {
    type V = InForceView;

    open spec fn view(&self) -> InForceView {
        InForceView {
            policy: self.policy,
            priority: self.priority,
            locked_kib: self.locked_kib,
            cpus: self.cpus@,
        }
    }
}

/// Every way this can go wrong.
#[derive(Debug, Clone, PartialEq, Eq)]
pub enum RtError {
    /// A limit rules the request out before it is made. The remedy is what
    /// `/etc/security/limits.conf` lacks.
    Forbidden { what: &'static str, limit: String, needed: String, remedy: String },
    /// A call refused.
    Refused { call: &'static str, errno: i32 },
    /// It returned success and reads back as something else.
    NotInForce { field: &'static str, asked: String, got: String },
    PriorityOutOfRange { asked: i32 },
    /// One of the kernel's files could not be read.
    Proc(String),
    /// There is nothing here to set up.
    NotSupported,
}

/// The same as a mathematical value.
pub enum RtErrorView {
    Forbidden { what: Seq<char>, limit: Seq<char>, needed: Seq<char>, remedy: Seq<char> },
    Refused { call: Seq<char>, errno: i32 },
    NotInForce { field: Seq<char>, asked: Seq<char>, got: Seq<char> },
    PriorityOutOfRange { asked: i32 },
    Proc(Seq<char>),
    NotSupported,
}

impl View for RtError {
    type V = RtErrorView;

    open spec fn view(&self) -> RtErrorView {
        match *self {
            RtError::Forbidden { what, limit, needed, remedy } => RtErrorView::Forbidden {
                what: what@,
                limit: limit@,
                needed: needed@,
                remedy: remedy@,
            },
            RtError::Refused { call, errno } => RtErrorView::Refused { call: call@, errno },
            RtError::NotInForce { field, asked, got } => RtErrorView::NotInForce {
                field: field@,
                asked: asked@,
                got: got@,
            },
            RtError::PriorityOutOfRange { asked } => RtErrorView::PriorityOutOfRange { asked },
            RtError::Proc(m) => RtErrorView::Proc(m@),
            RtError::NotSupported => RtErrorView::NotSupported,
        }
    }
}

impl RtError {
    pub open spec fn text(e: RtErrorView) -> Seq<char> {
        match e {
            RtErrorView::Forbidden { what, limit, needed, remedy } => what + " needs "@ + needed
                + " but the limit is "@ + limit
                + " — add to /etc/security/limits.conf:\n    "@ + remedy,
            RtErrorView::Refused { call, errno } => call + " refused: errno "@ + signed_decimal(
                errno as int,
            ),
            RtErrorView::NotInForce { field, asked, got } => field + " asked for "@ + asked
                + " and the kernel reports "@ + got,
            RtErrorView::PriorityOutOfRange { asked } => "SCHED_FIFO priority "@ + signed_decimal(
                asked as int,
            ) + " is outside the 70-80 range architecture.md specifies"@,
            RtErrorView::Proc(m) => m,
            RtErrorView::NotSupported => "realtime setup needs Linux; this is not the deck"@,
        }
    }

    pub fn to_text(&self) -> (r: String)
        ensures
            r@ == RtError::text(self@),
    {
        let mut out: String = String::new();
        match self {
            RtError::Forbidden { what, limit, needed, remedy } => {
                out.append(what);
                out.append(" needs ");
                out.append(needed.as_str());
                out.append(" but the limit is ");
                out.append(limit.as_str());
                out.append(" — add to /etc/security/limits.conf:\n    ");
                out.append(remedy.as_str());
            },
            RtError::Refused { call, errno } => {
                out.append(call);
                out.append(" refused: errno ");
                push_signed(&mut out, *errno as i64);
            },
            RtError::NotInForce { field, asked, got } => {
                out.append(field);
                out.append(" asked for ");
                out.append(asked.as_str());
                out.append(" and the kernel reports ");
                out.append(got.as_str());
            },
            RtError::PriorityOutOfRange { asked } => {
                out.append("SCHED_FIFO priority ");
                push_signed(&mut out, *asked as i64);
                out.append(" is outside the 70-80 range architecture.md specifies");
            },
            RtError::Proc(m) => {
                out.append(m.as_str());
            },
            RtError::NotSupported => {
                out.append("realtime setup needs Linux; this is not the deck");
            },
        }
        assert(out@ =~= RtError::text(self@));
        out
    }
}

/// The line that tells how much memory is locked: the number on the first line
/// that starts with its name.
pub open spec fn vmlck_in(ls: Seq<Seq<char>>) -> Option<nat>
    decreases ls.len(),
{
    if ls.len() == 0 {
        None
    } else if starts(ls[0], "VmLck:"@) {
        match first_word(ls[0].skip("VmLck:"@.len() as int)) {
            Some(w) => number_of(w, u64::MAX as nat),
            None => None,
        }
    } else {
        vmlck_in(ls.skip(1))
    }
}

/// Reads the locked memory out of `/proc/self/status`, in KiB. A file without
/// the line is not one that says zero.
pub fn parse_vmlck_kib(status: &str) -> (r: Option<u64>)
    ensures
        r matches Some(n) ==> vmlck_in(lines_of(status@)) == Some(n as nat),
        r is None ==> vmlck_in(lines_of(status@)) is None,
{
    let cs: Vec<char> = chars_of(status);
    let all: Vec<Vec<char>> = lines(cs.as_slice());
    let key: Vec<char> = chars_of("VmLck:");
    let ghost ls = lines_of(status@);
    let mut i: usize = 0;
    assert(ls.skip(0) =~= ls);
    while i < all.len()
        invariant
            i <= all@.len(),
            texts(all@) == ls,
            key@ == "VmLck:"@,
            ls == lines_of(status@),
            vmlck_in(ls.skip(i as int)) == vmlck_in(ls),
        decreases all@.len() - i,
    {
        let line: &[char] = all[i].as_slice();
        assert(line@ == ls[i as int]);
        assert(ls.skip(i as int).skip(1) =~= ls.skip(i + 1));
        if starts_with(line, key.as_slice()) {
            let rest: &[char] = slice_subrange(line, key.len(), line.len());
            assert(rest@ =~= line@.skip(key@.len() as int));
            return match word(rest) {
                Some(w) => number(w.as_slice(), u64::MAX),
                None => None,
            };
        }
        i = i + 1;
    }
    None
}

/// What `/etc/security/limits.conf` has to hold.
pub fn limits_conf_lines() -> (r: &'static str)
    ensures
        r@ == "@audio - memlock unlimited\n    @audio - rtprio 80"@,
{
    "@audio - memlock unlimited\n    @audio - rtprio 80"
}

/// The page size the stack is stepped through by.
pub const PAGE: usize = 4096;

/// The most stack that is touched, whatever is asked for.
pub const STACK_PREFAULT_CAP: usize = 1_048_576;

/// How many pages a request comes to.
pub fn prefault_pages(bytes: usize) -> (r: usize)
    ensures
        r == (if bytes < STACK_PREFAULT_CAP {
            bytes as int
        } else {
            STACK_PREFAULT_CAP as int
        }) / PAGE as int,
        r <= 256,
{
    let capped: usize = if bytes < STACK_PREFAULT_CAP {
        bytes
    } else {
        STACK_PREFAULT_CAP
    };
    capped / PAGE
}

/// Why a call of the kernel did not work.
#[derive(Debug, Clone, Copy, PartialEq, Eq, Structural)]
pub enum Refusal {
    Errno(i32),
    /// There is no such call here.
    NotSupported,
}

pub open spec fn refused(call: Seq<char>, why: Refusal) -> RtErrorView {
    match why {
        Refusal::Errno(errno) => RtErrorView::Refused { call, errno },
        Refusal::NotSupported => RtErrorView::NotSupported,
    }
}

pub fn refusal(call: &'static str, why: Refusal) -> (r: RtError)
    ensures
        r@ == refused(call@, why),
{
    match why {
        Refusal::Errno(errno) => RtError::Refused { call, errno },
        Refusal::NotSupported => RtError::NotSupported,
    }
}

/// What the kernel calls no limit.
pub const RLIM_INFINITY: u64 = u64::MAX;

/// The limits, from what the kernel answered for each.
pub fn limits(memlock: Result<u64, Refusal>, rtprio: Result<u64, Refusal>) -> (r: Result<
    Limits,
    RtError,
>)
    ensures
        match (memlock, rtprio) {
            (Err(why), _) => r is Err && r->Err_0@ == refused("getrlimit"@, why),
            (Ok(_), Err(why)) => r is Err && r->Err_0@ == refused("getrlimit"@, why),
            (Ok(m), Ok(p)) => r == Ok::<Limits, RtError>(
                Limits {
                    memlock_bytes: if m == RLIM_INFINITY {
                        None
                    } else {
                        Some(m)
                    },
                    rtprio: p,
                },
            ),
        },
{
    match memlock {
        Err(why) => Err(refusal("getrlimit", why)),
        Ok(m) => match rtprio {
            Err(why) => Err(refusal("getrlimit", why)),
            Ok(p) => Ok(
                Limits {
                    memlock_bytes: if m == RLIM_INFINITY {
                        None
                    } else {
                        Some(m)
                    },
                    rtprio: p,
                },
            ),
        },
    }
}

/// A count of bytes in words.
pub open spec fn in_bytes(n: nat) -> Seq<char> {
    decimal(n) + " bytes"@
}

fn bytes_text(n: u64) -> (r: String)
    ensures
        r@ == in_bytes(n as nat),
{
    let mut out: String = decimal_text(n as u128);
    out.append(" bytes");
    out
}

pub open spec fn locking_forbidden(lim: Limits, needed: u64) -> RtErrorView {
    RtErrorView::Forbidden {
        what: "mlockall"@,
        limit: in_bytes(
            match lim.memlock_bytes {
                Some(n) => n as nat,
                None => 0,
            },
        ),
        needed: in_bytes(needed as nat),
        remedy: "@audio - memlock unlimited\n    @audio - rtprio 80"@,
    }
}

/// Whether locking this much is worth asking for: the refusal names the limit
/// that is in the way.
pub fn lock_memory(lim: &Limits, needed_bytes: u64) -> (r: Result<(), RtError>)
    ensures
        r is Ok <==> lim.lockable(needed_bytes),
        r matches Err(e) ==> e@ == locking_forbidden(*lim, needed_bytes),
{
    if lim.allows_locking(needed_bytes) {
        return Ok(());
    }
    let limit: u64 = match lim.memlock_bytes {
        Some(n) => n,
        None => 0,
    };
    Err(
        RtError::Forbidden {
            what: "mlockall",
            limit: bytes_text(limit),
            needed: bytes_text(needed_bytes),
            remedy: limits_conf_lines().to_owned(),
        },
    )
}

pub open spec fn priority_forbidden(lim: Limits, priority: i32) -> RtErrorView {
    RtErrorView::Forbidden {
        what: "SCHED_FIFO"@,
        limit: "rtprio "@ + decimal(lim.rtprio as nat),
        needed: "priority "@ + signed_decimal(priority as int),
        remedy: "@audio - memlock unlimited\n    @audio - rtprio 80"@,
    }
}

/// Whether the promotion is worth asking for. A priority outside the range is
/// refused before anything is asked of the kernel, its limits included.
pub fn promote_current_thread(req: &RtRequest, lim: Result<Limits, RtError>) -> (r: Result<
    (),
    RtError,
>)
    ensures
        !in_range(req.priority) ==> r is Err && r->Err_0@ == (RtErrorView::PriorityOutOfRange {
            asked: req.priority,
        }),
        in_range(req.priority) ==> match lim {
            Err(e) => r is Err && r->Err_0 == e,
            Ok(l) => if l.grantable(req.priority) {
                r is Ok
            } else {
                r is Err && r->Err_0@ == priority_forbidden(l, req.priority)
            },
        },
{
    if !in_priority_range(req.priority) {
        return Err(RtError::PriorityOutOfRange { asked: req.priority });
    }
    match lim {
        Err(e) => Err(e),
        Ok(l) => {
            if l.allows_priority(req.priority) {
                return Ok(());
            }
            let mut limit: String = "rtprio ".to_owned();
            push_decimal(&mut limit, l.rtprio as u128);
            let mut needed: String = "priority ".to_owned();
            push_signed(&mut needed, req.priority as i64);
            Err(
                RtError::Forbidden {
                    what: "SCHED_FIFO",
                    limit,
                    needed,
                    remedy: limits_conf_lines().to_owned(),
                },
            )
        },
    }
}

/// The error of a core the mask has no bit for.
pub const EINVAL: i32 = 22;

/// Whether a core is one a mask of this many bits can name.
pub fn pin_current_thread(cpu: usize, width: usize) -> (r: Result<(), RtError>)
    ensures
        r is Ok <==> cpu < width,
        r matches Err(e) ==> e@ == (RtErrorView::Refused { call: "CPU_SET"@, errno: EINVAL }),
{
    if cpu >= width {
        Err(RtError::Refused { call: "CPU_SET", errno: EINVAL })
    } else {
        Ok(())
    }
}

/// What the kernel answered when it was asked what is in force, each in turn.
#[derive(Debug)]
pub struct ReadBack {
    pub policy: Result<i32, Refusal>,
    pub priority: Result<i32, Refusal>,
    /// The text of `/proc/self/status`, or why it could not be read.
    pub status: Result<String, String>,
    /// One flag for each core.
    pub affinity: Result<Vec<bool>, Refusal>,
}

/// The places that are set.
pub open spec fn set_in(mask: Seq<bool>) -> Seq<usize>
    decreases mask.len(),
{
    if mask.len() == 0 {
        Seq::empty()
    } else if mask.last() {
        set_in(mask.drop_last()).push((mask.len() - 1) as usize)
    } else {
        set_in(mask.drop_last())
    }
}

pub open spec fn in_force_view(r: Result<RtInForce, RtError>) -> Result<InForceView, RtErrorView> {
    match r {
        Ok(got) => Ok(got@),
        Err(e) => Err(e@),
    }
}

/// What is in force, from the answers.
pub open spec fn force_of(b: ReadBack) -> Result<InForceView, RtErrorView> {
    match (b.policy, b.priority) {
        (Err(why), _) => Err(refused("sched_getscheduler"@, why)),
        (Ok(_), Err(why)) => Err(refused("sched_getparam"@, why)),
        (Ok(policy), Ok(priority)) => match b.status {
            Err(reason) => Err(RtErrorView::Proc("/proc/self/status: "@ + reason@)),
            Ok(status) => match vmlck_in(lines_of(status@)) {
                None => Err(RtErrorView::Proc("/proc/self/status carries no VmLck line"@)),
                Some(kib) => match b.affinity {
                    Err(why) => Err(refused("sched_getaffinity"@, why)),
                    Ok(mask) => Ok(
                        InForceView {
                            policy: Policy::numbered(policy),
                            priority,
                            locked_kib: kib as u64,
                            cpus: set_in(mask@),
                        },
                    ),
                },
            },
        },
    }
}

fn cores_of(mask: &[bool]) -> (r: Vec<usize>)
    ensures
        r@ == set_in(mask@),
{
    let mut out: Vec<usize> = Vec::new();
    let mut i: usize = 0;
    assert(mask@.take(0) =~= Seq::empty());
    while i < mask.len()
        invariant
            i <= mask@.len(),
            out@ == set_in(mask@.take(i as int)),
        decreases mask@.len() - i,
    {
        assert(mask@.take(i + 1).drop_last() =~= mask@.take(i as int));
        if mask[i] {
            out.push(i);
        }
        i = i + 1;
    }
    assert(mask@.take(i as int) =~= mask@);
    out
}

/// Reads back what is in force for the calling thread.
pub fn in_force(back: ReadBack) -> (r: Result<RtInForce, RtError>)
    ensures
        in_force_view(r) == force_of(back),
{
    let policy: i32 = match back.policy {
        Ok(n) => n,
        Err(why) => {
            return Err(refusal("sched_getscheduler", why));
        },
    };
    let priority: i32 = match back.priority {
        Ok(n) => n,
        Err(why) => {
            return Err(refusal("sched_getparam", why));
        },
    };
    let status: String = match back.status {
        Ok(text) => text,
        Err(reason) => {
            let mut out: String = "/proc/self/status: ".to_owned();
            out.append(reason.as_str());
            return Err(RtError::Proc(out));
        },
    };
    let locked_kib: u64 = match parse_vmlck_kib(status.as_str()) {
        Some(kib) => kib,
        None => {
            return Err(RtError::Proc("/proc/self/status carries no VmLck line".to_owned()));
        },
    };
    let mask: Vec<bool> = match back.affinity {
        Ok(mask) => mask,
        Err(why) => {
            return Err(refusal("sched_getaffinity", why));
        },
    };
    Ok(
        RtInForce {
            policy: Policy::of(policy),
            priority,
            locked_kib,
            cpus: cores_of(mask.as_slice()),
        },
    )
}

/// Whether a policy is a realtime one: a thread that blocks must not have one.
/// Where there is no scheduler to ask, none is.
pub fn is_realtime(policy: Result<i32, Refusal>) -> (r: bool)
    ensures
        r == (policy matches Ok(n) && (n == SCHED_FIFO || n == SCHED_RR)),
{
    match policy {
        Ok(n) => n == SCHED_FIFO || n == SCHED_RR,
        Err(_) => false,
    }
}

/// What has just been done.
#[derive(Debug)]
pub enum Did {
    /// The memory was locked, or not.
    Locked(Result<(), RtError>),
    /// This much of the stack was reached.
    Touched(usize),
    Pinned(Result<(), RtError>),
    Promoted(Result<(), RtError>),
    Read(Result<RtInForce, RtError>),
}

/// What to do next.
#[derive(Debug)]
pub enum Next {
    /// Touch this many bytes of the stack.
    Touch(usize),
    Pin(usize),
    Promote(i32),
    ReadBack,
    Finished(Result<RtInForce, RtError>),
}

/// Cores as they are shown.
pub open spec fn shown(cpus: Seq<usize>) -> Seq<char>
    decreases cpus.len(),
{
    if cpus.len() == 0 {
        Seq::empty()
    } else if cpus.len() == 1 {
        decimal(cpus[0] as nat)
    } else {
        shown(cpus.drop_last()) + ", "@ + decimal(cpus.last() as nat)
    }
}

/// Why what is in force is not what was asked for: the first thing that
/// differs.
pub open spec fn amiss(req: RtRequest, got: InForceView) -> Option<RtErrorView> {
    if got.policy != Policy::Fifo {
        Some(
            RtErrorView::NotInForce {
                field: "scheduling policy"@,
                asked: "SCHED_FIFO"@,
                got: got.policy.text(),
            },
        )
    } else if got.priority != req.priority {
        Some(
            RtErrorView::NotInForce {
                field: "SCHED_FIFO priority"@,
                asked: signed_decimal(req.priority as int),
                got: signed_decimal(got.priority as int),
            },
        )
    } else if got.locked_kib == 0 {
        Some(
            RtErrorView::NotInForce {
                field: "locked memory (VmLck)"@,
                asked: "more than 0 kB"@,
                got: "0 kB"@,
            },
        )
    } else if req.cpu is Some && got.cpus != seq![req.cpu->0] {
        Some(
            RtErrorView::NotInForce {
                field: "CPU affinity"@,
                asked: "["@ + decimal(req.cpu->0 as nat) + "]"@,
                got: "["@ + shown(got.cpus) + "]"@,
            },
        )
    } else {
        None
    }
}

/// Whether the stack was reached as far as it has to be: half of what was
/// asked for.
pub open spec fn reached_enough(req: RtRequest, reached: usize) -> bool {
    req.stack_prefault_bytes < PAGE || reached >= req.stack_prefault_bytes / 2
}

pub fn shown_text(cpus: &[usize]) -> (r: String)
    ensures
        r@ == shown(cpus@),
{
    let mut out: String = String::new();
    let mut i: usize = 0;
    assert(cpus@.take(0) =~= Seq::empty());
    assert(out@ =~= shown(Seq::empty()));
    while i < cpus.len()
        invariant
            i <= cpus@.len(),
            out@ == shown(cpus@.take(i as int)),
        decreases cpus@.len() - i,
    {
        let ghost upto = cpus@.take(i + 1);
        let ghost said = out@;
        assert(upto.drop_last() =~= cpus@.take(i as int));
        if i > 0 {
            out.append(", ");
            push_decimal(&mut out, cpus[i] as u128);
            assert(out@ =~= said + ", "@ + decimal(cpus@[i as int] as nat));
        } else {
            push_decimal(&mut out, cpus[i] as u128);
            assert(said =~= Seq::empty());
            assert(out@ =~= decimal(cpus@[0] as nat));
        }
        i = i + 1;
    }
    assert(cpus@.take(i as int) =~= cpus@);
    out
}

/// Holds what the kernel reports against what was asked for. What comes back
/// is what the kernel reports, so that a request is never logged as an
/// outcome.
pub fn verified(req: &RtRequest, got: RtInForce) -> (r: Result<RtInForce, RtError>)
    ensures
        match amiss(*req, got@) {
            Some(why) => r is Err && r->Err_0@ == why,
            None => r == Ok::<RtInForce, RtError>(got),
        },
{
    if got.policy != Policy::Fifo {
        return Err(
            RtError::NotInForce {
                field: "scheduling policy",
                asked: Policy::Fifo.to_text(),
                got: got.policy.to_text(),
            },
        );
    }
    if got.priority != req.priority {
        return Err(
            RtError::NotInForce {
                field: "SCHED_FIFO priority",
                asked: signed_text(req.priority as i64),
                got: signed_text(got.priority as i64),
            },
        );
    }
    if got.locked_kib == 0 {
        return Err(
            RtError::NotInForce {
                field: "locked memory (VmLck)",
                asked: "more than 0 kB".to_owned(),
                got: "0 kB".to_owned(),
            },
        );
    }
    if let Some(cpu) = req.cpu {
        let alone: bool = got.cpus.len() == 1 && got.cpus[0] == cpu;
        assert(alone ==> got.cpus@ =~= seq![cpu]);
        if !alone {
            let mut asked: String = "[".to_owned();
            push_decimal(&mut asked, cpu as u128);
            asked.append("]");
            let cores: String = shown_text(got.cpus.as_slice());
            let mut report: String = "[".to_owned();
            report.append(cores.as_str());
            report.append("]");
            return Err(RtError::NotInForce { field: "CPU affinity", asked, got: report });
        }
    }
    Ok(got)
}

/// What follows the stack: the core, where one was asked for, and the priority
/// last.
pub open spec fn after_stack(req: RtRequest) -> Next {
    match req.cpu {
        Some(cpu) => Next::Pin(cpu),
        None => Next::Promote(req.priority),
    }
}

/// One step of the setup, in the order the steps depend on each other: the
/// memory first, or touching the stack buys nothing, and the priority last.
/// It starts with locking the memory.
pub fn apply(req: &RtRequest, did: Did) -> (r: Next)
    ensures
        match did {
            Did::Locked(Err(e)) => r == Next::Finished(Err(e)),
            Did::Locked(Ok(_)) => r == Next::Touch(req.stack_prefault_bytes),
            Did::Touched(reached) => if reached_enough(*req, reached) {
                r == after_stack(*req)
            } else {
                r is Finished && r->0 is Err && r->0->Err_0@ == (RtErrorView::NotInForce {
                    field: "stack prefault reach"@,
                    asked: in_bytes(req.stack_prefault_bytes as nat),
                    got: in_bytes(reached as nat),
                })
            },
            Did::Pinned(Err(e)) => r == Next::Finished(Err(e)),
            Did::Pinned(Ok(_)) => r == Next::Promote(req.priority),
            Did::Promoted(Err(e)) => r == Next::Finished(Err(e)),
            Did::Promoted(Ok(_)) => r == Next::ReadBack,
            Did::Read(Err(e)) => r == Next::Finished(Err(e)),
            Did::Read(Ok(got)) => match amiss(*req, got@) {
                Some(why) => r is Finished && r->0 is Err && r->0->Err_0@ == why,
                None => r == Next::Finished(Ok(got)),
            },
        },
{
    match did {
        Did::Locked(Err(e)) => Next::Finished(Err(e)),
        Did::Locked(Ok(_)) => Next::Touch(req.stack_prefault_bytes),
        Did::Touched(reached) => {
            if req.stack_prefault_bytes >= PAGE && reached < req.stack_prefault_bytes / 2 {
                return Next::Finished(
                    Err(
                        RtError::NotInForce {
                            field: "stack prefault reach",
                            asked: bytes_text(req.stack_prefault_bytes as u64),
                            got: bytes_text(reached as u64),
                        },
                    ),
                );
            }
            match req.cpu {
                Some(cpu) => Next::Pin(cpu),
                None => Next::Promote(req.priority),
            }
        },
        Did::Pinned(Err(e)) => Next::Finished(Err(e)),
        Did::Pinned(Ok(_)) => Next::Promote(req.priority),
        Did::Promoted(Err(e)) => Next::Finished(Err(e)),
        Did::Promoted(Ok(_)) => Next::ReadBack,
        Did::Read(Err(e)) => Next::Finished(Err(e)),
        Did::Read(Ok(got)) => Next::Finished(verified(req, got)),
    }
}

/// A setup that is reported as done reads back as it was asked for, field by
/// field.
pub proof fn law_success_is_what_the_kernel_reports(req: RtRequest, got: InForceView)
    ensures
        amiss(req, got) is None <==> got.policy == Policy::Fifo && got.priority == req.priority
            && got.locked_kib > 0 && (req.cpu matches Some(cpu) ==> got.cpus == seq![cpu]),
{
}

/// The cores that are set are the ones the mask has, each once and in order.
pub proof fn law_the_cores_are_those_of_the_mask(mask: Seq<bool>)
    requires
        mask.len() <= usize::MAX,
    ensures
        forall|i: usize| #[trigger] set_in(mask).contains(i) <==> i < mask.len() && mask[i as int],
        forall|i: int, j: int|
            0 <= i < j < set_in(mask).len() ==> #[trigger] set_in(mask)[i] < #[trigger] set_in(
                mask,
            )[j],
    decreases mask.len(),
{
    if mask.len() > 0 {
        let front = mask.drop_last();
        law_the_cores_are_those_of_the_mask(front);
        let (was, now) = (set_in(front), set_in(mask));
        let last = (mask.len() - 1) as usize;
        assert forall|i: usize| #[trigger] now.contains(i) <==> i < mask.len() && mask[i as int] by {
            if now.contains(i) {
                let k = choose|k: int| 0 <= k < now.len() && now[k] == i;
                if k < was.len() {
                    assert(was[k] == i);
                    assert(was.contains(i));
                }
            }
            if i < mask.len() && mask[i as int] {
                if i < last {
                    assert(was.contains(i));
                    let k = choose|k: int| 0 <= k < was.len() && was[k] == i;
                    assert(now[k] == i);
                } else {
                    assert(now[now.len() - 1] == i);
                }
            }
        }
        assert forall|i: int, j: int| 0 <= i < j < now.len() implies #[trigger] now[i]
            < #[trigger] now[j] by {
            assert(was.contains(was[i]));
            if j < was.len() {
                assert(was[i] < was[j]);
            }
        }
    } else {
        assert forall|i: usize| !#[trigger] set_in(mask).contains(i) by {}
    }
}

/// What is locked is what the first such line of the status says, whatever
/// lines stand before it.
pub proof fn law_what_is_locked_is_what_the_status_says(
    before: Seq<Seq<char>>,
    space: Seq<char>,
    n: nat,
    unit: Seq<char>,
    after: Seq<Seq<char>>,
)
    requires
        forall|i: int| 0 <= i < before.len() ==> !starts(#[trigger] before[i], "VmLck:"@),
        all_white(space),
        n <= u64::MAX,
        unit.len() == 0 || white(unit[0]),
    ensures
        vmlck_in(before + seq!["VmLck:"@ + (space + decimal(n) + unit)] + after) == Some(n),
        vmlck_in(before) is None,
    decreases before.len(),
{
    let line = "VmLck:"@ + (space + decimal(n) + unit);
    let all = before + seq![line] + after;
    if before.len() > 0 {
        assert(!starts(before[0], "VmLck:"@));
        assert(all[0] == before[0]);
        let rest = before.skip(1);
        assert(all.skip(1) =~= rest + seq![line] + after);
        assert forall|i: int| 0 <= i < rest.len() implies !starts(#[trigger] rest[i], "VmLck:"@) by {
            assert(rest[i] == before[i + 1]);
        }
        law_what_is_locked_is_what_the_status_says(rest, space, n, unit, after);
    } else {
        assert(all[0] == line);
        law_what_a_text_starts_with(line, "VmLck:"@, space + decimal(n) + unit);
        law_a_number_is_written_as_what_it_is(n);
        assert forall|i: int| 0 <= i < decimal(n).len() implies !white(#[trigger] decimal(n)[i]) by {
            assert(48 <= decimal(n)[i] as int <= 57);
        }
        law_the_first_word_is_found(space, decimal(n), unit);
        law_a_word_of_digits_is_its_number(decimal(n), u64::MAX as nat);
    }
}

/// What is read back is what the kernel was asked and answered, each in its
/// own place; a question that was refused is named, in the order they are
/// asked.
pub proof fn law_what_is_read_back_is_what_was_answered(b: ReadBack)
    ensures
        force_of(b) matches Ok(got) ==> {
            &&& b.policy matches Ok(p) && (got.policy == Policy::Fifo <==> p == 1) && (got.policy
                == Policy::RoundRobin <==> p == 2) && (got.policy == Policy::Other <==> p == 0)
            &&& b.priority == Ok::<i32, Refusal>(got.priority)
            &&& b.affinity matches Ok(mask) && got.cpus == set_in(mask@)
            &&& b.status matches Ok(text) && vmlck_in(lines_of(text@)) == Some(
                got.locked_kib as nat,
            )
        },
        b.policy matches Err(Refusal::Errno(errno)) ==> force_of(b) == Err::<
            InForceView,
            RtErrorView,
        >(RtErrorView::Refused { call: "sched_getscheduler"@, errno }),
{
    if let (Ok(_), Ok(_), Ok(text)) = (b.policy, b.priority, b.status) {
        lemma_vmlck_fits(lines_of(text@));
    }
}

proof fn lemma_vmlck_fits(ls: Seq<Seq<char>>)
    ensures
        vmlck_in(ls) matches Some(n) ==> n <= u64::MAX,
    decreases ls.len(),
{
    if ls.len() > 0 {
        lemma_vmlck_fits(ls.skip(1));
    }
}

/// What may be asked for: a priority from seventy to eighty that the limit
/// covers, and as many bytes locked as the limit allows, where there is one.
pub proof fn law_what_may_be_asked_for(lim: Limits, priority: i32, needed: u64, req: RtRequest)
    ensures
        in_range(priority) <==> 70 <= priority <= 80,
        in_range(priority) ==> (lim.grantable(priority) <==> priority <= lim.rtprio),
        lim.memlock_bytes is None ==> lim.lockable(needed),
        lim.memlock_bytes matches Some(n) ==> (lim.lockable(needed) <==> needed <= n),
        req.cpu matches Some(cpu) ==> after_stack(req) == Next::Pin(cpu),
        req.cpu is None ==> after_stack(req) == Next::Promote(req.priority),
{
}

/// The policies read apart.
pub proof fn law_the_policies_read_apart(a: Policy, b: Policy)
    requires
        !(a is Unknown),
        !(b is Unknown),
        a != b,
    ensures
        a.text() != b.text(),
{
    reveal_strlit("SCHED_FIFO");
    reveal_strlit("SCHED_RR");
    reveal_strlit("SCHED_OTHER");
    let (x, y) = (a.text(), b.text());
    assert(x.len() != y.len() || x[6] != y[6]);
}

/// The stack was touched far enough where at least half of what was asked for
/// was reached, and where less than a page was asked for nothing need be.
pub proof fn law_how_far_the_stack_is_touched(req: RtRequest, reached: usize)
    ensures
        req.stack_prefault_bytes < PAGE ==> reached_enough(req, reached),
        req.stack_prefault_bytes >= PAGE ==> (reached_enough(req, reached) <==> 2 * reached + 1
            >= req.stack_prefault_bytes),
{
}

/// What is forbidden is said with what was asked for and what the limit is.
pub proof fn law_what_is_forbidden_names_the_limit(lim: Limits, needed: u64, priority: i32)
    ensures
        ({
            let e = locking_forbidden(lim, needed);
            &&& e matches RtErrorView::Forbidden { limit, needed: asked, .. } && (
            lim.memlock_bytes matches Some(n) ==> limit == decimal(n as nat) + " bytes"@) && asked
                == decimal(needed as nat) + " bytes"@
        }),
        ({
            let e = priority_forbidden(lim, priority);
            e matches RtErrorView::Forbidden { limit, needed: asked, .. } && limit == "rtprio "@
                + decimal(lim.rtprio as nat) && asked == "priority "@ + signed_decimal(
                priority as int,
            )
        }),
{
}

/// Cores are listed with a comma between them.
pub proof fn law_cores_are_listed_in_order(cpus: Seq<usize>, cpu: usize)
    ensures
        shown(seq![cpu]) == decimal(cpu as nat),
        cpus.len() > 0 ==> shown(cpus.push(cpu)) == shown(cpus) + seq![',', ' '] + decimal(
            cpu as nat,
        ),
        shown(Seq::empty()).len() == 0,
{
    reveal_strlit(", ");
    assert(", "@ =~= seq![',', ' ']);
    assert(cpus.push(cpu).drop_last() =~= cpus);
}

} // verus!
