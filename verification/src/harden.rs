//! Hardening of the process: what is applied, and in which order.
//!
//! The steps are decided here; each is carried out by the caller, who hands
//! back how it went.

use seccompiler::{BpfProgram, SeccompAction, SeccompFilter, TargetArch};
use vstd::prelude::*;
use vstd::string::StringExecFns;
use crate::primitives::text;

verus! {

/// What happens on a system call that is not allowed.
#[derive(Debug, Clone, Copy, PartialEq, Eq, Structural)]
pub enum SeccompMode {
    /// The process is killed.
    Enforce,
    /// The call is logged and goes on.
    Audit,
}

/// The mode that a word names.
pub open spec fn mode_named(word: Seq<char>) -> Option<SeccompMode> {
    let w = text::ascii_lower(text::trimmed(word));
    if w == "enforce"@ || w == "strict"@ {
        Some(SeccompMode::Enforce)
    } else if w == "audit"@ || w == "log"@ {
        Some(SeccompMode::Audit)
    } else {
        None
    }
}

impl SeccompMode {
    /// The mode that a word names, in any case and with white space around it.
    pub fn parse(s: &str) -> (r: Option<Self>)
        ensures
            r == mode_named(s@),
    {
        let w = text::trim(s).to_ascii_lowercase();
        if text::same_text(w.as_str(), "enforce") || text::same_text(w.as_str(), "strict") {
            Some(SeccompMode::Enforce)
        } else if text::same_text(w.as_str(), "audit") || text::same_text(w.as_str(), "log") {
            Some(SeccompMode::Audit)
        } else {
            None
        }
    }
}

/// A user and group to run as.
#[derive(Debug, Clone, Copy, PartialEq, Eq, Structural)]
pub struct RunAs {
    /// The user.
    pub uid: u32,
    /// The group.
    pub gid: u32,
}

/// What is to be applied.
#[derive(Debug, Clone)]
pub struct HardenProfile {
    /// Keep all memory out of swap.
    pub mlock: bool,
    /// No core dumps.
    pub non_dumpable: bool,
    /// No new privileges; always where a filter is installed.
    pub no_new_privs: bool,
    /// Whom to run as.
    pub drop_to: Option<RunAs>,
    /// Filter system calls.
    pub seccomp: Option<SeccompMode>,
}

impl HardenProfile {
    /// Everything, with a filter that kills.
    pub fn production(run_as: RunAs) -> (r: Self)
        ensures
            r == (HardenProfile {
                mlock: true,
                non_dumpable: true,
                no_new_privs: true,
                drop_to: Some(run_as),
                seccomp: Some(SeccompMode::Enforce),
            }),
    {
        HardenProfile {
            mlock: true,
            non_dumpable: true,
            no_new_privs: true,
            drop_to: Some(run_as),
            seccomp: Some(SeccompMode::Enforce),
        }
    }
}

/// Why hardening failed. Every failure is fatal.
#[derive(Debug, Clone, PartialEq, Eq)]
pub enum HardenError {
    /// Memory could not be locked.
    Mlock(String),
    /// A process attribute could not be set.
    Prctl(&'static str, String),
    /// The user could not be changed.
    DropPrivileges(String),
    /// Capabilities could not be restricted.
    Capabilities(String),
    /// The filter could not be built or installed.
    Seccomp(String),
    /// A system call is unknown.
    UnknownSyscall(String),
    /// There is no hardening on this platform.
    Unsupported,
}

/// The contents of a [`HardenError`].
pub enum HardenFault {
    Mlock(Seq<char>),
    Prctl(Seq<char>, Seq<char>),
    DropPrivileges(Seq<char>),
    Capabilities(Seq<char>),
    Seccomp(Seq<char>),
    UnknownSyscall(Seq<char>),
    Unsupported,
}

impl View for HardenError {
    type V = HardenFault;

    open spec fn view(&self) -> HardenFault {
        match self {
            HardenError::Mlock(m) => HardenFault::Mlock(m@),
            HardenError::Prctl(w, m) => HardenFault::Prctl(w@, m@),
            HardenError::DropPrivileges(m) => HardenFault::DropPrivileges(m@),
            HardenError::Capabilities(m) => HardenFault::Capabilities(m@),
            HardenError::Seccomp(m) => HardenFault::Seccomp(m@),
            HardenError::UnknownSyscall(m) => HardenFault::UnknownSyscall(m@),
            HardenError::Unsupported => HardenFault::Unsupported,
        }
    }
}

/// What an error says.
pub open spec fn fault_text(f: HardenFault) -> Seq<char> {
    match f {
        HardenFault::Mlock(m) => "mlockall failed: "@ + m,
        HardenFault::Prctl(w, m) => "prctl "@ + w + " failed: "@ + m,
        HardenFault::DropPrivileges(m) => "privilege drop failed: "@ + m,
        HardenFault::Capabilities(m) => "capability restriction failed: "@ + m,
        HardenFault::Seccomp(m) => "seccomp install failed: "@ + m,
        HardenFault::UnknownSyscall(m) => "unknown syscall in allow-list: "@ + m,
        HardenFault::Unsupported => "process hardening is only supported on Linux"@,
    }
}

impl HardenError {
    /// The error in words.
    pub fn message(&self) -> (r: String)
        ensures
            r@ == fault_text(self@),
    {
        match self {
            HardenError::Mlock(m) => text::joined("mlockall failed: ", m.as_str()),
            HardenError::Prctl(w, m) => {
                let mut s = text::joined("prctl ", w);
                s.append(" failed: ");
                s.append(m.as_str());
                s
            },
            HardenError::DropPrivileges(m) => text::joined("privilege drop failed: ", m.as_str()),
            HardenError::Capabilities(m) => text::joined(
                "capability restriction failed: ",
                m.as_str(),
            ),
            HardenError::Seccomp(m) => text::joined("seccomp install failed: ", m.as_str()),
            HardenError::UnknownSyscall(m) => text::joined(
                "unknown syscall in allow-list: ",
                m.as_str(),
            ),
            HardenError::Unsupported => "process hardening is only supported on Linux".to_owned(),
        }
    }
}

/// The system calls that are allowed, by name. Anything else trips the filter.
pub const ALLOWED_SYSCALLS: [&'static str; 74] = [
    "read",
    "write",
    "readv",
    "writev",
    "pread64",
    "pwrite64",
    "close",
    "lseek",
    "fcntl",
    "fsync",
    "fdatasync",
    "ftruncate",
    "openat",
    "readlinkat",
    "getdents64",
    "newfstatat",
    "statx",
    "mmap",
    "munmap",
    "mprotect",
    "madvise",
    "brk",
    "mlockall",
    "socket",
    "connect",
    "bind",
    "listen",
    "accept4",
    "getsockname",
    "getpeername",
    "setsockopt",
    "getsockopt",
    "sendto",
    "recvfrom",
    "sendmsg",
    "recvmsg",
    "shutdown",
    "ioctl",
    "epoll_create1",
    "epoll_ctl",
    "epoll_pwait",
    "eventfd2",
    "futex",
    "nanosleep",
    "clock_nanosleep",
    "clock_gettime",
    "gettimeofday",
    "sched_yield",
    "sched_getaffinity",
    "rt_sigaction",
    "rt_sigprocmask",
    "rt_sigreturn",
    "sigaltstack",
    "clone",
    "clone3",
    "set_robust_list",
    "rseq",
    "membarrier",
    "ppoll",
    "pipe2",
    "dup3",
    "tgkill",
    "getpid",
    "gettid",
    "getuid",
    "geteuid",
    "getgid",
    "getegid",
    "getrandom",
    "prlimit64",
    "uname",
    "restart_syscall",
    "exit",
    "exit_group",
];

/// Numbers of the capabilities that are kept: memory locking, and reading the
/// executables of other processes.
pub const RETAINED_CAPS: [u8; 2] = [14, 19];

/// Number of the capability that is needed to drop others.
pub const CAP_SETPCAP: u8 = 8;

/// One step.
#[derive(Debug, Clone, Copy, PartialEq, Eq, Structural)]
pub enum HardenStep {
    /// Lock current and future pages.
    LockMemory,
    /// Suppress core dumps.
    SetNonDumpable,
    /// Keep capabilities when the user changes.
    KeepCaps,
    /// Drop all other groups.
    ClearGroups,
    /// Change the group.
    SetGid(u32),
    /// Change the user.
    SetUid(u32),
    /// Try to become root again, which must not work.
    RegainRoot,
    /// Make the kept capabilities effective, and the one that drops others.
    RaiseSetpcap,
    /// Drop all but the kept capabilities for good.
    DropBounding,
    /// Make only the kept capabilities effective.
    LowerEffective,
    /// Permit only the kept capabilities.
    LowerPermitted,
    /// Hand no capability on.
    ClearInheritable,
    /// Give no capability to other programs.
    ClearAmbient,
    /// No new privileges.
    SetNoNewPrivs,
    /// Install the filter.
    InstallSeccomp(SeccompMode),
}

/// The steps that change the user. The group goes first, while it still can.
pub open spec fn drop_steps(run_as: RunAs) -> Seq<HardenStep> {
    seq![
        HardenStep::KeepCaps,
        HardenStep::ClearGroups,
        HardenStep::SetGid(run_as.gid),
        HardenStep::SetUid(run_as.uid),
        HardenStep::RegainRoot,
    ]
}

/// The steps that restrict capabilities. What is effective is lowered before
/// what is permitted.
pub open spec fn capability_steps() -> Seq<HardenStep> {
    seq![
        HardenStep::RaiseSetpcap,
        HardenStep::DropBounding,
        HardenStep::LowerEffective,
        HardenStep::LowerPermitted,
        HardenStep::ClearInheritable,
        HardenStep::ClearAmbient,
    ]
}

/// One step, or none.
pub open spec fn step_if(wanted: bool, step: HardenStep) -> Seq<HardenStep> {
    if wanted {
        seq![step]
    } else {
        Seq::empty()
    }
}

/// The steps of a profile, in the order in which they depend on each other.
pub open spec fn steps_of(p: HardenProfile) -> Seq<HardenStep> {
    step_if(p.mlock, HardenStep::LockMemory) + step_if(p.non_dumpable, HardenStep::SetNonDumpable)
        + (match p.drop_to {
        Some(run_as) => drop_steps(run_as) + capability_steps(),
        None => Seq::empty(),
    }) + step_if(p.no_new_privs || p.seccomp is Some, HardenStep::SetNoNewPrivs) + (
    match p.seccomp {
        Some(mode) => seq![HardenStep::InstallSeccomp(mode)],
        None => Seq::empty(),
    })
}

fn push_drop_steps(out: &mut Vec<HardenStep>, run_as: RunAs)
    ensures
        final(out)@ == old(out)@ + (drop_steps(run_as) + capability_steps()),
{
    let ghost before = out@;
    out.push(HardenStep::KeepCaps);
    out.push(HardenStep::ClearGroups);
    out.push(HardenStep::SetGid(run_as.gid));
    out.push(HardenStep::SetUid(run_as.uid));
    out.push(HardenStep::RegainRoot);
    let ghost dropped = out@;
    assert(dropped =~= before + drop_steps(run_as));
    out.push(HardenStep::RaiseSetpcap);
    out.push(HardenStep::DropBounding);
    out.push(HardenStep::LowerEffective);
    out.push(HardenStep::LowerPermitted);
    out.push(HardenStep::ClearInheritable);
    out.push(HardenStep::ClearAmbient);
    assert(out@ =~= dropped + capability_steps());
    assert(out@ =~= before + (drop_steps(run_as) + capability_steps()));
}

fn push_if(out: &mut Vec<HardenStep>, wanted: bool, step: HardenStep)
    ensures
        final(out)@ == old(out)@ + step_if(wanted, step),
{
    let ghost before = out@;
    if wanted {
        out.push(step);
    }
    assert(out@ =~= before + step_if(wanted, step));
}

/// The steps of a profile, in the order in which they depend on each other.
pub fn plan(profile: &HardenProfile) -> (r: Vec<HardenStep>)
    ensures
        r@ == steps_of(*profile),
{
    let mut out: Vec<HardenStep> = Vec::new();
    push_if(&mut out, profile.mlock, HardenStep::LockMemory);
    assert(out@ =~= step_if(profile.mlock, HardenStep::LockMemory));
    push_if(&mut out, profile.non_dumpable, HardenStep::SetNonDumpable);
    let ghost locked = out@;
    if let Some(run_as) = profile.drop_to {
        push_drop_steps(&mut out, run_as);
    } else {
        assert(locked + Seq::<HardenStep>::empty() =~= locked);
    }
    push_if(
        &mut out,
        profile.no_new_privs || profile.seccomp.is_some(),
        HardenStep::SetNoNewPrivs,
    );
    let ghost closed = out@;
    if let Some(mode) = profile.seccomp {
        out.push(HardenStep::InstallSeccomp(mode));
        assert(out@ =~= closed + seq![HardenStep::InstallSeccomp(mode)]);
    } else {
        assert(closed + Seq::<HardenStep>::empty() =~= closed);
    }
    out
}

/// Why a step failed, given what the system said. Becoming root again fails the
/// step by working.
pub open spec fn step_fault(step: HardenStep, done: Result<(), String>) -> Option<HardenFault> {
    match (step, done) {
        (HardenStep::RegainRoot, Ok(_)) => Some(
            HardenFault::DropPrivileges("regained uid 0 after drop"@),
        ),
        (HardenStep::RegainRoot, Err(_)) => None,
        (_, Ok(_)) => None,
        (HardenStep::LockMemory, Err(e)) => Some(HardenFault::Mlock(e@)),
        (HardenStep::SetNonDumpable, Err(e)) => Some(
            HardenFault::Prctl("PR_SET_DUMPABLE"@, e@),
        ),
        (HardenStep::SetNoNewPrivs, Err(e)) => Some(
            HardenFault::Prctl("PR_SET_NO_NEW_PRIVS"@, e@),
        ),
        (HardenStep::KeepCaps, Err(e)) => Some(
            HardenFault::DropPrivileges("PR_SET_KEEPCAPS: "@ + e@),
        ),
        (HardenStep::ClearGroups, Err(e)) => Some(
            HardenFault::DropPrivileges("setgroups: "@ + e@),
        ),
        (HardenStep::SetGid(gid), Err(e)) => Some(
            HardenFault::DropPrivileges("setgid("@ + text::decimal(gid as nat) + "): "@ + e@),
        ),
        (HardenStep::SetUid(uid), Err(e)) => Some(
            HardenFault::DropPrivileges("setuid("@ + text::decimal(uid as nat) + "): "@ + e@),
        ),
        (HardenStep::InstallSeccomp(_), Err(e)) => Some(HardenFault::Seccomp(e@)),
        (_, Err(e)) => Some(HardenFault::Capabilities(e@)),
    }
}

/// Judge a step by what the system said.
pub fn judge(step: HardenStep, done: Result<(), String>) -> (r: Result<(), HardenError>)
    ensures
        match r {
            Ok(_) => step_fault(step, done) is None,
            Err(e) => step_fault(step, done) == Some(e@),
        },
{
    let e = match done {
        Ok(()) => match step {
            HardenStep::RegainRoot => return Err(
                HardenError::DropPrivileges("regained uid 0 after drop".to_owned()),
            ),
            _ => return Ok(()),
        },
        Err(e) => e,
    };
    match step {
        HardenStep::RegainRoot => Ok(()),
        HardenStep::LockMemory => Err(HardenError::Mlock(e)),
        HardenStep::SetNonDumpable => Err(HardenError::Prctl("PR_SET_DUMPABLE", e)),
        HardenStep::SetNoNewPrivs => Err(HardenError::Prctl("PR_SET_NO_NEW_PRIVS", e)),
        HardenStep::KeepCaps => Err(
            HardenError::DropPrivileges(text::joined("PR_SET_KEEPCAPS: ", e.as_str())),
        ),
        HardenStep::ClearGroups => Err(
            HardenError::DropPrivileges(text::joined("setgroups: ", e.as_str())),
        ),
        HardenStep::SetGid(gid) => {
            let mut m = text::joined("setgid(", text::decimal_text(gid as u64).as_str());
            m.append("): ");
            m.append(e.as_str());
            Err(HardenError::DropPrivileges(m))
        },
        HardenStep::SetUid(uid) => {
            let mut m = text::joined("setuid(", text::decimal_text(uid as u64).as_str());
            m.append("): ");
            m.append(e.as_str());
            Err(HardenError::DropPrivileges(m))
        },
        HardenStep::InstallSeccomp(_) => Err(HardenError::Seccomp(e)),
        _ => Err(HardenError::Capabilities(e)),
    }
}

/// Whether a capability is kept.
pub open spec fn retained(cap: u8) -> bool {
    cap == RETAINED_CAPS@[0] || cap == RETAINED_CAPS@[1]
}

/// The capabilities that must go.
pub fn caps_to_drop(bounding: &Vec<u8>) -> (r: Vec<u8>)
    ensures
        r@ == bounding@.filter(|c: u8| !retained(c)),
{
    let ghost gone = |c: u8| !retained(c);
    let mut out: Vec<u8> = Vec::new();
    let mut i: usize = 0;
    assert(bounding@.take(0).filter(gone) =~= Seq::<u8>::empty());
    while i < bounding.len()
        invariant
            i <= bounding@.len(),
            gone == (|c: u8| !retained(c)),
            out@ == bounding@.take(i as int).filter(gone),
        decreases bounding@.len() - i,
    {
        let cap: u8 = bounding[i];
        proof {
            assert(bounding@.take(i + 1) =~= bounding@.take(i as int).push(cap));
            reveal(Seq::filter);
            assert(bounding@.take(i + 1).drop_last() =~= bounding@.take(i as int));
        }
        if cap != RETAINED_CAPS[0] && cap != RETAINED_CAPS[1] {
            out.push(cap);
        }
        i += 1;
    }
    assert(bounding@.take(bounding@.len() as int) =~= bounding@);
    out
}

/// Number of a system call in a table of the machine's numbers, the first with
/// its name.
pub open spec fn number_from(
    table: Seq<(&'static str, i64)>,
    name: Seq<char>,
    i: int,
) -> Option<i64>
    decreases table.len() - i,
{
    if i < 0 || i >= table.len() {
        None
    } else if table[i].0@ == name {
        Some(table[i].1)
    } else {
        number_from(table, name, i + 1)
    }
}

/// Number of a system call on a machine, or nothing if it does not exist there.
pub fn syscall_nr(table: &Vec<(&'static str, i64)>, name: &str) -> (r: Option<i64>)
    ensures
        r == number_from(table@, name@, 0),
{
    let mut i: usize = 0;
    while i < table.len()
        invariant
            i <= table@.len(),
            number_from(table@, name@, 0) == number_from(table@, name@, i as int),
        decreases table@.len() - i,
    {
        if text::same_text(table[i].0, name) {
            return Some(table[i].1);
        }
        i += 1;
    }
    None
}

/// What a filter does with a system call.
#[derive(Debug, Clone, Copy, PartialEq, Eq, Structural)]
pub enum FilterAction {
    /// The call goes through.
    Allow,
    /// The process is killed.
    KillProcess,
    /// The call is logged and goes through.
    Log,
}

/// A filter: which numbers match, and what happens on these and on others.
#[derive(Debug, Clone)]
pub struct FilterPlan {
    /// The numbers that match.
    pub allowed: Vec<i64>,
    /// What happens on these.
    pub matched: FilterAction,
    /// What happens on others.
    pub mismatch: FilterAction,
}

/// What happens on system calls that are not allowed.
pub open spec fn mismatch_of(mode: SeccompMode) -> FilterAction {
    match mode {
        SeccompMode::Enforce => FilterAction::KillProcess,
        SeccompMode::Audit => FilterAction::Log,
    }
}

/// Numbers of the first `n` allowed system calls, without those that do not
/// exist on the machine.
pub open spec fn allowed_numbers(table: Seq<(&'static str, i64)>, n: int) -> Seq<i64>
    decreases n,
{
    if n <= 0 {
        Seq::empty()
    } else {
        match number_from(table, ALLOWED_SYSCALLS@[n - 1]@, 0) {
            Some(nr) => allowed_numbers(table, n - 1).push(nr),
            None => allowed_numbers(table, n - 1),
        }
    }
}

/// The filter for a machine.
pub fn filter_plan(table: &Vec<(&'static str, i64)>, mode: SeccompMode) -> (r: FilterPlan)
    ensures
        r.allowed@ == allowed_numbers(table@, 74),
        r.matched == FilterAction::Allow,
        r.mismatch == mismatch_of(mode),
{
    let names: [&'static str; 74] = ALLOWED_SYSCALLS;
    let mut allowed: Vec<i64> = Vec::new();
    let mut i: usize = 0;
    while i < 74
        invariant
            i <= 74,
            names == ALLOWED_SYSCALLS,
            allowed@ == allowed_numbers(table@, i as int),
        decreases 74 - i,
    {
        if let Some(nr) = syscall_nr(table, names[i]) {
            allowed.push(nr);
        }
        i += 1;
    }
    let mismatch = match mode {
        SeccompMode::Enforce => FilterAction::KillProcess,
        SeccompMode::Audit => FilterAction::Log,
    };
    FilterPlan { allowed, matched: FilterAction::Allow, mismatch }
}

/// Those of the first `n` allowed system calls that a table gives no number
/// for, in their order.
pub open spec fn missing_from(table: Seq<(&'static str, i64)>, n: int) -> Seq<Seq<char>>
    decreases n,
{
    if n <= 0 {
        Seq::empty()
    } else if number_from(table, ALLOWED_SYSCALLS@[n - 1]@, 0) is None {
        missing_from(table, n - 1).push(ALLOWED_SYSCALLS@[n - 1]@)
    } else {
        missing_from(table, n - 1)
    }
}

/// The allowed system calls that a table gives no number for: a filter for the
/// machine does without them.
pub fn missing_names(table: &Vec<(&'static str, i64)>) -> (r: Vec<&'static str>)
    ensures
        text::views(r@) == missing_from(table@, 74),
{
    let names: [&'static str; 74] = ALLOWED_SYSCALLS;
    let mut missing: Vec<&'static str> = Vec::new();
    let mut i: usize = 0;
    assert(text::views(missing@) =~= missing_from(table@, 0));
    while i < 74
        invariant
            i <= 74,
            names == ALLOWED_SYSCALLS,
            text::views(missing@) == missing_from(table@, i as int),
        decreases 74 - i,
    {
        if syscall_nr(table, names[i]).is_none() {
            let ghost before = missing@;
            missing.push(names[i]);
            assert(text::views(missing@) =~= text::views(before).push(names@[i as int]@));
        }
        i += 1;
    }
    missing
}

/// A machine that filters can be built for.
#[derive(Debug, Clone, Copy, PartialEq, Eq, Structural)]
pub enum FilterArch {
    /// 64-bit x86.
    X86_64,
    /// 64-bit Arm.
    Aarch64,
}

/// One instruction of a filter program.
#[derive(Debug, Clone, Copy, PartialEq, Eq, Structural)]
pub struct Instruction {
    /// What it does.
    pub code: u16,
    /// How far it jumps if its condition holds.
    pub jt: u8,
    /// How far it jumps if its condition fails.
    pub jf: u8,
    /// Its operand.
    pub k: u32,
}

/// The filter program for numbers that match, what happens on these and on
/// others, and a machine; or why there is none.
pub uninterp spec fn bpf_program(
    allowed: Seq<i64>,
    matched: FilterAction,
    mismatch: FilterAction,
    arch: FilterArch,
) -> Result<Seq<Instruction>, Seq<char>>;

/// `seccompiler::SeccompFilter::new` on numbers without conditions, and
/// `seccompiler::BpfProgram::try_from` on the filter: the program or the
/// error's text, a function of the arguments. A number that is not an unsigned
/// one of 32 bits makes it panic. What the program does when it runs is left to
/// the name.
#[verifier::external_body]
fn seccomp_program(
    allowed: &Vec<i64>,
    matched: FilterAction,
    mismatch: FilterAction,
    arch: FilterArch,
) -> (r: Result<Vec<Instruction>, String>)
    requires
        forall|i: int| 0 <= i < allowed@.len() ==> 0 <= #[trigger] allowed@[i] <= u32::MAX,
    ensures
        match r {
            Ok(p) => bpf_program(allowed@, matched, mismatch, arch) == Ok::<_, Seq<char>>(p@),
            Err(e) => bpf_program(allowed@, matched, mismatch, arch) == Err::<Seq<Instruction>, _>(
                e@,
            ),
        },
{
    let action = |a: FilterAction| match a {
        FilterAction::Allow => SeccompAction::Allow,
        FilterAction::KillProcess => SeccompAction::KillProcess,
        FilterAction::Log => SeccompAction::Log,
    };
    let target = match arch {
        FilterArch::X86_64 => TargetArch::x86_64,
        FilterArch::Aarch64 => TargetArch::aarch64,
    };
    let rules = allowed.iter().map(|n| (*n, Vec::new())).collect();
    let filter = SeccompFilter::new(rules, action(mismatch), action(matched), target);
    let program = filter.and_then(BpfProgram::try_from).map_err(|e| e.to_string())?;
    Ok(program.iter().map(|i| Instruction { code: i.code, jt: i.jt, jf: i.jf, k: i.k }).collect())
}

proof fn lemma_numbers_in_range(table: Seq<(&'static str, i64)>, name: Seq<char>, i: int)
    requires
        0 <= i,
        forall|j: int| 0 <= j < table.len() ==> 0 <= (#[trigger] table[j]).1 <= u32::MAX,
    ensures
        number_from(table, name, i) matches Some(nr) ==> 0 <= nr <= u32::MAX,
    decreases table.len() - i,
{
    if i < table.len() && table[i].0@ != name {
        lemma_numbers_in_range(table, name, i + 1);
    }
}

proof fn lemma_allowed_in_range(table: Seq<(&'static str, i64)>, n: int)
    requires
        forall|j: int| 0 <= j < table.len() ==> 0 <= (#[trigger] table[j]).1 <= u32::MAX,
    ensures
        forall|i: int|
            0 <= i < allowed_numbers(table, n).len() ==> 0 <= #[trigger] allowed_numbers(
                table,
                n,
            )[i] <= u32::MAX,
    decreases n,
{
    if n > 0 {
        lemma_allowed_in_range(table, n - 1);
        lemma_numbers_in_range(table, ALLOWED_SYSCALLS@[n - 1]@, 0);
        let before = allowed_numbers(table, n - 1);
        assert forall|i: int| 0 <= i < allowed_numbers(table, n).len() implies 0
            <= #[trigger] allowed_numbers(table, n)[i] <= u32::MAX by {
            if i < before.len() {
                assert(allowed_numbers(table, n)[i] == before[i]);
            }
        }
    }
}

/// The filter program for a machine with this table of numbers. Programs are
/// built for two kinds of machines only.
pub fn build_program(
    table: &Vec<(&'static str, i64)>,
    mode: SeccompMode,
    arch: Option<FilterArch>,
) -> (r: Result<Vec<Instruction>, HardenError>)
    requires
        forall|i: int| 0 <= i < table@.len() ==> 0 <= (#[trigger] table@[i]).1 <= u32::MAX,
    ensures
        match arch {
            None => r matches Err(e) && e@ == HardenFault::Seccomp(
                "unsupported architecture for seccomp filter"@,
            ),
            Some(a) => match (
                r,
                bpf_program(
                    allowed_numbers(table@, 74),
                    FilterAction::Allow,
                    mismatch_of(mode),
                    a,
                ),
            ) {
                (Ok(p), Ok(program)) => p@ == program,
                (Err(e), Err(m)) => e@ == HardenFault::Seccomp(m),
                _ => false,
            },
        },
{
    let target = match arch {
        Some(a) => a,
        None => return Err(
            HardenError::Seccomp("unsupported architecture for seccomp filter".to_owned()),
        ),
    };
    let filter = filter_plan(table, mode);
    proof {
        lemma_allowed_in_range(table@, 74);
    }
    match seccomp_program(&filter.allowed, filter.matched, filter.mismatch, target) {
        Ok(p) => Ok(p),
        Err(e) => Err(HardenError::Seccomp(e)),
    }
}

/// Whether the user that the process runs as is root.
pub fn is_root(euid: u32) -> (r: bool)
    ensures
        r == (euid == 0),
{
    euid == 0
}

/// Whether texts are in ascending order of their bytes.
pub open spec fn names_in_order(names: Seq<String>) -> bool {
    forall|i: int, j: int|
        0 <= i < j < names.len() ==> text::not_after((#[trigger] names[i])@, (#[trigger] names[j])@)
}

fn insert_name(names: &mut Vec<String>, name: String)
    requires
        names_in_order(old(names)@),
    ensures
        names_in_order(final(names)@),
        final(names)@.to_multiset() == old(names)@.to_multiset().insert(name),
{
    let mut p: usize = names.len();
    while p > 0 && !text::is_not_after(names[p - 1].as_str(), name.as_str())
        invariant
            p <= names@.len(),
            names@ == old(names)@,
            forall|i: int|
                p <= i < names@.len() ==> !text::not_after((#[trigger] names@[i])@, name@),
        decreases p,
    {
        p -= 1;
    }
    let ghost before = names@;
    let ghost added = name;
    names.insert(p, name);
    proof {
        let after = names@;
        assert(after =~= before.insert(p as int, added));
        vstd::seq_lib::to_multiset_insert(before, p as int, added);
        assert forall|i: int, j: int| 0 <= i < j < after.len() implies text::not_after(
            (#[trigger] after[i])@,
            (#[trigger] after[j])@,
        ) by {
            let i1 = if i < p {
                i
            } else {
                i - 1
            };
            let j1 = if j < p {
                j
            } else {
                j - 1
            };
            if i != p && j != p {
                assert(after[i] == before[i1] && after[j] == before[j1]);
            } else if i == p {
                assert(after[j] == before[j1]);
                text::lemma_order(before[j1]@, added@, added@);
            } else {
                assert(after[i] == before[i1]);
                if i1 < p - 1 {
                    assert(text::not_after(before[i1]@, before[p - 1]@));
                    text::lemma_order(before[i1]@, before[p - 1]@, added@);
                }
            }
        }
    }
}

/// The names of the effective capabilities, in order, or why they could not be
/// read.
pub fn effective_capabilities(read: Result<Vec<String>, String>) -> (r: Result<
    Vec<String>,
    HardenError,
>)
    ensures
        match read {
            Ok(names) => r matches Ok(v) && names_in_order(v@) && v@.to_multiset()
                == names@.to_multiset(),
            Err(e) => r matches Err(f) && f@ == HardenFault::Capabilities(e@),
        },
{
    let names = match read {
        Ok(names) => names,
        Err(e) => return Err(HardenError::Capabilities(e)),
    };
    let ghost all = names@;
    let mut rest = names;
    let mut out: Vec<String> = Vec::new();
    proof {
        out@.to_multiset_ensures();
        assert(all.to_multiset() =~= rest@.to_multiset().add(out@.to_multiset()));
    }
    while rest.len() > 0
        invariant
            names_in_order(out@),
            all.to_multiset() == rest@.to_multiset().add(out@.to_multiset()),
        decreases rest@.len(),
    {
        let ghost before = rest@;
        let ghost sorted = out@;
        if let Some(name) = rest.pop() {
            insert_name(&mut out, name);
            proof {
                before.drop_last().to_multiset_ensures();
                assert(before =~= before.drop_last().push(name));
                assert(rest@.to_multiset().add(out@.to_multiset()) =~= before.to_multiset().add(
                    sorted.to_multiset(),
                ));
            }
        }
    }
    proof {
        assert(rest@ =~= Seq::<String>::empty());
        rest@.to_multiset_ensures();
        assert(all.to_multiset() =~= out@.to_multiset());
    }
    Ok(out)
}

/// A filter is never installed while new privileges could still be gained, and
/// nothing comes after it.
pub proof fn law_filter_last(p: HardenProfile, i: int)
    requires
        0 <= i < steps_of(p).len(),
        steps_of(p)[i] is InstallSeccomp,
    ensures
        i == steps_of(p).len() - 1,
        i > 0,
        steps_of(p)[i - 1] is SetNoNewPrivs,
{
    let first = step_if(p.mlock, HardenStep::LockMemory);
    let second = step_if(p.non_dumpable, HardenStep::SetNonDumpable);
    let dropped = match p.drop_to {
        Some(run_as) => drop_steps(run_as) + capability_steps(),
        None => Seq::empty(),
    };
    let head = first + second + dropped;
    let fourth = step_if(p.no_new_privs || p.seccomp is Some, HardenStep::SetNoNewPrivs);
    assert forall|j: int| 0 <= j < head.len() implies !(#[trigger] head[j] is InstallSeccomp) by {
        if j < first.len() {
            assert(head[j] == first[j]);
        } else if j < first.len() + second.len() {
            assert(head[j] == second[j - first.len()]);
        } else {
            assert(head[j] == dropped[j - first.len() - second.len()]);
            lemma_drop_installs_nothing(p, j - first.len() - second.len());
        }
    }
    if i < head.len() {
        assert(steps_of(p)[i] == head[i]);
    } else if i < head.len() + fourth.len() {
        assert(steps_of(p)[i] == fourth[i - head.len()]);
    } else {
        assert(steps_of(p)[i - 1] == fourth[0]);
    }
}

proof fn lemma_drop_installs_nothing(p: HardenProfile, j: int)
    requires
        p.drop_to is Some,
        0 <= j < 11,
    ensures
        !((drop_steps(p.drop_to->0) + capability_steps())[j] is InstallSeccomp),
{
    let d = drop_steps(p.drop_to->0);
    if j < 5 {
        assert(!(d[j] is InstallSeccomp));
    } else {
        assert(!(capability_steps()[j - 5] is InstallSeccomp));
    }
}

/// Whoever is to run as another user gives up group, user and capabilities, in
/// this order, and is checked for a way back.
pub proof fn law_privileges_dropped(p: HardenProfile, run_as: RunAs)
    requires
        p.drop_to == Some(run_as),
    ensures
        exists|i: int|
            0 <= i && i + 11 <= steps_of(p).len() && #[trigger] steps_of(p).subrange(i, i + 11)
                == drop_steps(run_as) + capability_steps(),
{
    let before = step_if(p.mlock, HardenStep::LockMemory) + step_if(
        p.non_dumpable,
        HardenStep::SetNonDumpable,
    );
    let i = before.len() as int;
    assert(steps_of(p).subrange(i, i + 11) =~= drop_steps(run_as) + capability_steps());
}

proof fn lemma_allowed_only(table: Seq<(&'static str, i64)>, n: int, nr: i64)
    requires
        0 <= n <= ALLOWED_SYSCALLS@.len(),
        allowed_numbers(table, n).contains(nr),
    ensures
        exists|k: int| 0 <= k < n && number_from(table, (#[trigger] ALLOWED_SYSCALLS@[k])@, 0)
            == Some(nr),
    decreases n,
{
    if n > 0 {
        let before = allowed_numbers(table, n - 1);
        if number_from(table, ALLOWED_SYSCALLS@[n - 1]@, 0) != Some(nr) {
            assert(before.contains(nr)) by {
                let j = choose|j: int|
                    0 <= j < allowed_numbers(table, n).len() && allowed_numbers(table, n)[j] == nr;
                assert(before[j] == nr);
            }
            lemma_allowed_only(table, n - 1, nr);
        }
    }
}

/// The filter lets nothing pass but what is on the list: each number that
/// passes is that of an allowed name.
pub proof fn law_filter_allows_only_listed(table: Seq<(&'static str, i64)>, nr: i64)
    requires
        allowed_numbers(table, 74).contains(nr),
    ensures
        exists|k: int|
            0 <= k < 74 && number_from(table, (#[trigger] ALLOWED_SYSCALLS@[k])@, 0) == Some(nr),
{
    lemma_allowed_only(table, 74, nr);
}

proof fn lemma_none_missing(table: Seq<(&'static str, i64)>, n: int)
    requires
        0 <= n,
        missing_from(table, n).len() == 0,
    ensures
        allowed_numbers(table, n).len() == n,
        forall|k: int|
            0 <= k < n ==> Some(allowed_numbers(table, n)[k]) == number_from(
                table,
                (#[trigger] ALLOWED_SYSCALLS@[k])@,
                0,
            ),
    decreases n,
{
    if n > 0 {
        lemma_none_missing(table, n - 1);
    }
}

/// A filter made with a table that misses none of the allowed names allows
/// every one of them: number by number, in the order of the names.
pub proof fn law_none_missing_allows_all(table: Seq<(&'static str, i64)>, k: int)
    requires
        missing_from(table, 74).len() == 0,
        0 <= k < 74,
    ensures
        allowed_numbers(table, 74).len() == 74,
        number_from(table, ALLOWED_SYSCALLS@[k]@, 0) == Some(allowed_numbers(table, 74)[k]),
{
    lemma_none_missing(table, 74);
}

/// The number of a system call is that of the first line of the table with its
/// name, and a name that is on no line has none.
pub proof fn law_number_found(table: Seq<(&'static str, i64)>, name: Seq<char>, i: int)
    requires
        0 <= i <= table.len(),
        forall|j: int| 0 <= j < i ==> (#[trigger] table[j]).0@ != name,
    ensures
        i < table.len() && table[i].0@ == name ==> number_from(table, name, 0) == Some(table[i].1),
        i == table.len() ==> number_from(table, name, 0) is None,
{
    lemma_number_from(table, name, i, 0);
}

proof fn lemma_number_from(table: Seq<(&'static str, i64)>, name: Seq<char>, i: int, k: int)
    requires
        0 <= k <= i <= table.len(),
        forall|j: int| 0 <= j < i ==> (#[trigger] table[j]).0@ != name,
    ensures
        number_from(table, name, k) == number_from(table, name, i),
    decreases i - k,
{
    if k < i {
        assert(table[k].0@ != name);
        lemma_number_from(table, name, i, k + 1);
    }
}

proof fn lemma_known_calls(table: Seq<(&'static str, i64)>, n: int, k: int)
    requires
        0 <= k < n,
    ensures
        match number_from(table, ALLOWED_SYSCALLS@[k]@, 0) {
            Some(nr) => allowed_numbers(table, n).contains(nr),
            None => missing_from(table, n).contains(ALLOWED_SYSCALLS@[k]@),
        },
    decreases n,
{
    let (allowed, missing) = (allowed_numbers(table, n), missing_from(table, n));
    let (allowed0, missing0) = (allowed_numbers(table, n - 1), missing_from(table, n - 1));
    if k < n - 1 {
        lemma_known_calls(table, n - 1, k);
        match number_from(table, ALLOWED_SYSCALLS@[k]@, 0) {
            Some(nr) => {
                let i = choose|i: int| 0 <= i < allowed0.len() && allowed0[i] == nr;
                assert(allowed[i] == nr);
            },
            None => {
                let i = choose|i: int|
                    0 <= i < missing0.len() && missing0[i] == ALLOWED_SYSCALLS@[k]@;
                assert(missing[i] == ALLOWED_SYSCALLS@[k]@);
            },
        }
    } else {
        match number_from(table, ALLOWED_SYSCALLS@[k]@, 0) {
            Some(nr) => {
                assert(allowed[allowed.len() - 1] == nr);
            },
            None => {
                assert(missing[missing.len() - 1] == ALLOWED_SYSCALLS@[k]@);
            },
        }
    }
}

/// Each of the allowed names either has a number, which the filter lets pass,
/// or is told to be missing.
pub proof fn law_every_known_call_allowed(table: Seq<(&'static str, i64)>, k: int)
    requires
        0 <= k < 74,
    ensures
        match number_from(table, ALLOWED_SYSCALLS@[k]@, 0) {
            Some(nr) => allowed_numbers(table, 74).contains(nr),
            None => missing_from(table, 74).contains(ALLOWED_SYSCALLS@[k]@),
        },
{
    lemma_known_calls(table, 74, k);
}

/// Privileges go in an order in which each step can still be done: supplementary
/// groups and the group before the user, what is effective before what is
/// permitted, and the way back is tried once the user is another.
pub proof fn law_drop_order(run_as: RunAs)
    ensures
        ({
            let s = drop_steps(run_as) + capability_steps();
            &&& s.contains(HardenStep::KeepCaps)
            &&& s.contains(HardenStep::ClearGroups)
            &&& s.contains(HardenStep::SetGid(run_as.gid))
            &&& s.contains(HardenStep::SetUid(run_as.uid))
            &&& s.contains(HardenStep::RegainRoot)
            &&& s.contains(HardenStep::DropBounding)
            &&& s.contains(HardenStep::LowerEffective)
            &&& s.contains(HardenStep::LowerPermitted)
            &&& s.contains(HardenStep::ClearInheritable)
            &&& s.contains(HardenStep::ClearAmbient)
            &&& forall|i: int, j: int|
                0 <= i < s.len() && 0 <= j < s.len() && (#[trigger] s[i] is SetUid) && (
                #[trigger] s[j] is SetGid || s[j] is ClearGroups || s[j] is KeepCaps) ==> j < i
            &&& forall|i: int, j: int|
                0 <= i < s.len() && 0 <= j < s.len() && (#[trigger] s[i] is SetUid) && (
                #[trigger] s[j] is RegainRoot) ==> i < j
            &&& forall|i: int, j: int|
                0 <= i < s.len() && 0 <= j < s.len() && (#[trigger] s[i] is LowerEffective) && (
                #[trigger] s[j] is LowerPermitted) ==> i < j
            &&& forall|i: int, j: int|
                0 <= i < s.len() && 0 <= j < s.len() && (#[trigger] s[i] is RaiseSetpcap) && (
                #[trigger] s[j] is DropBounding) ==> i < j
        }),
{
    let s = drop_steps(run_as) + capability_steps();
    assert(s[0] is KeepCaps);
    assert(s[1] is ClearGroups);
    assert(s[2] == HardenStep::SetGid(run_as.gid));
    assert(s[3] == HardenStep::SetUid(run_as.uid));
    assert(s[4] is RegainRoot);
    assert(s[5] is RaiseSetpcap);
    assert(s[6] is DropBounding);
    assert(s[7] is LowerEffective);
    assert(s[8] is LowerPermitted);
    assert(s[9] is ClearInheritable);
    assert(s[10] is ClearAmbient);
}

/// Every protection that a profile asks for is among its steps, and no step is
/// there that it does not ask for.
pub proof fn law_profile_steps(p: HardenProfile)
    ensures
        steps_of(p).contains(HardenStep::LockMemory) <==> p.mlock,
        steps_of(p).contains(HardenStep::SetNonDumpable) <==> p.non_dumpable,
        steps_of(p).contains(HardenStep::SetNoNewPrivs) <==> p.no_new_privs || p.seccomp is Some,
        forall|mode: SeccompMode| #[trigger]
            steps_of(p).contains(HardenStep::InstallSeccomp(mode)) <==> p.seccomp == Some(mode),
        forall|uid: u32| #[trigger]
            steps_of(p).contains(HardenStep::SetUid(uid)) <==> (p.drop_to matches Some(r) && r.uid
                == uid),
{
    let a = step_if(p.mlock, HardenStep::LockMemory);
    let b = step_if(p.non_dumpable, HardenStep::SetNonDumpable);
    let c = match p.drop_to {
        Some(run_as) => drop_steps(run_as) + capability_steps(),
        None => Seq::empty(),
    };
    let d = step_if(p.no_new_privs || p.seccomp is Some, HardenStep::SetNoNewPrivs);
    let e = match p.seccomp {
        Some(mode) => seq![HardenStep::InstallSeccomp(mode)],
        None => Seq::empty(),
    };
    assert forall|x: HardenStep| #[trigger] steps_of(p).contains(x) <==> a.contains(x)
        || b.contains(x) || c.contains(x) || d.contains(x) || e.contains(x) by {
        lemma_contains_concat(a + b + c + d, e, x);
        lemma_contains_concat(a + b + c, d, x);
        lemma_contains_concat(a + b, c, x);
        lemma_contains_concat(a, b, x);
    }
    if p.mlock {
        assert(a[0] == HardenStep::LockMemory);
    }
    if p.non_dumpable {
        assert(b[0] == HardenStep::SetNonDumpable);
    }
    if p.no_new_privs || p.seccomp is Some {
        assert(d[0] == HardenStep::SetNoNewPrivs);
    }
    if let Some(mode) = p.seccomp {
        assert(e[0] == HardenStep::InstallSeccomp(mode));
    }
    if let Some(run_as) = p.drop_to {
        assert(c[3] == HardenStep::SetUid(run_as.uid));
        assert forall|i: int| 0 <= i < c.len() implies !(#[trigger] c[i] is LockMemory)
            && !(c[i] is SetNonDumpable) && !(c[i] is SetNoNewPrivs) && !(c[i] is InstallSeccomp)
            && (c[i] is SetUid ==> c[i] == HardenStep::SetUid(run_as.uid)) by {
            if i < 5 {
                assert(c[i] == drop_steps(run_as)[i]);
            } else {
                assert(c[i] == capability_steps()[i - 5]);
            }
        }
    }
}

proof fn lemma_contains_concat(a: Seq<HardenStep>, b: Seq<HardenStep>, x: HardenStep)
    ensures
        (a + b).contains(x) <==> a.contains(x) || b.contains(x),
{
    if a.contains(x) {
        let i = choose|i: int| 0 <= i < a.len() && a[i] == x;
        assert((a + b)[i] == x);
    }
    if b.contains(x) {
        let i = choose|i: int| 0 <= i < b.len() && b[i] == x;
        assert((a + b)[a.len() + i] == x);
    }
}

/// What is not allowed never goes through unnoticed: it ends the process where
/// the filter is enforced, and is logged where it is tried out.
pub proof fn law_mismatch_is_noticed(mode: SeccompMode)
    ensures
        mismatch_of(mode) is KillProcess <==> mode is Enforce,
        mismatch_of(mode) is Log <==> mode is Audit,
{
}

/// No step that the system refused is taken for done. Only becoming root again
/// must be refused.
pub proof fn law_refused_step_is_told(step: HardenStep, done: Result<(), String>)
    ensures
        !(step is RegainRoot) ==> (step_fault(step, done) is None <==> done is Ok),
        step is RegainRoot ==> (step_fault(step, done) is None <==> done is Err),
{
}

/// A mode is named by either of its words, in any case and with white space
/// around it, and no other word names one.
pub proof fn law_mode_words(before: Seq<char>, word: Seq<char>, after: Seq<char>)
    requires
        text::blank(before),
        text::blank(after),
        word.len() > 0,
        !text::white_space(word[0]),
        !text::white_space(word.last()),
    ensures
        mode_named(before + word + after) == Some(SeccompMode::Enforce) <==> {
            let w = text::ascii_lower(word);
            w == "enforce"@ || w == "strict"@
        },
        mode_named(before + word + after) == Some(SeccompMode::Audit) <==> {
            let w = text::ascii_lower(word);
            w == "audit"@ || w == "log"@
        },
{
    text::law_trimmed(before, word, after);
    reveal_strlit("enforce");
    reveal_strlit("strict");
    reveal_strlit("audit");
    reveal_strlit("log");
    assert("enforce"@.len() != "audit"@.len() && "enforce"@.len() != "log"@.len());
    assert("strict"@.len() != "audit"@.len() && "strict"@.len() != "log"@.len());
}

/// Every capability that is not kept is dropped, and none that is kept. `r` is
/// what [`caps_to_drop`] gives.
pub proof fn law_other_capabilities_dropped(bounding: &Vec<u8>, r: Vec<u8>, cap: u8)
    requires
        call_ensures(caps_to_drop, (bounding,), r),
    ensures
        r@.contains(cap) <==> bounding@.contains(cap) && !retained(cap),
{
    let gone = |c: u8| !retained(c);
    if r@.contains(cap) {
        bounding@.lemma_filter_contains_rev(gone, cap);
        let i = choose|i: int| 0 <= i < r@.len() && r@[i] == cap;
        bounding@.lemma_filter_pred(gone, i);
    }
    if bounding@.contains(cap) && !retained(cap) {
        let i = choose|i: int| 0 <= i < bounding@.len() && bounding@[i] == cap;
        bounding@.lemma_filter_contains(gone, i);
    }
}

} // verus!
