use ferrogate::harden::{
    build_program, caps_to_drop, effective_capabilities, filter_plan, is_root, judge, missing_names, plan,
    syscall_nr, FilterAction, FilterArch, HardenError, HardenProfile, HardenStep, Instruction,
    RunAs, SeccompMode, ALLOWED_SYSCALLS, RETAINED_CAPS,
};

#[test]
fn seccomp_mode_parses_known_spellings() {
    assert_eq!(SeccompMode::parse("enforce"), Some(SeccompMode::Enforce));
    assert_eq!(SeccompMode::parse("STRICT"), Some(SeccompMode::Enforce));
    assert_eq!(SeccompMode::parse("audit"), Some(SeccompMode::Audit));
    assert_eq!(SeccompMode::parse(" Log "), Some(SeccompMode::Audit));
    assert_eq!(SeccompMode::parse("off"), None);
}

#[test]
fn production_profile_is_fully_armed() {
    let p = HardenProfile::production(RunAs { uid: 999, gid: 999 });
    assert!(p.mlock && p.non_dumpable && p.no_new_privs);
    assert_eq!(p.drop_to, Some(RunAs { uid: 999, gid: 999 }));
    assert_eq!(p.seccomp, Some(SeccompMode::Enforce));
}

#[test]
fn allowlist_is_an_explicit_allow_list_of_the_expected_shape() {
    // ~35+ syscalls; an allow-list, not a deny-list.
    assert!(
        ALLOWED_SYSCALLS.len() >= 35,
        "expected ~35+ syscalls, got {}",
        ALLOWED_SYSCALLS.len()
    );
    // Core families must be present.
    for must in [
        "read",
        "write",
        "close",
        "mmap",
        "munmap",
        "futex",
        "ioctl",
        "epoll_pwait",
        "recvmsg",
        "sendmsg",
        "getrandom",
        "exit_group",
        "mlockall",
        "clock_gettime",
    ] {
        assert!(
            ALLOWED_SYSCALLS.contains(&must),
            "allow-list missing {must}"
        );
    }
    // No duplicates.
    let mut sorted = ALLOWED_SYSCALLS.to_vec();
    sorted.sort_unstable();
    let len = sorted.len();
    sorted.dedup();
    assert_eq!(sorted.len(), len, "allow-list has duplicate entries");
}

#[test]
fn dangerous_syscalls_are_absent() {
    for forbidden in [
        "execve", "execveat", "ptrace", "mount", "chmod", "fork", "vfork",
    ] {
        assert!(
            !ALLOWED_SYSCALLS.contains(&forbidden),
            "allow-list should not contain {forbidden}"
        );
    }
}

#[test]
fn unknown_syscall_name_resolves_to_none() {
    let table = vec![("read", 0), ("write", 1)];
    assert_eq!(syscall_nr(&table, "definitely_not_a_syscall"), None);
    assert_eq!(syscall_nr(&table, "write"), Some(1));
}

#[test]
fn the_production_plan_is_in_order_of_dependence() {
    let p = HardenProfile::production(RunAs { uid: 1, gid: 2 });
    assert_eq!(
        plan(&p),
        vec![
            HardenStep::LockMemory,
            HardenStep::SetNonDumpable,
            HardenStep::KeepCaps,
            HardenStep::ClearGroups,
            HardenStep::SetGid(2),
            HardenStep::SetUid(1),
            HardenStep::RegainRoot,
            HardenStep::RaiseSetpcap,
            HardenStep::DropBounding,
            HardenStep::LowerEffective,
            HardenStep::LowerPermitted,
            HardenStep::ClearInheritable,
            HardenStep::ClearAmbient,
            HardenStep::SetNoNewPrivs,
            HardenStep::InstallSeccomp(SeccompMode::Enforce),
        ]
    );
}

#[test]
fn a_filter_forces_no_new_privileges() {
    let p = HardenProfile {
        mlock: false,
        non_dumpable: false,
        no_new_privs: false,
        drop_to: None,
        seccomp: Some(SeccompMode::Audit),
    };
    assert_eq!(
        plan(&p),
        vec![
            HardenStep::SetNoNewPrivs,
            HardenStep::InstallSeccomp(SeccompMode::Audit)
        ]
    );
    let none = HardenProfile {
        seccomp: None,
        ..p
    };
    assert_eq!(plan(&none), vec![]);
}

#[test]
fn each_failed_step_has_its_error() {
    let failed = |s| judge(s, Err("no".to_string())).unwrap_err().message();
    assert_eq!(failed(HardenStep::LockMemory), "mlockall failed: no");
    assert_eq!(
        failed(HardenStep::SetNonDumpable),
        "prctl PR_SET_DUMPABLE failed: no"
    );
    assert_eq!(
        failed(HardenStep::SetNoNewPrivs),
        "prctl PR_SET_NO_NEW_PRIVS failed: no"
    );
    assert_eq!(
        failed(HardenStep::KeepCaps),
        "privilege drop failed: PR_SET_KEEPCAPS: no"
    );
    assert_eq!(
        failed(HardenStep::ClearGroups),
        "privilege drop failed: setgroups: no"
    );
    assert_eq!(
        failed(HardenStep::SetGid(12)),
        "privilege drop failed: setgid(12): no"
    );
    assert_eq!(
        failed(HardenStep::SetUid(34)),
        "privilege drop failed: setuid(34): no"
    );
    assert_eq!(
        failed(HardenStep::DropBounding),
        "capability restriction failed: no"
    );
    assert_eq!(
        failed(HardenStep::InstallSeccomp(SeccompMode::Enforce)),
        "seccomp install failed: no"
    );
    assert_eq!(judge(HardenStep::LockMemory, Ok(())), Ok(()));
    // Becoming root again must not work.
    assert_eq!(
        judge(HardenStep::RegainRoot, Ok(())),
        Err(HardenError::DropPrivileges(
            "regained uid 0 after drop".to_string()
        ))
    );
    assert_eq!(
        judge(HardenStep::RegainRoot, Err("EPERM".to_string())),
        Ok(())
    );
    assert_eq!(
        HardenError::Unsupported.message(),
        "process hardening is only supported on Linux"
    );
    assert_eq!(
        HardenError::UnknownSyscall("x".into()).message(),
        "unknown syscall in allow-list: x"
    );
}

#[test]
fn all_but_the_kept_capabilities_go() {
    assert_eq!(RETAINED_CAPS, [14, 19]);
    assert_eq!(caps_to_drop(&vec![0, 14, 8, 19, 21]), vec![0, 8, 21]);
    assert_eq!(caps_to_drop(&vec![14, 19]), Vec::<u8>::new());
}

#[test]
fn the_filter_skips_what_the_machine_does_not_have() {
    let table = vec![("read", 0), ("execve", 59), ("close", 3), ("write", 1)];
    let f = filter_plan(&table, SeccompMode::Enforce);
    assert_eq!(f.allowed, vec![0, 1, 3]);
    let missing = missing_names(&table);
    assert_eq!(missing.len(), ALLOWED_SYSCALLS.len() - 3);
    assert_eq!(&missing[..2], ["readv", "writev"]);
    assert_eq!(missing_names(&Vec::new()), ALLOWED_SYSCALLS);
    assert_eq!(f.mismatch, FilterAction::KillProcess);
    assert_eq!(
        filter_plan(&table, SeccompMode::Audit).mismatch,
        FilterAction::Log
    );
}

/// The numbers of this machine.
fn table() -> Vec<(&'static str, i64)> {
    vec![
        ("read", libc::SYS_read),
        ("write", libc::SYS_write),
        ("readv", libc::SYS_readv),
        ("writev", libc::SYS_writev),
        ("pread64", libc::SYS_pread64),
        ("pwrite64", libc::SYS_pwrite64),
        ("close", libc::SYS_close),
        ("lseek", libc::SYS_lseek),
        ("fcntl", libc::SYS_fcntl),
        ("fsync", libc::SYS_fsync),
        ("fdatasync", libc::SYS_fdatasync),
        ("ftruncate", libc::SYS_ftruncate),
        ("openat", libc::SYS_openat),
        ("readlinkat", libc::SYS_readlinkat),
        ("getdents64", libc::SYS_getdents64),
        ("newfstatat", libc::SYS_newfstatat),
        ("statx", libc::SYS_statx),
        ("mmap", libc::SYS_mmap),
        ("munmap", libc::SYS_munmap),
        ("mprotect", libc::SYS_mprotect),
        ("madvise", libc::SYS_madvise),
        ("brk", libc::SYS_brk),
        ("mlockall", libc::SYS_mlockall),
        ("socket", libc::SYS_socket),
        ("connect", libc::SYS_connect),
        ("bind", libc::SYS_bind),
        ("listen", libc::SYS_listen),
        ("accept4", libc::SYS_accept4),
        ("getsockname", libc::SYS_getsockname),
        ("getpeername", libc::SYS_getpeername),
        ("setsockopt", libc::SYS_setsockopt),
        ("getsockopt", libc::SYS_getsockopt),
        ("sendto", libc::SYS_sendto),
        ("recvfrom", libc::SYS_recvfrom),
        ("sendmsg", libc::SYS_sendmsg),
        ("recvmsg", libc::SYS_recvmsg),
        ("shutdown", libc::SYS_shutdown),
        ("ioctl", libc::SYS_ioctl),
        ("epoll_create1", libc::SYS_epoll_create1),
        ("epoll_ctl", libc::SYS_epoll_ctl),
        ("epoll_pwait", libc::SYS_epoll_pwait),
        ("eventfd2", libc::SYS_eventfd2),
        ("futex", libc::SYS_futex),
        ("nanosleep", libc::SYS_nanosleep),
        ("clock_nanosleep", libc::SYS_clock_nanosleep),
        ("clock_gettime", libc::SYS_clock_gettime),
        ("gettimeofday", libc::SYS_gettimeofday),
        ("sched_yield", libc::SYS_sched_yield),
        ("sched_getaffinity", libc::SYS_sched_getaffinity),
        ("rt_sigaction", libc::SYS_rt_sigaction),
        ("rt_sigprocmask", libc::SYS_rt_sigprocmask),
        ("rt_sigreturn", libc::SYS_rt_sigreturn),
        ("sigaltstack", libc::SYS_sigaltstack),
        ("clone", libc::SYS_clone),
        ("clone3", libc::SYS_clone3),
        ("set_robust_list", libc::SYS_set_robust_list),
        ("rseq", libc::SYS_rseq),
        ("membarrier", libc::SYS_membarrier),
        ("ppoll", libc::SYS_ppoll),
        ("pipe2", libc::SYS_pipe2),
        ("dup3", libc::SYS_dup3),
        ("tgkill", libc::SYS_tgkill),
        ("getpid", libc::SYS_getpid),
        ("gettid", libc::SYS_gettid),
        ("getuid", libc::SYS_getuid),
        ("geteuid", libc::SYS_geteuid),
        ("getgid", libc::SYS_getgid),
        ("getegid", libc::SYS_getegid),
        ("getrandom", libc::SYS_getrandom),
        ("prlimit64", libc::SYS_prlimit64),
        ("uname", libc::SYS_uname),
        ("restart_syscall", libc::SYS_restart_syscall),
        ("exit", libc::SYS_exit),
        ("exit_group", libc::SYS_exit_group),
    ]
}

#[test]
fn every_allowlisted_name_resolves_on_this_arch() {
    let table = table();
    assert!(missing_names(&table).is_empty());
    for name in ALLOWED_SYSCALLS {
        assert!(
            syscall_nr(&table, name).is_some(),
            "unresolved syscall: {name}"
        );
    }
    assert_eq!(
        filter_plan(&table, SeccompMode::Enforce).allowed.len(),
        ALLOWED_SYSCALLS.len()
    );
}

#[test]
fn build_program_succeeds_for_both_modes() {
    for arch in [FilterArch::X86_64, FilterArch::Aarch64] {
        for mode in [SeccompMode::Enforce, SeccompMode::Audit] {
            let program = build_program(&table(), mode, Some(arch)).unwrap();
            assert!(!program.is_empty());
        }
    }
}

#[test]
fn a_program_returns_what_the_mode_asks_for() {
    let one = vec![("read", 0i64)];
    let program = |mode| build_program(&one, mode, Some(FilterArch::X86_64)).unwrap();
    let (enforce, audit) = (
        program(SeccompMode::Enforce),
        program(SeccompMode::Audit),
    );
    let ret = |k| Instruction {
        code: 6,
        jt: 0,
        jf: 0,
        k,
    };
    // The last instruction is reached by calls that do not match.
    assert_eq!(enforce.last(), Some(&ret(libc::SECCOMP_RET_KILL_PROCESS)));
    assert_eq!(audit.last(), Some(&ret(libc::SECCOMP_RET_LOG)));
    assert!(enforce.contains(&ret(libc::SECCOMP_RET_ALLOW)));
}

#[test]
fn programs_are_for_known_machines_only() {
    assert_eq!(
        build_program(&table(), SeccompMode::Enforce, None),
        Err(HardenError::Seccomp(
            "unsupported architecture for seccomp filter".to_string()
        ))
    );
}

#[test]
fn capabilities_are_listed_in_order() {
    let read = vec!["CAP_SYS_PTRACE", "CAP_IPC_LOCK", "CAP_CHOWN"];
    let read = read.into_iter().map(String::from).collect();
    assert_eq!(
        effective_capabilities(Ok(read)).unwrap(),
        vec!["CAP_CHOWN", "CAP_IPC_LOCK", "CAP_SYS_PTRACE"]
    );
    assert_eq!(
        effective_capabilities(Err("no".into())),
        Err(HardenError::Capabilities("no".into()))
    );
    assert!(is_root(0));
    assert!(!is_root(1000));
}
