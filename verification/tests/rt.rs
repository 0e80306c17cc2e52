use deck_pi::rt::{
    apply, in_force, in_priority_range, is_realtime, limits, limits_conf_lines, lock_memory,
    parse_vmlck_kib, pin_current_thread, prefault_pages, promote_current_thread, verified, Did,
    Limits, Next, Policy, ReadBack, Refusal, RtError, RtInForce, RtRequest, EINVAL, PAGE,
    PRIORITY_MAX, PRIORITY_MIN, RLIM_INFINITY, STACK_PREFAULT_CAP,
};

#[test]
fn vmlck_is_read_out_of_a_real_status_file() {
    let status = "\
Name:\tdeck-pi
VmPeak:\t  123456 kB
VmSize:\t  123456 kB
VmLck:\t    2048 kB
VmPin:\t       0 kB
VmLib:\t    9999 kB
";
    assert_eq!(parse_vmlck_kib(status), Some(2048));
}

#[test]
fn a_status_file_without_vmlck_is_not_a_zero() {
    assert_eq!(parse_vmlck_kib("Name:\tdeck-pi\nVmSize:\t 100 kB\n"), None);
}

#[test]
fn the_first_line_of_its_name_decides() {
    assert_eq!(parse_vmlck_kib("VmLck:\nVmLck: 5 kB"), None);
    assert_eq!(parse_vmlck_kib("VmLck: 7\r\nVmLck: 5 kB"), Some(7));
    assert_eq!(parse_vmlck_kib("VmLck: many kB"), None);
    assert_eq!(parse_vmlck_kib(" VmLck: 5 kB"), None);
}

#[test]
fn the_priority_range_is_the_one_architecture_md_specifies() {
    assert_eq!(PRIORITY_MIN, 70);
    assert_eq!(PRIORITY_MAX, 80);
    assert!(in_priority_range(RtRequest::default().priority));
}

fn lim(memlock_bytes: Option<u64>, rtprio: u64) -> Limits {
    Limits { memlock_bytes, rtprio }
}

#[test]
fn a_priority_outside_the_range_is_refused_before_any_syscall() {
    for asked in [0, 69, 81, 99] {
        let req = RtRequest {
            priority: asked,
            ..Default::default()
        };
        for answered in [Ok(lim(None, 99)), Err(RtError::NotSupported)] {
            assert_eq!(
                promote_current_thread(&req, answered),
                Err(RtError::PriorityOutOfRange { asked }),
                "priority {} should be refused",
                asked
            );
        }
    }
}

#[test]
fn an_unlimited_memlock_allows_any_ring_and_a_finite_one_is_compared() {
    let unlimited = Limits {
        memlock_bytes: None,
        rtprio: 80,
    };
    assert!(unlimited.allows_locking(u64::MAX));

    let docker_default = Limits {
        memlock_bytes: Some(64 * 1024 * 1024),
        rtprio: 0,
    };
    assert!(docker_default.allows_locking(32 * 1024 * 1024));
    assert!(!docker_default.allows_locking(128 * 1024 * 1024));
    assert!(!docker_default.allows_priority(75));
    assert!(docker_default.allows_priority(0));
}

#[test]
fn the_remedy_names_both_limits_conf_lines() {
    let lines = limits_conf_lines();
    assert!(lines.contains("memlock unlimited"), "{}", lines);
    assert!(lines.contains("rtprio 80"), "{}", lines);
}

#[test]
fn prefaulting_actually_descends_the_stack() {
    let asked = 256 * 1024;
    assert_eq!(prefault_pages(asked) * PAGE, asked);
    let req = RtRequest { stack_prefault_bytes: asked, ..Default::default() };
    // Half of what was asked for is the least that counts as touched.
    assert!(matches!(apply(&req, Did::Touched(asked / 2)), Next::Promote(75)));
    match apply(&req, Did::Touched(asked / 2 - 1)) {
        Next::Finished(Err(e)) => assert_eq!(
            e.to_text(),
            "stack prefault reach asked for 262144 bytes and the kernel reports 131071 bytes"
        ),
        other => panic!("{other:?}"),
    }
}

#[test]
fn prefaulting_is_capped_and_survives_degenerate_requests() {
    assert_eq!(prefault_pages(0), 0);
    assert_eq!(prefault_pages(PAGE - 1), 0);
    assert_eq!(prefault_pages(usize::MAX) * PAGE, STACK_PREFAULT_CAP);
}

fn status(kib: u64) -> String {
    format!("Name:\tdeck\nVmLck:\t {kib} kB\n")
}

#[test]
fn the_read_backs_work_before_anything_has_been_applied() {
    let back = ReadBack {
        policy: Ok(0),
        priority: Ok(0),
        status: Ok(status(0)),
        affinity: Ok(vec![true, false, true, true]),
    };
    let got = in_force(back).expect("in_force must work without privileges");
    assert_eq!(got.policy, Policy::Other);
    assert_eq!(got.priority, 0);
    assert_eq!(got.cpus, vec![0, 2, 3]);
    assert_eq!(limits(Ok(RLIM_INFINITY), Ok(0)), Ok(lim(None, 0)));
    assert_eq!(limits(Ok(65_536), Ok(95)), Ok(lim(Some(65_536), 95)));
}

#[test]
fn a_priority_the_rtprio_limit_forbids_names_the_limits_conf_line() {
    match promote_current_thread(&RtRequest::default(), Ok(lim(None, 0))) {
        Err(RtError::Forbidden { remedy, .. }) => {
            assert!(remedy.contains("rtprio 80"), "{}", remedy)
        }
        other => panic!("expected Forbidden with a remedy, got {:?}", other),
    }
    assert!(promote_current_thread(&RtRequest::default(), Ok(lim(None, 75))).is_ok());
}

#[test]
fn off_linux_the_setup_refuses_rather_than_reporting_success() {
    let none = Refusal::NotSupported;
    let lim = limits(Err(none), Err(none));
    assert_eq!(lim, Err(RtError::NotSupported));
    match apply(&RtRequest::default(), Did::Locked(Err(RtError::NotSupported))) {
        Next::Finished(r) => assert_eq!(r, Err(RtError::NotSupported)),
        other => panic!("{other:?}"),
    }
    let back = ReadBack {
        policy: Err(none),
        priority: Err(none),
        status: Err(String::new()),
        affinity: Err(none),
    };
    assert_eq!(in_force(back), Err(RtError::NotSupported));
}

#[test]
fn an_ordinary_thread_reports_itself_as_not_realtime() {
    assert!(!is_realtime(Ok(0)));
    assert!(is_realtime(Ok(1)), "SCHED_FIFO");
    assert!(is_realtime(Ok(2)), "SCHED_RR");
    assert!(!is_realtime(Err(Refusal::NotSupported)));
}

#[test]
fn every_call_that_refuses_is_named() {
    let no = Refusal::Errno(13);
    let back = |n: usize| ReadBack {
        policy: if n == 0 { Err(no) } else { Ok(1) },
        priority: if n == 1 { Err(no) } else { Ok(75) },
        status: match n {
            2 => Err("denied".to_string()),
            3 => Ok("Name:\tdeck\n".to_string()),
            _ => Ok(status(9)),
        },
        affinity: if n == 4 { Err(no) } else { Ok(vec![true]) },
    };
    let said: Vec<String> =
        (0..5).map(|n| in_force(back(n)).expect_err("refused").to_text()).collect();
    assert_eq!(
        said,
        vec![
            "sched_getscheduler refused: errno 13",
            "sched_getparam refused: errno 13",
            "/proc/self/status: denied",
            "/proc/self/status carries no VmLck line",
            "sched_getaffinity refused: errno 13",
        ]
    );
    assert_eq!(
        limits(Ok(1), Err(no)).expect_err("refused").to_text(),
        "getrlimit refused: errno 13"
    );
    assert_eq!(
        pin_current_thread(1024, 1024),
        Err(RtError::Refused { call: "CPU_SET", errno: EINVAL })
    );
    assert_eq!(pin_current_thread(3, 1024), Ok(()));
}

#[test]
fn the_limit_that_is_in_the_way_is_named_with_its_remedy() {
    assert_eq!(lock_memory(&lim(None, 0), u64::MAX), Ok(()));
    assert_eq!(
        lock_memory(&lim(Some(64), 0), 100).expect_err("too little").to_text(),
        "mlockall needs 100 bytes but the limit is 64 bytes — add to \
         /etc/security/limits.conf:\n    @audio - memlock unlimited\n    @audio - rtprio 80"
    );
    assert_eq!(
        RtError::PriorityOutOfRange { asked: 99 }.to_text(),
        "SCHED_FIFO priority 99 is outside the 70-80 range architecture.md specifies"
    );
    assert_eq!(
        RtError::NotSupported.to_text(),
        "realtime setup needs Linux; this is not the deck"
    );
    assert_eq!(Policy::of(7).to_text(), "policy 7");
    assert_eq!(Policy::of(2).to_text(), "SCHED_RR");
    assert_eq!(Policy::of(0).to_text(), "SCHED_OTHER");
}

fn granted(policy: Policy, priority: i32, locked_kib: u64, cpus: Vec<usize>) -> RtInForce {
    RtInForce { policy, priority, locked_kib, cpus }
}

#[test]
fn what_reads_back_otherwise_is_not_a_success() {
    let req = RtRequest { cpu: Some(2), ..Default::default() };
    let good = granted(Policy::Fifo, 75, 8, vec![2]);
    assert_eq!(verified(&req, good.clone()), Ok(good));
    for (got, want) in [
        (
            granted(Policy::Other, 75, 8, vec![2]),
            "scheduling policy asked for SCHED_FIFO and the kernel reports SCHED_OTHER",
        ),
        (
            granted(Policy::Fifo, 70, 8, vec![2]),
            "SCHED_FIFO priority asked for 75 and the kernel reports 70",
        ),
        (
            granted(Policy::Fifo, 75, 0, vec![2]),
            "locked memory (VmLck) asked for more than 0 kB and the kernel reports 0 kB",
        ),
        (
            granted(Policy::Fifo, 75, 8, vec![0, 1]),
            "CPU affinity asked for [2] and the kernel reports [0, 1]",
        ),
    ] {
        assert_eq!(verified(&req, got).expect_err("differs").to_text(), want);
    }
}

#[test]
fn the_setup_is_done_in_the_order_its_steps_depend_on_each_other() {
    let req = RtRequest { cpu: Some(2), ..Default::default() };
    assert!(matches!(apply(&req, Did::Locked(Ok(()))), Next::Touch(262_144)));
    assert!(matches!(apply(&req, Did::Touched(262_144)), Next::Pin(2)));
    assert!(matches!(apply(&req, Did::Pinned(Ok(()))), Next::Promote(75)));
    assert!(matches!(apply(&req, Did::Promoted(Ok(()))), Next::ReadBack));
    let good = granted(Policy::Fifo, 75, 8, vec![2]);
    match apply(&req, Did::Read(Ok(good.clone()))) {
        Next::Finished(r) => assert_eq!(r, Ok(good)),
        other => panic!("{other:?}"),
    }
    for did in [
        Did::Pinned(Err(RtError::NotSupported)),
        Did::Promoted(Err(RtError::NotSupported)),
        Did::Read(Err(RtError::NotSupported)),
    ] {
        assert!(matches!(apply(&req, did), Next::Finished(Err(RtError::NotSupported))));
    }
}
