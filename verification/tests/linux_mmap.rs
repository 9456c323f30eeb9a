use base_sys::linux::mmap::LinuxMap;
use base_sys::operation::{Host, MmapError, Operation, Os, Step};
use base_sys::protection::Protection;
use base_sys::syscall::{Advice, Errno, MapFlags, SysCall, SysReply, NO_DESCRIPTOR};
use base_sys::unix::mmap::{MapRequest, MemoryMapping};

const PAGE: usize = 4096;

fn linux() -> Host {
    Host { os: Os::Linux, pagesize: PAGE }
}

// Answers the calls of an operation one by one. Gives the calls that were made and, once the
// operation is over, what came of it.
fn drive<O: Operation>(
    first: Step<O, O::Output>,
    replies: &[SysReply],
) -> (Vec<SysCall>, Option<Result<O::Output, MmapError>>) {
    let mut calls = Vec::new();
    let mut step = first;
    for reply in replies {
        match step {
            Step::Await(op) => {
                calls.push(op.call());
                assert!(op.accepts(reply));
                step = op.resume(*reply);
            }
            Step::Done(_) => panic!("the operation is over after {} replies", calls.len()),
        }
    }
    match step {
        Step::Await(op) => {
            calls.push(op.call());
            (calls, None)
        }
        Step::Done(result) => (calls, Some(result)),
    }
}

fn error<T>(outcome: Option<Result<T, MmapError>>) -> MmapError {
    match outcome {
        Some(Err(error)) => error,
        Some(Ok(_)) => panic!("the operation succeeded"),
        None => panic!("the operation is not over"),
    }
}

fn value<T>(outcome: Option<Result<T, MmapError>>) -> T {
    match outcome {
        Some(Ok(value)) => value,
        Some(Err(error)) => panic!("the operation failed: {:?}", error),
        None => panic!("the operation is not over"),
    }
}

fn shared_anonymous() -> MapFlags {
    MapFlags { shared: true, anonymous: true, noreserve: true, ..MapFlags::none() }
}

fn madvise(addr: usize, len: usize, advice: Advice) -> SysCall {
    SysCall::Madvise { addr, len, advice }
}

#[test]
fn anonymous_mapping_is_shared_and_marked() {
    let at = 0x7000_0000;
    let (calls, outcome) =
        drive(MemoryMapping::new(linux(), 2 * PAGE), &[Ok(at), Ok(0), Ok(0)]);
    assert_eq!(
        calls,
        vec![
            SysCall::Mmap {
                addr: 0,
                len: 2 * PAGE,
                prot: 3,
                flags: shared_anonymous(),
                fd: NO_DESCRIPTOR,
                offset: 0,
            },
            madvise(at, 2 * PAGE, Advice::DontDump),
            madvise(at, 2 * PAGE, Advice::Mergeable),
        ]
    );
    let mapping = value(outcome);
    assert_eq!(mapping.as_ptr(), at);
    assert_eq!(mapping.size(), 2 * PAGE);
}

#[test]
fn failed_advice_does_not_matter() {
    let (_, outcome) = drive(
        MemoryMapping::new(linux(), PAGE),
        &[Ok(0x5000), Err(Errno(22)), Err(Errno(22))],
    );
    assert_eq!(value(outcome).as_ptr(), 0x5000);
}

#[test]
fn file_sealed_against_writing_is_mapped_privately() {
    let cases: [(SysReply, bool); 6] = [
        (Ok(8), true),
        (Ok(0x1f), true),
        (Ok(7), false),
        (Ok(0), false),
        (Ok(16), false),
        (Err(Errno(22)), false),
    ];
    for (seals, private) in cases {
        let (calls, _) = drive(MemoryMapping::from_fd(linux(), 5, PAGE), &[seals]);
        assert_eq!(calls[0], SysCall::GetSeals { fd: 5 });
        assert_eq!(
            calls[1],
            SysCall::Mmap {
                addr: 0,
                len: PAGE,
                prot: 3,
                flags: MapFlags { shared: !private, private, ..MapFlags::none() },
                fd: 5,
                offset: 0,
            }
        );
    }
}

#[test]
fn pages_are_faulted_in_where_that_is_asked_for() {
    let step = MemoryMapping::from_fd_offset_protection_populate(
        linux(),
        7,
        3 * PAGE,
        0x1_0000,
        0,
        Protection::read(),
        true,
    );
    let (calls, _) = drive(step, &[Ok(0)]);
    assert_eq!(
        calls[1],
        SysCall::Mmap {
            addr: 0,
            len: 3 * PAGE,
            prot: 1,
            flags: MapFlags { shared: true, populate: true, ..MapFlags::none() },
            fd: 7,
            offset: 0x1_0000,
        }
    );
}

#[test]
fn fixed_mapping_goes_where_it_is_told_to() {
    let step = MemoryMapping::new_protection_fixed(linux(), 0x9000, PAGE, Protection::read());
    let (calls, outcome) = drive(step, &[Ok(0x9000), Ok(0), Ok(0)]);
    assert_eq!(
        calls[0],
        SysCall::Mmap {
            addr: 0x9000,
            len: PAGE,
            prot: 1,
            flags: MapFlags { fixed: true, ..shared_anonymous() },
            fd: NO_DESCRIPTOR,
            offset: 0,
        }
    );
    assert_eq!(value(outcome).as_ptr(), 0x9000);

    let step = MemoryMapping::from_descriptor_offset_protection_fixed(
        linux(),
        0x9000,
        4,
        PAGE,
        8192,
        Protection::read_write(),
    );
    let (calls, _) = drive(step, &[Ok(0)]);
    assert_eq!(
        calls[1],
        SysCall::Mmap {
            addr: 0x9000,
            len: PAGE,
            prot: 3,
            flags: MapFlags { shared: true, fixed: true, noreserve: true, ..MapFlags::none() },
            fd: 4,
            offset: 8192,
        }
    );
}

#[test]
fn fixed_address_has_to_be_that_of_a_page() {
    let step = MemoryMapping::new_protection_fixed(linux(), 0x9001, PAGE, Protection::read());
    let (calls, outcome) = drive(step, &[]);
    assert!(calls.is_empty());
    assert_eq!(error(outcome), MmapError::NotPageAligned);
}

#[test]
fn aligned_mapping_gives_the_rest_of_its_reservation_back() {
    let start = 0x7f00_0000_1000;
    let addr = 0x7f00_0020_0000;
    let step =
        MemoryMapping::new_protection(linux(), 0x3000, Some(0x20_0000), Protection::read_write());
    let (calls, outcome) =
        drive(step, &[Ok(start), Ok(addr), Ok(0), Ok(0), Ok(0), Ok(0)]);
    assert_eq!(
        calls,
        vec![
            SysCall::Mmap {
                addr: 0,
                len: 0x20_3000,
                prot: 3,
                flags: MapFlags {
                    private: true,
                    anonymous: true,
                    noreserve: true,
                    ..MapFlags::none()
                },
                fd: NO_DESCRIPTOR,
                offset: 0,
            },
            SysCall::Mmap {
                addr,
                len: 0x3000,
                prot: 3,
                flags: MapFlags { fixed: true, ..shared_anonymous() },
                fd: NO_DESCRIPTOR,
                offset: 0,
            },
            SysCall::Munmap { addr: start, len: 0x1f_f000 },
            SysCall::Munmap { addr: addr + 0x3000, len: 0x1000 },
            madvise(addr, 0x3000, Advice::DontDump),
            madvise(addr, 0x3000, Advice::Mergeable),
        ]
    );
    let mapping = value(outcome);
    assert_eq!(mapping.as_ptr() % 0x20_0000, 0);
    assert_eq!(mapping.size(), 0x3000);
}

#[test]
fn reservation_that_is_aligned_already_is_kept_at_its_front() {
    let start = 0x4000_0000;
    let step = MemoryMapping::new_protection(linux(), PAGE, Some(0x1_0000), Protection::read());
    let (calls, outcome) = drive(step, &[Ok(start), Ok(start), Ok(0), Ok(0), Ok(0)]);
    assert_eq!(calls[2], SysCall::Munmap { addr: start + PAGE, len: 0x1_0000 });
    assert_eq!(calls[3], madvise(start, PAGE, Advice::DontDump));
    assert_eq!(value(outcome).as_ptr(), start);
}

#[test]
fn aligned_file_mapping_asks_for_seals_after_the_reservation() {
    let step = MemoryMapping::from_fd_offset_protection_populate(
        linux(),
        3,
        PAGE,
        0,
        0x4000,
        Protection::read(),
        false,
    );
    let (calls, _) = drive(step, &[Ok(0x1_1000), Ok(8)]);
    assert_eq!(calls[1], SysCall::GetSeals { fd: 3 });
    assert_eq!(
        calls[2],
        SysCall::Mmap {
            addr: 0x1_4000,
            len: PAGE,
            prot: 1,
            flags: MapFlags { private: true, fixed: true, ..MapFlags::none() },
            fd: 3,
            offset: 0,
        }
    );
}

#[test]
fn alignment_to_a_page_takes_a_plain_mapping() {
    for align in [None, Some(0), Some(PAGE as u64)] {
        let step = MemoryMapping::new_protection(linux(), PAGE, align, Protection::read_write());
        let (calls, outcome) = drive(step, &[Ok(0x8000), Ok(0), Ok(0)]);
        assert_eq!(calls.len(), 3);
        assert_eq!(value(outcome).as_ptr(), 0x8000);
    }
}

#[test]
fn alignment_has_to_be_a_power_of_two() {
    for align in [3, 0x3000, u64::MAX] {
        let step = MemoryMapping::new_protection(linux(), PAGE, Some(align), Protection::read());
        let (calls, outcome) = drive(step, &[]);
        assert!(calls.is_empty());
        assert_eq!(error(outcome), MmapError::InvalidAlignment);
    }
}

#[test]
fn fixed_mapping_cannot_be_aligned() {
    let request = MapRequest {
        addr: Some(0x8000),
        size: PAGE,
        align: Some(0x8000),
        prot: 3,
        fd: None,
        populate: false,
    };
    let (_, outcome) = drive(LinuxMap::try_mmap_populate(request, PAGE), &[]);
    assert_eq!(error(outcome), MmapError::InvalidAlignment);
}

#[test]
fn fixed_mapping_can_be_aligned_to_a_page() {
    let request = MapRequest {
        addr: Some(0x9000),
        size: PAGE,
        align: Some(PAGE as u64),
        prot: 3,
        fd: None,
        populate: false,
    };
    let (calls, outcome) =
        drive(LinuxMap::try_mmap_populate(request, PAGE), &[Ok(0x9000), Ok(0), Ok(0)]);
    assert_eq!(
        calls[0],
        SysCall::Mmap {
            addr: 0x9000,
            len: PAGE,
            prot: 3,
            flags: MapFlags { fixed: true, ..shared_anonymous() },
            fd: NO_DESCRIPTOR,
            offset: 0,
        }
    );
    assert_eq!(value(outcome).as_ptr(), 0x9000);
}

#[test]
fn file_offset_has_to_be_one_that_a_file_can_have() {
    let too_far = i64::MAX as u64 + 1;
    let (calls, outcome) = drive(MemoryMapping::from_fd_offset(linux(), 3, PAGE, too_far), &[]);
    assert!(calls.is_empty());
    assert_eq!(error(outcome), MmapError::InvalidOffset);

    let step = MemoryMapping::from_fd_offset_protection_populate(
        linux(),
        3,
        PAGE,
        too_far,
        0x4000,
        Protection::read(),
        false,
    );
    let (calls, outcome) = drive(step, &[Ok(0x1_0000)]);
    assert_eq!(calls.len(), 1);
    assert_eq!(error(outcome), MmapError::InvalidOffset);

    let (calls, _) =
        drive(MemoryMapping::from_fd_offset(linux(), 3, PAGE, i64::MAX as u64), &[Ok(0)]);
    assert_eq!(calls.len(), 2);
}

#[test]
fn failed_mapping_tells_why() {
    let (_, outcome) = drive(MemoryMapping::new(linux(), PAGE), &[Err(Errno(12))]);
    assert_eq!(error(outcome), MmapError::SystemCallFailed(Errno(12)));

    let aligned =
        || MemoryMapping::new_protection(linux(), PAGE, Some(0x4000), Protection::read());
    let (calls, outcome) = drive(aligned(), &[Err(Errno(12))]);
    assert_eq!(calls.len(), 1);
    assert_eq!(error(outcome), MmapError::SystemCallFailed(Errno(12)));

    let (calls, outcome) = drive(aligned(), &[Ok(0x1_0000), Err(Errno(11))]);
    assert_eq!(calls.len(), 2);
    assert_eq!(error(outcome), MmapError::SystemCallFailed(Errno(11)));
}

#[test]
fn mapping_outside_its_reservation_is_not_accepted() {
    let step = MemoryMapping::new_protection(linux(), PAGE, Some(0x4000), Protection::read());
    let op = match step {
        Step::Await(op) => op,
        Step::Done(_) => panic!("nothing was reserved"),
    };
    let op = match op.resume(Ok(0x1_0000)) {
        Step::Await(op) => op,
        Step::Done(_) => panic!("nothing is mapped"),
    };
    assert!(op.accepts(&Ok(0x1_0000)));
    assert!(op.accepts(&Ok(0x1_4000)));
    assert!(op.accepts(&Err(Errno(1))));
    assert!(!op.accepts(&Ok(0xf000)));
    assert!(!op.accepts(&Ok(0x1_5000)));
    assert!(!op.accepts(&Ok(usize::MAX)));
}

#[test]
fn longest_mapping_takes_seven_calls() {
    let step = MemoryMapping::from_fd_offset_protection_populate(
        linux(),
        3,
        PAGE,
        0,
        0x4000,
        Protection::read(),
        false,
    );
    let (calls, outcome) = drive(
        step,
        &[Ok(0x1_1000), Ok(0), Ok(0x1_4000), Ok(0), Ok(0), Ok(0), Ok(0)],
    );
    assert_eq!(calls.len(), 7);
    assert_eq!(value(outcome).as_ptr(), 0x1_4000);
}

#[test]
fn whole_mapping_can_be_kept_from_a_child() {
    let (_, outcome) = drive(MemoryMapping::new(linux(), PAGE), &[Ok(0x8000), Ok(0), Ok(0)]);
    let mapping = value(outcome);
    let (calls, outcome) = drive(mapping.use_dontfork(), &[Ok(0)]);
    assert_eq!(calls, vec![madvise(0x8000, PAGE, Advice::DontFork)]);
    value(outcome);
    let (_, outcome) = drive(mapping.use_dontfork(), &[Err(Errno(22))]);
    assert_eq!(error(outcome), MmapError::SystemCallFailed(Errno(22)));
}

#[test]
fn huge_pages_are_for_large_mappings() {
    let huge = 2 * 1024 * 1024;
    let sized = |size| {
        let (_, outcome) = drive(MemoryMapping::new(linux(), size), &[Ok(0x8000), Ok(0), Ok(0)]);
        value(outcome)
    };
    let (calls, outcome) = drive(sized(huge - 1).use_hugepages(), &[]);
    assert!(calls.is_empty());
    value(outcome);
    let (calls, outcome) = drive(sized(huge).use_hugepages(), &[Ok(0)]);
    assert_eq!(calls, vec![madvise(0x8000, huge, Advice::HugePage)]);
    value(outcome);
    let (_, outcome) = drive(sized(huge).use_hugepages(), &[Err(Errno(1))]);
    assert_eq!(error(outcome), MmapError::SystemCallFailed(Errno(1)));
}

#[test]
fn operations_on_a_range_begin_at_its_offset() {
    let (_, outcome) = drive(MemoryMapping::new(linux(), 4 * PAGE), &[Ok(0x8000), Ok(0), Ok(0)]);
    let m = value(outcome);
    let at = 0x8000 + PAGE;
    let ranges = [
        (m.remove_range(PAGE, PAGE), madvise(at, PAGE, Advice::Remove)),
        (m.async_prefetch(PAGE, PAGE), madvise(at, PAGE, Advice::WillNeed)),
        (m.drop_page_cache(PAGE, PAGE), madvise(at, PAGE, Advice::DontNeed)),
        (m.lock_on_fault(PAGE, PAGE), SysCall::LockOnFault { addr: at, len: PAGE }),
        (m.unlock(PAGE, PAGE), SysCall::Unlock { addr: at, len: PAGE }),
    ];
    for (step, call) in ranges {
        let (calls, outcome) = drive(step, &[Ok(0)]);
        assert_eq!(calls, vec![call]);
        value(outcome);
    }
    let failing = [
        m.remove_range(0, PAGE),
        m.async_prefetch(0, PAGE),
        m.drop_page_cache(0, PAGE),
        m.lock_on_fault(0, PAGE),
        m.unlock(0, PAGE),
    ];
    for step in failing {
        let (_, outcome) = drive(step, &[Err(Errno(12))]);
        assert_eq!(error(outcome), MmapError::SystemCallFailed(Errno(12)));
    }
}

#[test]
fn operations_on_a_range_keep_to_the_mapping() {
    let (_, outcome) = drive(MemoryMapping::new(linux(), PAGE), &[Ok(0x8000), Ok(0), Ok(0)]);
    let m = value(outcome);
    for (offset, count) in [(0, PAGE + 1), (PAGE, 1), (usize::MAX, 1), (1, usize::MAX)] {
        let refused = [
            m.remove_range(offset, count),
            m.async_prefetch(offset, count),
            m.drop_page_cache(offset, count),
            m.lock_on_fault(offset, count),
            m.unlock(offset, count),
        ];
        for step in refused {
            let (calls, outcome) = drive(step, &[]);
            assert!(calls.is_empty());
            assert_eq!(error(outcome), MmapError::InvalidRange(offset, count, PAGE));
        }
    }
    let (calls, _) = drive(m.unlock(PAGE, 0), &[]);
    assert_eq!(calls.len(), 1);
}
