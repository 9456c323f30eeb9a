use base_sys::operation::{Host, MmapError, Operation, Os, Step};
use base_sys::protection::Protection;
use base_sys::syscall::{Advice, Errno, MapFlags, SysCall, SysReply, NO_DESCRIPTOR};
use base_sys::unix::arena::MemoryMappingArena;
use base_sys::unix::mmap::{MappedRegion, MemoryMapping};

const PAGE: usize = 4096;
const BASE: usize = 0x10_0000;

fn linux() -> Host {
    Host { os: Os::Linux, pagesize: PAGE }
}

fn macos() -> Host {
    Host { os: Os::Macos, pagesize: PAGE }
}

// Answers the calls of an operation one by one. Gives the calls that were made and, once the
// operation is over, what came of it.
fn drive<O: Operation>(
    first: Step<O, O::Output>,
    replies: &[SysReply],
) -> (Vec<SysCall>, Option<Result<O::Output, MmapError>>) {
    let mut calls = Vec::new();
    let mut step = first;
    for reply in replies {
        match step {
            Step::Await(op) => {
                calls.push(op.call());
                assert!(op.accepts(reply));
                step = op.resume(*reply);
            }
            Step::Done(_) => panic!("the operation is over after {} replies", calls.len()),
        }
    }
    match step {
        Step::Await(op) => {
            calls.push(op.call());
            (calls, None)
        }
        Step::Done(result) => (calls, Some(result)),
    }
}

fn error<T>(outcome: Option<Result<T, MmapError>>) -> MmapError {
    match outcome {
        Some(Err(error)) => error,
        Some(Ok(_)) => panic!("the operation succeeded"),
        None => panic!("the operation is not over"),
    }
}

fn value<T>(outcome: Option<Result<T, MmapError>>) -> T {
    match outcome {
        Some(Ok(value)) => value,
        Some(Err(error)) => panic!("the operation failed: {:?}", error),
        None => panic!("the operation is not over"),
    }
}

fn arena() -> MemoryMappingArena {
    let step = MemoryMappingArena::new(linux(), 4 * PAGE);
    value(drive(step, &[Ok(BASE), Ok(0), Ok(0)]).1)
}

fn linux_fixed() -> MapFlags {
    MapFlags { shared: true, fixed: true, noreserve: true, ..MapFlags::none() }
}

#[test]
fn linux_arena_is_memory_that_can_only_be_read() {
    let (calls, outcome) =
        drive(MemoryMappingArena::new(linux(), 4 * PAGE), &[Ok(BASE), Ok(0), Ok(0)]);
    assert_eq!(
        calls[0],
        SysCall::Mmap {
            addr: 0,
            len: 4 * PAGE,
            prot: 1,
            flags: MapFlags { shared: true, anonymous: true, noreserve: true, ..MapFlags::none() },
            fd: NO_DESCRIPTOR,
            offset: 0,
        }
    );
    let arena = value(outcome);
    assert_eq!(arena.as_ptr(), BASE);
    assert_eq!(arena.size(), 4 * PAGE);
    assert_eq!(arena.unmap(), SysCall::Munmap { addr: BASE, len: 4 * PAGE });
}

#[test]
fn macos_arena_is_memory_that_cannot_be_touched() {
    let (calls, outcome) = drive(MemoryMappingArena::new(macos(), 4 * PAGE), &[Ok(BASE)]);
    assert_eq!(
        calls,
        vec![SysCall::Mmap {
            addr: 0,
            len: 4 * PAGE,
            prot: 0,
            flags: MapFlags { private: true, anonymous: true, ..MapFlags::none() },
            fd: NO_DESCRIPTOR,
            offset: 0,
        }]
    );
    assert_eq!(value(outcome).as_ptr(), BASE);
}

#[test]
fn arena_that_cannot_be_set_up_tells_why() {
    for host in [linux(), macos()] {
        let (_, outcome) = drive(MemoryMappingArena::new(host, PAGE), &[Err(Errno(12))]);
        assert_eq!(error(outcome), MmapError::SystemCallFailed(Errno(12)));
    }
}

#[test]
fn anonymous_memory_is_mapped_within_the_arena() {
    let mut arena = arena();
    let (calls, outcome) = drive(arena.add_anon(PAGE, PAGE, 2 * PAGE), &[Ok(BASE + PAGE), Ok(0), Ok(0)]);
    assert_eq!(
        calls,
        vec![
            SysCall::Mmap {
                addr: BASE + PAGE,
                len: 2 * PAGE,
                prot: 3,
                flags: MapFlags { anonymous: true, ..linux_fixed() },
                fd: NO_DESCRIPTOR,
                offset: 0,
            },
            SysCall::Madvise { addr: BASE + PAGE, len: 2 * PAGE, advice: Advice::DontDump },
            SysCall::Madvise { addr: BASE + PAGE, len: 2 * PAGE, advice: Advice::Mergeable },
        ]
    );
    value(outcome);
    let (calls, _) = drive(arena.add_anon_protection(PAGE, 0, PAGE, Protection::read()), &[]);
    assert_eq!(
        calls[0],
        SysCall::Mmap {
            addr: BASE,
            len: PAGE,
            prot: 1,
            flags: MapFlags { anonymous: true, ..linux_fixed() },
            fd: NO_DESCRIPTOR,
            offset: 0,
        }
    );
}

#[test]
fn file_is_mapped_within_a_linux_arena() {
    let mut arena = arena();
    let mapped = |offset| SysCall::Mmap {
        addr: BASE + PAGE,
        len: PAGE,
        prot: 3,
        flags: linux_fixed(),
        fd: 5,
        offset,
    };
    let (calls, _) = drive(arena.add_fd(linux(), PAGE, PAGE, 5), &[Ok(0)]);
    assert_eq!(calls, vec![SysCall::GetSeals { fd: 5 }, mapped(0)]);
    let (calls, _) = drive(arena.add_fd_offset(linux(), PAGE, PAGE, 5, 8192), &[Ok(0)]);
    assert_eq!(calls, vec![SysCall::GetSeals { fd: 5 }, mapped(8192)]);
    let step = arena.add_fd_offset_protection(linux(), PAGE, PAGE, 5, 1 << 63, Protection::read());
    let (_, outcome) = drive(step, &[]);
    assert_eq!(error(outcome), MmapError::InvalidOffset);
}

#[test]
fn file_is_mapped_within_a_macos_arena() {
    let mut arena = arena();
    let step = arena.add_fd_offset_protection(macos(), 3, PAGE, 5, 8192, Protection::read());
    let (calls, outcome) = drive(step, &[Ok(BASE + 3)]);
    assert_eq!(
        calls,
        vec![SysCall::Mmap {
            addr: BASE + 3,
            len: PAGE,
            prot: 1,
            flags: MapFlags { shared: true, fixed: true, ..MapFlags::none() },
            fd: 5,
            offset: 8192,
        }]
    );
    value(outcome);
    let (_, outcome) = drive(arena.add_fd(macos(), 0, PAGE, 5), &[Err(Errno(9))]);
    assert_eq!(error(outcome), MmapError::SystemCallFailed(Errno(9)));
}

#[test]
fn linux_arena_refuses_what_does_not_fit() {
    let mut arena = arena();
    let (calls, outcome) = drive(arena.add_anon(PAGE, PAGE + 1, PAGE), &[]);
    assert!(calls.is_empty());
    assert_eq!(error(outcome), MmapError::NotPageAligned);
    let (_, outcome) = drive(arena.add_anon(PAGE, 4 * PAGE, PAGE), &[]);
    assert_eq!(error(outcome), MmapError::InvalidAddress);
    let (_, outcome) = drive(arena.remove(linux(), 0, 4 * PAGE + 1), &[]);
    assert_eq!(error(outcome), MmapError::InvalidAddress);
    let (_, outcome) = drive(arena.add_fd(linux(), 0, usize::MAX, 5), &[]);
    assert_eq!(error(outcome), MmapError::InvalidAddress);
}

#[test]
fn macos_arena_refuses_what_does_not_fit() {
    let mut arena = arena();
    let ranges = [
        (4 * PAGE, PAGE),
        (4 * PAGE, 1),
        (PAGE, 4 * PAGE),
        (0, 4 * PAGE + 1),
        (4 * PAGE + 1, 0),
        (PAGE, usize::MAX),
        (usize::MAX, PAGE),
        (usize::MAX, 0),
    ];
    for (offset, size) in ranges {
        let refused = [
            arena.add_fd(macos(), offset, size, 5),
            arena.add_fd_offset(macos(), offset, size, 5, 8192),
            arena.add_fd_offset_protection(macos(), offset, size, 5, 0, Protection::read()),
            arena.add_fd_mapping(macos(), offset, size, 5, 0, Protection::read()),
            arena.remove(macos(), offset, size),
            arena.remove_mapping(macos(), offset, size),
        ];
        for step in refused {
            let (calls, outcome) = drive(step, &[]);
            assert!(calls.is_empty());
            assert_eq!(error(outcome), MmapError::InvalidAddress);
        }
    }
    let (calls, _) = drive(arena.remove(macos(), 3 * PAGE, PAGE), &[]);
    assert_eq!(calls.len(), 1);
    let (calls, _) = drive(arena.add_fd(macos(), 0, 4 * PAGE, 5), &[]);
    assert_eq!(calls.len(), 1);
}

#[test]
fn arena_changes_keep_to_their_range() {
    let mut arena = arena();
    for host in [linux(), macos()] {
        for (offset, size) in [(0, 4 * PAGE), (PAGE, PAGE), (3 * PAGE, 1)] {
            let steps = [
                arena.add_fd(host, offset, size, 5),
                arena.remove(host, offset, size),
            ];
            for first in steps {
                let mut step = first;
                while let Step::Await(op) = step {
                    let call = op.call();
                    if let SysCall::Mmap { addr, len, flags, .. } = call {
                        assert_eq!((addr, len, flags.fixed), (BASE + offset, size, true));
                    }
                    assert!(!matches!(call, SysCall::Munmap { .. }));
                    step = op.resume(Ok(BASE + offset));
                }
            }
        }
    }
}

#[test]
fn removed_memory_becomes_what_the_arena_is_made_of() {
    let mut arena = arena();
    let (calls, outcome) = drive(arena.remove(linux(), PAGE, PAGE), &[Ok(BASE + PAGE), Ok(0), Ok(0)]);
    assert_eq!(
        calls[0],
        SysCall::Mmap {
            addr: BASE + PAGE,
            len: PAGE,
            prot: 1,
            flags: MapFlags { anonymous: true, ..linux_fixed() },
            fd: NO_DESCRIPTOR,
            offset: 0,
        }
    );
    value(outcome);
    let (calls, outcome) = drive(arena.remove(macos(), PAGE, PAGE), &[Ok(BASE + PAGE)]);
    assert_eq!(
        calls,
        vec![SysCall::Mmap {
            addr: BASE + PAGE,
            len: PAGE,
            prot: 0,
            flags: MapFlags { private: true, anonymous: true, fixed: true, ..MapFlags::none() },
            fd: NO_DESCRIPTOR,
            offset: 0,
        }]
    );
    value(outcome);
}

#[test]
fn region_changes_are_arena_changes() {
    let mut arena = arena();
    for host in [linux(), macos()] {
        let step = arena.add_fd_mapping(host, PAGE, PAGE, 5, 0, Protection::read());
        let (mapped, _) = drive(step, &[]);
        let step = arena.add_fd_offset_protection(host, PAGE, PAGE, 5, 0, Protection::read());
        assert_eq!(mapped, drive(step, &[]).0);
        let (removed, _) = drive(arena.remove_mapping(host, PAGE, PAGE), &[]);
        assert_eq!(removed, drive(arena.remove(host, PAGE, PAGE), &[]).0);
    }
}

#[test]
fn arena_takes_a_mapping_over() {
    let (_, outcome) = drive(MemoryMapping::new(macos(), 2 * PAGE), &[Ok(BASE)]);
    let arena = MemoryMappingArena::from(value(outcome));
    assert_eq!(arena.as_ptr(), BASE);
    assert_eq!(arena.size(), 2 * PAGE);
    assert_eq!(MappedRegion::as_ptr(&arena), BASE);
    assert_eq!(MappedRegion::size(&arena), 2 * PAGE);
}

#[test]
fn arena_is_written_back_as_a_region() {
    let arena = arena();
    let (calls, _) = drive(arena.msync(PAGE, PAGE), &[]);
    assert_eq!(calls, vec![SysCall::Msync { addr: BASE + PAGE, len: PAGE }]);
}
