use base_sys::operation::{Host, MmapError, Operation, Os, Step};
use base_sys::protection::Protection;
use base_sys::syscall::{Errno, MapFlags, SysCall, SysReply, NO_DESCRIPTOR};
use base_sys::unix::mmap::MemoryMapping;

const PAGE: usize = 16384;

fn macos() -> Host {
    Host { os: Os::Macos, pagesize: PAGE }
}

// Answers the calls of an operation one by one. Gives the calls that were made and, once the
// operation is over, what came of it.
fn drive<O: Operation>(
    first: Step<O, O::Output>,
    replies: &[SysReply],
) -> (Vec<SysCall>, Option<Result<O::Output, MmapError>>) {
    let mut calls = Vec::new();
    let mut step = first;
    for reply in replies {
        match step {
            Step::Await(op) => {
                calls.push(op.call());
                assert!(op.accepts(reply));
                step = op.resume(*reply);
            }
            Step::Done(_) => panic!("the operation is over after {} replies", calls.len()),
        }
    }
    match step {
        Step::Await(op) => {
            calls.push(op.call());
            (calls, None)
        }
        Step::Done(result) => (calls, Some(result)),
    }
}

fn error<T>(outcome: Option<Result<T, MmapError>>) -> MmapError {
    match outcome {
        Some(Err(error)) => error,
        Some(Ok(_)) => panic!("the operation succeeded"),
        None => panic!("the operation is not over"),
    }
}

fn value<T>(outcome: Option<Result<T, MmapError>>) -> T {
    match outcome {
        Some(Ok(value)) => value,
        Some(Err(error)) => panic!("the operation failed: {:?}", error),
        None => panic!("the operation is not over"),
    }
}

fn aligned() -> Step<base_sys::unix::mmap::MapOp, MemoryMapping> {
    MemoryMapping::new_protection(macos(), PAGE, Some(0x10_0000), Protection::read_write())
}

#[test]
fn plain_mapping_takes_one_call() {
    let (calls, outcome) = drive(MemoryMapping::new(macos(), PAGE), &[Ok(0x1_0000_0000)]);
    assert_eq!(
        calls,
        vec![SysCall::Mmap {
            addr: 0,
            len: PAGE,
            prot: 3,
            flags: MapFlags { shared: true, anonymous: true, ..MapFlags::none() },
            fd: NO_DESCRIPTOR,
            offset: 0,
        }]
    );
    let mapping = value(outcome);
    assert_eq!(mapping.as_ptr(), 0x1_0000_0000);
    assert_eq!(mapping.size(), PAGE);
}

#[test]
fn file_mapping_ignores_the_wish_to_populate() {
    let step = MemoryMapping::from_fd_offset_protection_populate(
        macos(),
        6,
        PAGE,
        0x8000,
        0,
        Protection::read(),
        true,
    );
    let (calls, _) = drive(step, &[]);
    assert_eq!(
        calls,
        vec![SysCall::Mmap {
            addr: 0,
            len: PAGE,
            prot: 1,
            flags: MapFlags { shared: true, ..MapFlags::none() },
            fd: 6,
            offset: 0x8000,
        }]
    );
}

#[test]
fn offset_is_handed_on_as_it_is() {
    let (calls, _) = drive(MemoryMapping::from_fd_offset(macos(), 6, PAGE, u64::MAX), &[]);
    assert_eq!(
        calls,
        vec![SysCall::Mmap {
            addr: 0,
            len: PAGE,
            prot: 3,
            flags: MapFlags { shared: true, ..MapFlags::none() },
            fd: 6,
            offset: -1,
        }]
    );
}

#[test]
fn fixed_mapping_is_made_at_its_address() {
    let step = MemoryMapping::new_protection_fixed(macos(), 0x4_0000, PAGE, Protection::read());
    let (calls, outcome) = drive(step, &[Ok(0x4_0000)]);
    assert_eq!(
        calls,
        vec![SysCall::Mmap {
            addr: 0x4_0000,
            len: PAGE,
            prot: 1,
            flags: MapFlags { shared: true, fixed: true, anonymous: true, ..MapFlags::none() },
            fd: NO_DESCRIPTOR,
            offset: 0,
        }]
    );
    assert_eq!(value(outcome).as_ptr(), 0x4_0000);

    let step = MemoryMapping::from_descriptor_offset_protection_fixed(
        macos(),
        0x4_0000,
        9,
        PAGE,
        0,
        Protection::read(),
    );
    let (calls, _) = drive(step, &[]);
    assert_eq!(
        calls,
        vec![SysCall::Mmap {
            addr: 0x4_0000,
            len: PAGE,
            prot: 1,
            flags: MapFlags { shared: true, fixed: true, ..MapFlags::none() },
            fd: 9,
            offset: 0,
        }]
    );
}

#[test]
fn aligned_mapping_reserves_and_trims() {
    let start = 0x1_0000_4000;
    let addr = 0x1_0010_0000;
    let (calls, outcome) = drive(aligned(), &[Ok(start), Ok(addr), Ok(0), Ok(0)]);
    assert_eq!(
        calls,
        vec![
            SysCall::Mmap {
                addr: 0,
                len: PAGE + 0x10_0000,
                prot: 0,
                flags: MapFlags { private: true, anonymous: true, ..MapFlags::none() },
                fd: NO_DESCRIPTOR,
                offset: 0,
            },
            SysCall::Mmap {
                addr,
                len: PAGE,
                prot: 3,
                flags: MapFlags { shared: true, fixed: true, anonymous: true, ..MapFlags::none() },
                fd: NO_DESCRIPTOR,
                offset: 0,
            },
            SysCall::Munmap { addr: start, len: 0xf_c000 },
            SysCall::Munmap { addr: addr + PAGE, len: 0x4000 },
        ]
    );
    assert_eq!(value(outcome).as_ptr(), addr);
}

#[test]
fn reservation_that_begins_aligned_is_trimmed_behind() {
    let start = 0x1_0010_0000;
    let (calls, outcome) = drive(aligned(), &[Ok(start), Ok(start), Ok(0)]);
    assert_eq!(calls.len(), 3);
    assert_eq!(calls[2], SysCall::Munmap { addr: start + PAGE, len: 0x10_0000 });
    assert_eq!(value(outcome).as_ptr(), start);
}

#[test]
fn mapping_that_fails_gives_its_reservation_back() {
    let start = 0x1_0000_4000;
    let (calls, outcome) = drive(aligned(), &[Ok(start), Err(Errno(12)), Ok(0)]);
    assert_eq!(calls[2], SysCall::Munmap { addr: start, len: PAGE + 0x10_0000 });
    assert_eq!(error(outcome), MmapError::SystemCallFailed(Errno(12)));

    let (_, outcome) = drive(aligned(), &[Ok(start), Err(Errno(12)), Err(Errno(22))]);
    assert_eq!(error(outcome), MmapError::SystemCallFailed(Errno(22)));
}

#[test]
fn mapping_that_cannot_begin_tells_why() {
    let (_, outcome) = drive(aligned(), &[Err(Errno(12))]);
    assert_eq!(error(outcome), MmapError::SystemCallFailed(Errno(12)));
    let (_, outcome) = drive(MemoryMapping::new(macos(), PAGE), &[Err(Errno(13))]);
    assert_eq!(error(outcome), MmapError::SystemCallFailed(Errno(13)));
}

#[test]
fn mapping_past_the_end_of_the_address_space_is_not_accepted() {
    let op = match MemoryMapping::new(macos(), PAGE) {
        Step::Await(op) => op,
        Step::Done(_) => panic!("nothing is mapped"),
    };
    assert!(op.accepts(&Ok(0)));
    assert!(op.accepts(&Err(Errno(1))));
    assert!(!op.accepts(&Ok(usize::MAX)));
    let op = match aligned() {
        Step::Await(op) => op,
        Step::Done(_) => panic!("nothing is reserved"),
    };
    assert!(op.accepts(&Ok(0x4000)));
    assert!(!op.accepts(&Ok(usize::MAX)));
}
