use base_sys::operation::{Host, MmapError, Operation, Os, Step};
use base_sys::protection::Protection;
use base_sys::syscall::{Errno, MapFlags, SysCall, SysReply, NO_DESCRIPTOR};
use base_sys::unix::arena::MemoryMappingArena;
use base_sys::unix::builder::{MemoryMappingBuilder, MemoryMappingBuilderUnix, SafeDescriptor};
use base_sys::unix::mmap::MemoryMapping;

const PAGE: usize = 4096;

fn linux() -> Host {
    Host { os: Os::Linux, pagesize: PAGE }
}

fn macos() -> Host {
    Host { os: Os::Macos, pagesize: PAGE }
}

// Answers the calls of an operation one by one. Gives the calls that were made and, once the
// operation is over, what came of it.
fn drive<O: Operation>(
    first: Step<O, O::Output>,
    replies: &[SysReply],
) -> (Vec<SysCall>, Option<Result<O::Output, MmapError>>) {
    let mut calls = Vec::new();
    let mut step = first;
    for reply in replies {
        match step {
            Step::Await(op) => {
                calls.push(op.call());
                assert!(op.accepts(reply));
                step = op.resume(*reply);
            }
            Step::Done(_) => panic!("the operation is over after {} replies", calls.len()),
        }
    }
    match step {
        Step::Await(op) => {
            calls.push(op.call());
            (calls, None)
        }
        Step::Done(result) => (calls, Some(result)),
    }
}

fn error<T>(outcome: Option<Result<T, MmapError>>) -> MmapError {
    match outcome {
        Some(Err(error)) => error,
        Some(Ok(_)) => panic!("the operation succeeded"),
        None => panic!("the operation is not over"),
    }
}

fn value<T>(outcome: Option<Result<T, MmapError>>) -> T {
    match outcome {
        Some(Ok(value)) => value,
        Some(Err(error)) => panic!("the operation failed: {:?}", error),
        None => panic!("the operation is not over"),
    }
}

fn mapping() -> MemoryMapping {
    value(drive(MemoryMapping::new(macos(), PAGE), &[Ok(0x8000)]).1)
}

#[test]
fn plain_builder_makes_a_plain_mapping() {
    for host in [linux(), macos()] {
        let (built, _) = drive(MemoryMappingBuilder::new(PAGE).build(host), &[]);
        let (plain, _) = drive(MemoryMapping::new(host, PAGE), &[]);
        assert_eq!(built, plain);
    }
    let (_, outcome) =
        drive(MemoryMappingBuilder::new(PAGE).build(linux()), &[Ok(0x8000), Ok(0), Ok(0)]);
    let built = value(outcome);
    assert_eq!(built.mapping, mapping());
    assert_eq!(built.file_descriptor, None);
}

#[test]
fn builder_hands_everything_on() {
    let builder = MemoryMappingBuilder {
        descriptor: Some(4),
        size: PAGE,
        offset: Some(8192),
        align: Some(0x1_0000),
        protection: Some(Protection::read()),
    };
    let (calls, outcome) = drive(
        builder.build(linux()),
        &[Ok(0x2_0000), Ok(0), Ok(0x2_0000), Ok(0), Ok(0), Ok(0)],
    );
    assert_eq!(
        calls[2],
        SysCall::Mmap {
            addr: 0x2_0000,
            len: PAGE,
            prot: 1,
            flags: MapFlags { shared: true, fixed: true, ..MapFlags::none() },
            fd: 4,
            offset: 8192,
        }
    );
    assert_eq!(value(outcome).mapping.as_ptr(), 0x2_0000);
}

#[test]
fn file_of_a_builder_begins_at_zero() {
    let chosen = MemoryMappingBuilder::new(PAGE).from_file(9);
    assert_eq!(chosen, MemoryMappingBuilder::new(PAGE).from_descriptor(9));
    assert_eq!(chosen.descriptor, Some(9));
    assert_eq!(chosen.size, PAGE);
    let (calls, _) = drive(chosen.build(macos()), &[]);
    assert_eq!(
        calls,
        vec![SysCall::Mmap {
            addr: 0,
            len: PAGE,
            prot: 3,
            flags: MapFlags { shared: true, ..MapFlags::none() },
            fd: 9,
            offset: 0,
        }]
    );
}

#[test]
fn anonymous_memory_can_be_aligned() {
    let mut builder = MemoryMappingBuilder::new(PAGE);
    builder.align = Some(0x1_0000);
    let (calls, _) = drive(builder.build(linux()), &[]);
    assert_eq!(
        calls,
        vec![SysCall::Mmap {
            addr: 0,
            len: PAGE + 0x1_0000,
            prot: 3,
            flags: MapFlags { private: true, anonymous: true, noreserve: true, ..MapFlags::none() },
            fd: NO_DESCRIPTOR,
            offset: 0,
        }]
    );
    builder.align = Some(48);
    let (_, outcome) = drive(builder.build(linux()), &[]);
    assert_eq!(error(outcome), MmapError::InvalidAlignment);
}

#[test]
fn build_that_fails_tells_why() {
    let (_, outcome) = drive(MemoryMappingBuilder::new(PAGE).build(linux()), &[Err(Errno(12))]);
    assert_eq!(error(outcome), MmapError::SystemCallFailed(Errno(12)));
}

#[test]
fn wrapped_mapping_keeps_a_duplicate_of_its_file() {
    let (calls, outcome) = drive(MemoryMappingBuilder::wrap(mapping(), Some(4)), &[Ok(11)]);
    assert_eq!(calls, vec![SysCall::Duplicate { fd: 4 }]);
    let wrapped = value(outcome);
    assert_eq!(wrapped.mapping, mapping());
    assert_eq!(wrapped.file_descriptor, Some(SafeDescriptor { descriptor: 11 }));

    let (calls, outcome) = drive(MemoryMappingBuilder::wrap(mapping(), None), &[]);
    assert!(calls.is_empty());
    assert_eq!(value(outcome).file_descriptor, None);
}

#[test]
fn mapping_whose_file_cannot_be_kept_is_given_back() {
    let (calls, outcome) =
        drive(MemoryMappingBuilder::wrap(mapping(), Some(4)), &[Err(Errno(24)), Ok(0)]);
    assert_eq!(
        calls,
        vec![SysCall::Duplicate { fd: 4 }, SysCall::Munmap { addr: 0x8000, len: PAGE }]
    );
    assert_eq!(error(outcome), MmapError::SystemCallFailed(Errno(24)));
}

#[test]
fn descriptor_that_is_no_descriptor_is_not_accepted() {
    let op = match MemoryMappingBuilder::wrap(mapping(), Some(4)) {
        Step::Await(op) => op,
        Step::Done(_) => panic!("nothing is duplicated"),
    };
    assert!(op.accepts(&Ok(0)));
    assert!(op.accepts(&Ok(i32::MAX as usize)));
    assert!(!op.accepts(&Ok(i32::MAX as usize + 1)));
}

#[test]
fn arena_takes_a_built_mapping_over() {
    let (_, outcome) = drive(MemoryMappingBuilder::new(PAGE).build(macos()), &[Ok(0x8000)]);
    let arena = MemoryMappingArena::from(value(outcome));
    assert_eq!(arena.as_ptr(), 0x8000);
    assert_eq!(arena.size(), PAGE);
}
