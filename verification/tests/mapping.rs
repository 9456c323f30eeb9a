use base_sys::operation::{Host, MmapError, Operation, Os, Step};
use base_sys::syscall::{Advice, Errno, SysCall, SysReply};
use base_sys::unix::mmap::{validate_includes_range, MappedRegion, MemoryMapping, Region};

const PAGE: usize = 4096;

// Answers the calls of an operation one by one. Gives the calls that were made and, once the
// operation is over, what came of it.
fn drive<O: Operation>(
    first: Step<O, O::Output>,
    replies: &[SysReply],
) -> (Vec<SysCall>, Option<Result<O::Output, MmapError>>) {
    let mut calls = Vec::new();
    let mut step = first;
    for reply in replies {
        match step {
            Step::Await(op) => {
                calls.push(op.call());
                assert!(op.accepts(reply));
                step = op.resume(*reply);
            }
            Step::Done(_) => panic!("the operation is over after {} replies", calls.len()),
        }
    }
    match step {
        Step::Await(op) => {
            calls.push(op.call());
            (calls, None)
        }
        Step::Done(result) => (calls, Some(result)),
    }
}

fn error<T>(outcome: Option<Result<T, MmapError>>) -> MmapError {
    match outcome {
        Some(Err(error)) => error,
        Some(Ok(_)) => panic!("the operation succeeded"),
        None => panic!("the operation is not over"),
    }
}

fn value<T>(outcome: Option<Result<T, MmapError>>) -> T {
    match outcome {
        Some(Ok(value)) => value,
        Some(Err(error)) => panic!("the operation failed: {:?}", error),
        None => panic!("the operation is not over"),
    }
}

fn mapping(size: usize) -> MemoryMapping {
    let host = Host { os: Os::Macos, pagesize: PAGE };
    value(drive(MemoryMapping::new(host, size), &[Ok(0x8000)]).1)
}

#[test]
fn range_within_a_mapping_is_let_through() {
    assert_eq!(validate_includes_range(10, 0, 10), Ok(()));
    assert_eq!(validate_includes_range(10, 10, 0), Ok(()));
    assert_eq!(validate_includes_range(usize::MAX, usize::MAX, 0), Ok(()));
    assert_eq!(validate_includes_range(10, 1, 10), Err(MmapError::InvalidAddress));
    assert_eq!(validate_includes_range(10, 11, 0), Err(MmapError::InvalidAddress));
    assert_eq!(validate_includes_range(10, usize::MAX, 2), Err(MmapError::InvalidAddress));
}

#[test]
fn end_of_a_range_is_its_offset_and_count() {
    let m = mapping(100);
    assert_eq!(m.range_end(30, 70), Ok(100));
    assert_eq!(m.range_end(0, 0), Ok(0));
    assert_eq!(m.range_end(31, 70), Err(MmapError::InvalidAddress));
    assert_eq!(m.range_end(usize::MAX, 1), Err(MmapError::InvalidAddress));
}

#[test]
fn ranges_are_checked_byte_by_byte() {
    let size = 5;
    for offset in 0..8 {
        for count in 1..8 {
            let inside = (offset..offset + count).all(|byte| byte < size);
            assert_eq!(validate_includes_range(size, offset, count).is_ok(), inside);
        }
    }
}

#[test]
fn whole_mapping_is_written_back() {
    let m = mapping(PAGE);
    let (calls, outcome) = drive(m.msync(), &[Ok(0)]);
    assert_eq!(calls, vec![SysCall::Msync { addr: 0x8000, len: PAGE }]);
    value(outcome);
    let (_, outcome) = drive(m.msync(), &[Err(Errno(5))]);
    assert_eq!(error(outcome), MmapError::SystemCallFailed(Errno(5)));
}

#[test]
fn range_of_a_region_is_written_back() {
    let m = mapping(3 * PAGE);
    let region: &MemoryMapping = &m;
    let (calls, outcome) = drive(MappedRegion::msync(region, PAGE, 2 * PAGE), &[Ok(0)]);
    assert_eq!(calls, vec![SysCall::Msync { addr: 0x8000 + PAGE, len: 2 * PAGE }]);
    value(outcome);
    let (calls, outcome) = drive(MappedRegion::msync(region, 2 * PAGE, 2 * PAGE), &[]);
    assert!(calls.is_empty());
    assert_eq!(error(outcome), MmapError::InvalidAddress);
}

#[test]
fn advice_is_given_on_a_range_of_a_region() {
    let m = mapping(3 * PAGE);
    let (calls, outcome) = drive(m.madvise(PAGE, PAGE, 17), &[Ok(0)]);
    assert_eq!(
        calls,
        vec![SysCall::Madvise { addr: 0x8000 + PAGE, len: PAGE, advice: Advice::Other(17) }]
    );
    value(outcome);
    let (_, outcome) = drive(m.madvise(0, PAGE, 17), &[Err(Errno(22))]);
    assert_eq!(error(outcome), MmapError::SystemCallFailed(Errno(22)));
    let (_, outcome) = drive(m.madvise(1, 3 * PAGE, 17), &[]);
    assert_eq!(error(outcome), MmapError::InvalidAddress);
}

#[test]
fn mapping_is_unmapped_as_a_whole() {
    assert_eq!(mapping(2 * PAGE).unmap(), SysCall::Munmap { addr: 0x8000, len: 2 * PAGE });
}

#[test]
fn plain_region_is_checked_like_a_mapping() {
    let region = Region { addr: 0x8000, len: PAGE };
    assert_eq!((region.as_ptr(), region.size()), (0x8000, PAGE));
    let (calls, _) = drive(region.msync(16, 32), &[]);
    assert_eq!(calls, vec![SysCall::Msync { addr: 0x8010, len: 32 }]);
    let (_, outcome) = drive(region.madvise(PAGE, 1, 4), &[]);
    assert_eq!(error(outcome), MmapError::InvalidAddress);
}
