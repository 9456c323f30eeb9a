use std::collections::BTreeSet;

use base_sys::operation::{Host, MmapError, Operation, Os, Step};
use base_sys::protection::Protection;
use base_sys::syscall::{Errno, SysCall, SysReply};
use base_sys::unix::arena::MemoryMappingArena;
use base_sys::unix::mmap::MemoryMapping;

const PAGE: usize = 4096;

// A kernel that knows which pages are mapped, and fails the calls that it is told to fail.
struct Kernel {
    pages: BTreeSet<usize>,
    next: usize,
    calls: usize,
    failing: Option<usize>,
}

impl Kernel {
    fn new(next: usize, failing: Option<usize>) -> Kernel {
        let pages: BTreeSet<usize> = [1, 2, 3].into_iter().collect();
        Kernel { pages, next, calls: 0, failing }
    }

    fn span(addr: usize, len: usize) -> std::ops::Range<usize> {
        addr / PAGE..(addr + len).div_ceil(PAGE)
    }

    fn reply(&mut self, call: SysCall) -> SysReply {
        self.calls += 1;
        if self.failing == Some(self.calls) {
            // What a mapping was to go over may be gone when it fails.
            if let SysCall::Mmap { addr, flags, .. } = call {
                if flags.fixed {
                    self.pages.remove(&(addr / PAGE));
                }
            }
            return Err(Errno(12));
        }
        match call {
            SysCall::Mmap { addr, len, flags, .. } => {
                let at = if flags.fixed { addr } else { self.next };
                assert_eq!(at % PAGE, 0);
                for page in Kernel::span(at, len) {
                    assert!(self.pages.insert(page) || flags.fixed);
                }
                Ok(at)
            }
            SysCall::Munmap { addr, .. } if addr % PAGE != 0 => Err(Errno(22)),
            SysCall::Munmap { addr, len } => {
                for page in Kernel::span(addr, len) {
                    self.pages.remove(&page);
                }
                Ok(0)
            }
            _ => Ok(0),
        }
    }

    fn run<O: Operation>(&mut self, first: Step<O, O::Output>) -> Result<O::Output, MmapError> {
        let mut step = first;
        loop {
            match step {
                Step::Await(op) => {
                    let reply = self.reply(op.call());
                    assert!(op.accepts(&reply));
                    step = op.resume(reply);
                }
                Step::Done(result) => return result,
            }
        }
    }
}

fn host(os: Os) -> Host {
    Host { os, pagesize: PAGE }
}

fn aligned(os: Os) -> Step<base_sys::unix::mmap::MapOp, MemoryMapping> {
    MemoryMapping::new_protection(host(os), 3 * PAGE, Some(0x1_0000), Protection::read_write())
}

#[test]
fn mapping_is_all_that_stays_mapped() {
    for os in [Os::Linux, Os::Macos] {
        for start in [0x10_0000, 0x10_1000, 0x10_f000] {
            let mut kernel = Kernel::new(start, None);
            let before = kernel.pages.clone();
            let mapping = kernel.run(aligned(os)).unwrap();
            assert_eq!(mapping.as_ptr() % 0x1_0000, 0);
            assert_eq!(mapping.size(), 3 * PAGE);
            let mut expected = before.clone();
            expected.extend(Kernel::span(mapping.as_ptr(), mapping.size()));
            assert_eq!(kernel.pages, expected);
        }
    }
}

#[test]
fn part_of_a_page_can_be_aligned() {
    for os in [Os::Linux, Os::Macos] {
        for start in [0x10_0000, 0x10_1000, 0x10_f000] {
            let mut kernel = Kernel::new(start, None);
            let before = kernel.pages.clone();
            let size = 2 * PAGE + 5;
            let step = MemoryMapping::new_protection(
                host(os),
                size,
                Some(0x1_0000),
                Protection::read_write(),
            );
            let mapping = kernel.run(step).unwrap();
            assert_eq!(mapping.as_ptr() % 0x1_0000, 0);
            assert_eq!(mapping.size(), size);
            for page in Kernel::span(mapping.as_ptr(), size) {
                assert!(kernel.pages.contains(&page));
                assert!(!before.contains(&page));
            }
        }
    }
}

#[test]
fn unmapping_undoes_a_mapping() {
    for os in [Os::Linux, Os::Macos] {
        let mut kernel = Kernel::new(0x10_3000, None);
        let before = kernel.pages.clone();
        let mapping = kernel.run(aligned(os)).unwrap();
        kernel.reply(mapping.unmap()).unwrap();
        assert_eq!(kernel.pages, before);
    }
}

#[test]
fn macos_mapping_that_fails_leaves_nothing() {
    for failing in [1, 2] {
        let mut kernel = Kernel::new(0x10_3000, Some(failing));
        let before = kernel.pages.clone();
        assert_eq!(kernel.run(aligned(Os::Macos)), Err(MmapError::SystemCallFailed(Errno(12))));
        assert_eq!(kernel.pages, before);
    }
}

#[test]
fn linux_mapping_that_fails_at_once_leaves_nothing() {
    for step in [aligned(Os::Linux), MemoryMapping::new(host(Os::Linux), PAGE)] {
        let mut kernel = Kernel::new(0x10_3000, Some(1));
        let before = kernel.pages.clone();
        assert_eq!(kernel.run(step), Err(MmapError::SystemCallFailed(Errno(12))));
        assert_eq!(kernel.pages, before);
    }
}

#[test]
fn linux_keeps_its_reservation_where_the_mapping_fails() {
    let mut kernel = Kernel::new(0x10_3000, Some(2));
    let mut expected = kernel.pages.clone();
    expected.extend(Kernel::span(0x10_3000, 3 * PAGE + 0x1_0000));
    expected.remove(&(0x11_0000 / PAGE));
    assert_eq!(kernel.run(aligned(Os::Linux)), Err(MmapError::SystemCallFailed(Errno(12))));
    assert_eq!(kernel.pages, expected);
}

#[test]
fn fixed_mapping_that_fails_spares_everything_else() {
    for os in [Os::Linux, Os::Macos] {
        let mut kernel = Kernel::new(0x10_0000, Some(1));
        let step = MemoryMapping::new_protection_fixed(host(os), 2 * PAGE, PAGE, Protection::read());
        assert_eq!(kernel.run(step), Err(MmapError::SystemCallFailed(Errno(12))));
        assert_eq!(kernel.pages, [1, 3].into_iter().collect());
    }
}

#[test]
fn mapping_is_as_requested_though_unmapping_fails() {
    for (os, unmapping) in [(Os::Linux, 3), (Os::Linux, 4), (Os::Macos, 3), (Os::Macos, 4)] {
        let mut kernel = Kernel::new(0x10_3000, Some(unmapping));
        let mapping = kernel.run(aligned(os)).unwrap();
        assert_eq!((mapping.as_ptr(), mapping.size()), (0x11_0000, 3 * PAGE));
    }
}

#[test]
fn arena_change_that_fails_spares_the_rest() {
    for os in [Os::Linux, Os::Macos] {
        let host = host(os);
        let mut kernel = Kernel::new(0x10_0000, None);
        let mut arena = kernel.run(MemoryMappingArena::new(host, 4 * PAGE)).unwrap();
        let mut expected = kernel.pages.clone();
        kernel.failing = Some(kernel.calls + 1);
        let removed = kernel.run(arena.remove(host, PAGE, PAGE));
        assert_eq!(removed, Err(MmapError::SystemCallFailed(Errno(12))));
        expected.remove(&(0x10_0000 / PAGE + 1));
        assert_eq!(kernel.pages, expected);
    }
}

#[test]
fn macos_arena_stays_mapped() {
    let macos = host(Os::Macos);
    let mut kernel = Kernel::new(0x10_0000, None);
    let mut arena = kernel.run(MemoryMappingArena::new(macos, 4 * PAGE)).unwrap();
    let with_arena = kernel.pages.clone();
    kernel.run(arena.add_fd(macos, 3 * PAGE, PAGE, 5)).unwrap();
    kernel.run(arena.remove(macos, 0, 4 * PAGE)).unwrap();
    assert_eq!(kernel.pages, with_arena);
    let past = kernel.run(arena.remove(macos, 4 * PAGE, PAGE));
    assert_eq!(past, Err(MmapError::InvalidAddress));
    assert_eq!(kernel.pages, with_arena);
}

#[test]
fn arena_stays_mapped() {
    let linux = host(Os::Linux);
    let mut kernel = Kernel::new(0x10_0000, None);
    let mut arena = kernel.run(MemoryMappingArena::new(linux, 4 * PAGE)).unwrap();
    let with_arena = kernel.pages.clone();
    kernel.run(arena.add_anon(PAGE, PAGE, PAGE + 1)).unwrap();
    assert_eq!(kernel.pages, with_arena);
    kernel.run(arena.add_fd(linux, 3 * PAGE, PAGE, 5)).unwrap();
    assert_eq!(kernel.pages, with_arena);
    kernel.run(arena.remove(linux, 0, 4 * PAGE)).unwrap();
    assert_eq!(kernel.pages, with_arena);
    assert_eq!((arena.as_ptr(), arena.size()), (0x10_0000, 4 * PAGE));
    kernel.reply(arena.unmap()).unwrap();
    assert_eq!(kernel.pages, [1, 2, 3].into_iter().collect());
}
