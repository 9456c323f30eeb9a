//! Memory mappings and arenas, as far as Linux and macOS agree on them.

use libc::c_int;
use vstd::prelude::*;

use crate::linux::mmap::LinuxMap;
use crate::macos::mmap::MacosMap;
use crate::operation::{Host, MmapError, Operation, Os, Single, Step};
use crate::protection::Protection;
use crate::syscall::{Advice, RawDescriptor, SysCall, SysReply};

verus! {

/// A range of addresses.
#[derive(Clone, Copy, Debug, PartialEq, Eq, Structural)]
pub struct Region {
    pub addr: usize,
    pub len: usize,
}

impl Region {
    /// The first address past the range.
    pub open spec fn end(self) -> int {
        self.addr + self.len
    }
}

/// What is to be mapped.
#[derive(Clone, Copy, Debug, PartialEq, Eq)]
pub struct MapRequest {
    /// The address that the mapping has to have, if it matters.
    pub addr: Option<usize>,
    /// How many bytes to map.
    pub size: usize,
    /// What the address has to be a multiple of, if it matters.
    pub align: Option<u64>,
    /// Which accesses to allow, as `mmap` takes it.
    pub prot: c_int,
    /// The file to map and the place in it to begin at; no file for anonymous memory.
    pub fd: Option<(RawDescriptor, u64)>,
    /// Whether to fault the pages in at once.
    pub populate: bool,
}

/// The bytes `offset` up to `offset + count` all lie within the first `size` bytes.
pub open spec fn includes_range(size: usize, offset: usize, count: usize) -> bool {
    offset + count <= size
}

/// Checks that `offset`..`offset + range_size` lies within a memory mapping of `mmap_size` bytes.
pub fn validate_includes_range(mmap_size: usize, offset: usize, range_size: usize) -> (result:
    Result<(), MmapError>)
    ensures
        result == (if includes_range(mmap_size, offset, range_size) {
            Ok::<(), MmapError>(())
        } else {
            Err(MmapError::InvalidAddress)
        }),
{
    match offset.checked_add(range_size) {
        Some(end_offset) => if end_offset <= mmap_size {
            Ok(())
        } else {
            Err(MmapError::InvalidAddress)
        },
        None => Err(MmapError::InvalidAddress),
    }
}

/// Making a mapping, on either system.
#[derive(Debug, PartialEq, Eq)]
pub enum MapOp {
    Linux(LinuxMap),
    Macos(MacosMap),
}

impl MapRequest {
    /// The size of what has to be set aside on the host to make the mapping fits in a word.
    pub open spec fn fits_on(self, host: Host) -> bool {
        match host.os {
            Os::Linux => self.fits(host.pagesize),
            Os::Macos => crate::macos::mmap::fits(self),
        }
    }
}

/// What is to be mapped where anonymous memory is wanted.
pub open spec fn spec_anonymous(
    addr: Option<usize>,
    size: usize,
    align: Option<u64>,
    prot: Protection,
) -> MapRequest {
    MapRequest { addr, size, align, prot: prot.spec_bits(), fd: None, populate: false }
}

/// What is to be mapped where the contents of a file are wanted.
pub open spec fn spec_of_file(
    addr: Option<usize>,
    size: usize,
    align: Option<u64>,
    prot: Protection,
    fd: RawDescriptor,
    offset: u64,
    populate: bool,
) -> MapRequest {
    MapRequest { addr, size, align, prot: prot.spec_bits(), fd: Some((fd, offset)), populate }
}

/// A step of a Linux mapping, as one of either system.
pub open spec fn from_linux(step: Step<LinuxMap, MemoryMapping>) -> Step<MapOp, MemoryMapping> {
    match step {
        Step::Await(op) => Step::Await(MapOp::Linux(op)),
        Step::Done(result) => Step::Done(result),
    }
}

/// A step of a macOS mapping, as one of either system.
pub open spec fn from_macos(step: Step<MacosMap, MemoryMapping>) -> Step<MapOp, MemoryMapping> {
    match step {
        Step::Await(op) => Step::Await(MapOp::Macos(op)),
        Step::Done(result) => Step::Done(result),
    }
}

impl MapOp {
    /// Begins to make a mapping the way the host does.
    pub open spec fn spec_start(request: MapRequest, host: Host) -> Step<MapOp, MemoryMapping> {
        match host.os {
            Os::Linux => from_linux(LinuxMap::spec_start(request, host.pagesize)),
            Os::Macos => from_macos(MacosMap::spec_start(request)),
        }
    }

    /// Begins to make a mapping the way the host does.
    pub fn start(request: MapRequest, host: Host) -> (step: Step<MapOp, MemoryMapping>)
        requires
            host.wf(),
            request.fits_on(host),
        ensures
            step == MapOp::spec_start(request, host),
            step matches Step::Await(op) ==> op.wf(),
    {
        match host.os {
            Os::Linux => match LinuxMap::try_mmap_populate(request, host.pagesize) {
                Step::Await(op) => Step::Await(MapOp::Linux(op)),
                Step::Done(result) => Step::Done(result),
            },
            Os::Macos => match MacosMap::try_mmap(request) {
                Step::Await(op) => Step::Await(MapOp::Macos(op)),
                Step::Done(result) => Step::Done(result),
            },
        }
    }
}

impl Operation for MapOp {
    type Output = MemoryMapping;

    open spec fn sound(output: MemoryMapping) -> bool {
        output.wf()
    }

    open spec fn wf(self) -> bool {
        match self {
            MapOp::Linux(op) => op.wf(),
            MapOp::Macos(op) => op.wf(),
        }
    }

    open spec fn rank(self) -> nat {
        match self {
            MapOp::Linux(op) => op.rank(),
            MapOp::Macos(op) => op.rank(),
        }
    }

    open spec fn spec_call(self) -> SysCall {
        match self {
            MapOp::Linux(op) => op.spec_call(),
            MapOp::Macos(op) => op.spec_call(),
        }
    }

    open spec fn spec_accepts(self, reply: SysReply) -> bool {
        match self {
            MapOp::Linux(op) => op.spec_accepts(reply),
            MapOp::Macos(op) => op.spec_accepts(reply),
        }
    }

    open spec fn spec_resume(self, reply: SysReply) -> Step<MapOp, MemoryMapping> {
        match self {
            MapOp::Linux(op) => from_linux(op.spec_resume(reply)),
            MapOp::Macos(op) => from_macos(op.spec_resume(reply)),
        }
    }

    proof fn lemma_rank_falls(self, reply: SysReply) {
        match self {
            MapOp::Linux(op) => op.lemma_rank_falls(reply),
            MapOp::Macos(op) => op.lemma_rank_falls(reply),
        }
    }

    fn call(&self) -> (call: SysCall) {
        match self {
            MapOp::Linux(op) => op.call(),
            MapOp::Macos(op) => op.call(),
        }
    }

    fn accepts(&self, reply: &SysReply) -> (yes: bool) {
        match self {
            MapOp::Linux(op) => op.accepts(reply),
            MapOp::Macos(op) => op.accepts(reply),
        }
    }

    fn resume(self, reply: SysReply) -> (step: Step<MapOp, MemoryMapping>) {
        match self {
            MapOp::Linux(op) => match op.resume(reply) {
                Step::Await(op) => Step::Await(MapOp::Linux(op)),
                Step::Done(result) => Step::Done(result),
            },
            MapOp::Macos(op) => match op.resume(reply) {
                Step::Await(op) => Step::Await(MapOp::Macos(op)),
                Step::Done(result) => Step::Done(result),
            },
        }
    }
}

/// A range of memory that was mapped. Whoever holds it has to unmap it in the end.
#[derive(Debug, PartialEq, Eq, Structural)]
pub struct MemoryMapping {
    pub(crate) addr: usize,
    pub(crate) size: usize,
}

impl MemoryMapping {
    /// Where the mapping begins.
    pub closed spec fn spec_addr(self) -> usize {
        self.addr
    }

    /// How many bytes the mapping has.
    pub closed spec fn spec_size(self) -> usize {
        self.size
    }

    /// A mapping lies within the address space.
    pub open spec fn wf(self) -> bool {
        self.spec_addr() + self.spec_size() <= usize::MAX
    }

    /// The mapping of `size` bytes at `addr`.
    pub closed spec fn spec_at(addr: usize, size: usize) -> MemoryMapping {
        MemoryMapping { addr, size }
    }

    /// The mapping at an address is the one that begins there and has the size asked for.
    pub broadcast proof fn lemma_spec_at(addr: usize, size: usize)
        ensures
            (#[trigger] MemoryMapping::spec_at(addr, size)).spec_addr() == addr,
            MemoryMapping::spec_at(addr, size).spec_size() == size,
    {
    }

    /// The mapping of `size` bytes at `addr`.
    pub(crate) fn at(addr: usize, size: usize) -> (mapping: MemoryMapping)
        ensures
            mapping == MemoryMapping::spec_at(addr, size),
            mapping.spec_addr() == addr,
            mapping.spec_size() == size,
    {
        MemoryMapping { addr, size }
    }

    /// Begins to map `size` bytes of anonymous memory that can be read and written.
    pub fn new(host: Host, size: usize) -> (step: Step<MapOp, MemoryMapping>)
        requires
            host.wf(),
        ensures
            step == MapOp::spec_start(
                spec_anonymous(None, size, None, (Protection { read: true, write: true })),
                host,
            ),
            step matches Step::Await(op) ==> op.wf(),
    {
        MemoryMapping::new_protection(host, size, None, Protection::read_write())
    }

    /// Begins to map the first `size` bytes of the file `fd`, to be read and written.
    pub fn from_fd(host: Host, fd: RawDescriptor, size: usize) -> (step: Step<MapOp, MemoryMapping>)
        requires
            host.wf(),
        ensures
            step == MapOp::spec_start(
                spec_of_file(
                    None,
                    size,
                    Some(0),
                    (Protection { read: true, write: true }),
                    fd,
                    0,
                    false,
                ),
                host,
            ),
            step matches Step::Await(op) ==> op.wf(),
    {
        MemoryMapping::from_fd_offset(host, fd, size, 0)
    }

    /// Begins to map `size` bytes of the file `fd` from `offset` on, to be read and written.
    pub fn from_fd_offset(host: Host, fd: RawDescriptor, size: usize, offset: u64) -> (step: Step<
        MapOp,
        MemoryMapping,
    >)
        requires
            host.wf(),
        ensures
            step == MapOp::spec_start(
                spec_of_file(
                    None,
                    size,
                    Some(0),
                    (Protection { read: true, write: true }),
                    fd,
                    offset,
                    false,
                ),
                host,
            ),
            step matches Step::Await(op) ==> op.wf(),
    {
        MemoryMapping::from_fd_offset_protection(host, fd, size, offset, Protection::read_write())
    }

    /// Begins to map `size` bytes of the file `fd` from `offset` on, with `prot` protection.
    pub fn from_fd_offset_protection(
        host: Host,
        fd: RawDescriptor,
        size: usize,
        offset: u64,
        prot: Protection,
    ) -> (step: Step<MapOp, MemoryMapping>)
        requires
            host.wf(),
        ensures
            step == MapOp::spec_start(
                spec_of_file(None, size, Some(0), prot, fd, offset, false),
                host,
            ),
            step matches Step::Await(op) ==> op.wf(),
    {
        MemoryMapping::from_fd_offset_protection_populate(host, fd, size, offset, 0, prot, false)
    }

    /// Begins to map `size` bytes of anonymous memory with `prot` protection, at a multiple of
    /// `align` if that is given.
    pub fn new_protection(host: Host, size: usize, align: Option<u64>, prot: Protection) -> (step:
        Step<MapOp, MemoryMapping>)
        requires
            host.wf(),
            spec_anonymous(None, size, align, prot).fits_on(host),
        ensures
            step == MapOp::spec_start(spec_anonymous(None, size, align, prot), host),
            step matches Step::Await(op) ==> op.wf(),
    {
        MemoryMapping::try_mmap(host, None, size, align, c_int::from(prot), None)
    }

    /// Begins to map `size` bytes of the file `fd` from `offset` on, with `prot` protection, at a
    /// multiple of `align` unless that is zero. Linux can fault the pages in at once.
    pub fn from_fd_offset_protection_populate(
        host: Host,
        fd: RawDescriptor,
        size: usize,
        offset: u64,
        align: u64,
        prot: Protection,
        populate: bool,
    ) -> (step: Step<MapOp, MemoryMapping>)
        requires
            host.wf(),
            spec_of_file(None, size, Some(align), prot, fd, offset, populate).fits_on(host),
        ensures
            step == MapOp::spec_start(
                spec_of_file(None, size, Some(align), prot, fd, offset, populate),
                host,
            ),
            step matches Step::Await(op) ==> op.wf(),
    {
        MapOp::start(
            MapRequest {
                addr: None,
                size,
                align: Some(align),
                prot: c_int::from(prot),
                fd: Some((fd, offset)),
                populate,
            },
            host,
        )
    }

    /// Begins to map `size` bytes of anonymous memory at the fixed address `addr`, over whatever was
    /// mapped there.
    pub fn new_protection_fixed(host: Host, addr: usize, size: usize, prot: Protection) -> (step:
        Step<MapOp, MemoryMapping>)
        requires
            host.wf(),
        ensures
            step == MapOp::spec_start(spec_anonymous(Some(addr), size, None, prot), host),
            step matches Step::Await(op) ==> op.wf(),
    {
        MemoryMapping::try_mmap(host, Some(addr), size, None, c_int::from(prot), None)
    }

    /// Begins to map `size` bytes of the file `fd` from `offset` on at the fixed address `addr`,
    /// over whatever was mapped there.
    pub fn from_descriptor_offset_protection_fixed(
        host: Host,
        addr: usize,
        fd: RawDescriptor,
        size: usize,
        offset: u64,
        prot: Protection,
    ) -> (step: Step<MapOp, MemoryMapping>)
        requires
            host.wf(),
        ensures
            step == MapOp::spec_start(
                spec_of_file(Some(addr), size, None, prot, fd, offset, false),
                host,
            ),
            step matches Step::Await(op) ==> op.wf(),
    {
        MemoryMapping::try_mmap(host, Some(addr), size, None, c_int::from(prot), Some((fd, offset)))
    }

    /// Begins to make a mapping whose pages are not faulted in.
    fn try_mmap(
        host: Host,
        addr: Option<usize>,
        size: usize,
        align: Option<u64>,
        prot: c_int,
        fd: Option<(RawDescriptor, u64)>,
    ) -> (step: Step<MapOp, MemoryMapping>)
        requires
            host.wf(),
            (MapRequest { addr, size, align, prot, fd, populate: false }).fits_on(host),
        ensures
            step == MapOp::spec_start(
                (MapRequest { addr, size, align, prot, fd, populate: false }),
                host,
            ),
            step matches Step::Await(op) ==> op.wf(),
    {
        MapOp::start(MapRequest { addr, size, align, prot, fd, populate: false }, host)
    }

    /// Returns the call that gives the memory back.
    pub fn unmap(self) -> (call: SysCall)
        ensures
            call == (SysCall::Munmap { addr: self.spec_addr(), len: self.spec_size() }),
    {
        SysCall::Munmap { addr: self.addr, len: self.size }
    }

    /// Begins to write the whole mapping back to its file.
    pub fn msync(&self) -> (step: Step<Single, ()>)
        ensures
            step == Step::<Single, ()>::Await(
                (Single {
                    call: SysCall::Msync { addr: self.spec_addr(), len: self.spec_size() },
                }),
            ),
    {
        Step::Await(Single { call: SysCall::Msync { addr: self.as_ptr(), len: self.size() } })
    }

    /// Returns the size of the mapping in bytes.
    pub fn size(&self) -> (size: usize)
        ensures
            size == self.spec_size(),
    {
        self.size
    }

    /// Returns the address at which the mapping begins.
    pub fn as_ptr(&self) -> (addr: usize)
        ensures
            addr == self.spec_addr(),
    {
        self.addr
    }

    /// Checks that `offset + count` is within the mapping bounds and returns the sum.
    pub fn range_end(&self, offset: usize, count: usize) -> (result: Result<usize, MmapError>)
        ensures
            result == (if includes_range(self.spec_size(), offset, count) {
                Ok::<usize, MmapError>((offset + count) as usize)
            } else {
                Err(MmapError::InvalidAddress)
            }),
    {
        match offset.checked_add(count) {
            Some(mem_end) => if mem_end > self.size {
                Err(MmapError::InvalidAddress)
            } else {
                Ok(mem_end)
            },
            None => Err(MmapError::InvalidAddress),
        }
    }
}

/// Memory that is mapped at some place.
pub trait MappedRegion {
    /// Where the memory begins.
    spec fn spec_base(&self) -> usize;

    /// How many bytes it has.
    spec fn spec_len(&self) -> usize;

    /// Returns the address at which the memory begins.
    fn as_ptr(&self) -> (addr: usize)
        ensures
            addr == self.spec_base(),
    ;

    /// Returns the size of the memory in bytes.
    fn size(&self) -> (size: usize)
        ensures
            size == self.spec_len(),
    ;

    /// Begins to write `size` bytes from `offset` on back to the file behind them.
    fn msync(&self, offset: usize, size: usize) -> (step: Step<Single, ()>)
        requires
            self.spec_base() + self.spec_len() <= usize::MAX,
        ensures
            step == (if includes_range(self.spec_len(), offset, size) {
                Step::<Single, ()>::Await(
                    (Single {
                        call: SysCall::Msync {
                            addr: (self.spec_base() + offset) as usize,
                            len: size,
                        },
                    }),
                )
            } else {
                Step::Done(Err(MmapError::InvalidAddress))
            }),
    {
        match validate_includes_range(self.size(), offset, size) {
            Ok(()) => Step::Await(
                Single { call: SysCall::Msync { addr: self.as_ptr() + offset, len: size } },
            ),
            Err(error) => Step::Done(Err(error)),
        }
    }

    /// Begins to give the kernel advice on `size` bytes from `offset` on.
    fn madvise(&self, offset: usize, size: usize, advice: c_int) -> (step: Step<Single, ()>)
        requires
            self.spec_base() + self.spec_len() <= usize::MAX,
        ensures
            step == (if includes_range(self.spec_len(), offset, size) {
                Step::<Single, ()>::Await(
                    (Single {
                        call: SysCall::Madvise {
                            addr: (self.spec_base() + offset) as usize,
                            len: size,
                            advice: Advice::Other(advice),
                        },
                    }),
                )
            } else {
                Step::Done(Err(MmapError::InvalidAddress))
            }),
    {
        match validate_includes_range(self.size(), offset, size) {
            Ok(()) => Step::Await(
                Single {
                    call: SysCall::Madvise {
                        addr: self.as_ptr() + offset,
                        len: size,
                        advice: Advice::Other(advice),
                    },
                },
            ),
            Err(error) => Step::Done(Err(error)),
        }
    }
}

impl MappedRegion for Region {
    open spec fn spec_base(&self) -> usize {
        self.addr
    }

    open spec fn spec_len(&self) -> usize {
        self.len
    }

    fn as_ptr(&self) -> (addr: usize) {
        self.addr
    }

    fn size(&self) -> (size: usize) {
        self.len
    }
}

impl MappedRegion for MemoryMapping {
    open spec fn spec_base(&self) -> usize {
        self.spec_addr()
    }

    open spec fn spec_len(&self) -> usize {
        self.spec_size()
    }

    fn as_ptr(&self) -> (addr: usize) {
        self.addr
    }

    fn size(&self) -> (size: usize) {
        self.size
    }
}

} // verus!
