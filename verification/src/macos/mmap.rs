//! Mapping memory on macOS.

use vstd::prelude::*;

use crate::align::lemma_mask_bounds;
use crate::operation::{MmapError, Operation, Step};
use crate::syscall::{
    prot_none, Errno, MapFlags, RawDescriptor, SysCall, SysReply, NO_DESCRIPTOR,
};
use crate::unix::mmap::{MapRequest, MemoryMapping, Region};

verus! {

/// Making a mapping: which reply is awaited, and what is known so far.
#[derive(Debug, PartialEq, Eq)]
pub enum MacosMap {
    /// Address space is being set aside, enough to hold an aligned mapping wherever it begins.
    Reserving { request: MapRequest, align: usize },
    /// The mapping is being made at `addr`, within what was set aside from `start` on.
    Aligning { request: MapRequest, align: usize, start: usize, addr: usize },
    /// What was set aside is being given back: the mapping could not be made.
    Abandoning { reserved: Region, errno: Errno },
    /// The reserved addresses before the mapping are being given back.
    TrimmingFront { mapping: MemoryMapping, front: Region, back: Region },
    /// The reserved addresses behind the mapping are being given back.
    TrimmingBack { mapping: MemoryMapping, back: Region },
    /// A mapping is being made that needs no alignment.
    Mapping { request: MapRequest },
}

/// The address within reserved space at which an aligned mapping goes: past `align - 1` more bytes,
/// with the bits of `align - 1` cleared.
pub open spec fn spec_masked_addr(start: usize, align: usize) -> usize {
    (((start + align - 1) as u64) & !((align - 1) as u64)) as usize
}

fn masked_addr(start: usize, align: usize) -> (addr: usize)
    requires
        align > 0,
        start + align <= usize::MAX,
    ensures
        addr == spec_masked_addr(start, align),
        start <= addr < start + align,
{
    let mask: u64 = (align - 1) as u64;
    let sum: u64 = (start + align - 1) as u64;
    proof {
        lemma_mask_bounds(sum, mask);
    }
    (sum & !mask) as usize
}

/// The descriptor of the file to map, or the one that stands for no file.
pub open spec fn spec_descriptor(request: MapRequest) -> RawDescriptor {
    match request.fd {
        Some((fd, _)) => fd,
        None => NO_DESCRIPTOR,
    }
}

/// Where in the file to begin.
pub open spec fn spec_offset(request: MapRequest) -> i64 {
    match request.fd {
        Some((_, offset)) => offset as i64,
        None => 0,
    }
}

/// The file to map and where in it to begin, as `mmap` takes them.
fn descriptor_and_offset(request: &MapRequest) -> (file: (RawDescriptor, i64))
    ensures
        file.0 == spec_descriptor(*request),
        file.1 == spec_offset(*request),
{
    match request.fd {
        Some((fd, offset)) => (
            fd,
            #[verifier::truncate]
            (offset as i64),
        ),
        None => (NO_DESCRIPTOR, 0),
    }
}

/// How a mapping is made: shared, and at a fixed address or wherever there is room.
pub open spec fn spec_shared_flags(request: MapRequest, fixed: bool) -> MapFlags {
    MapFlags {
        shared: true,
        private: false,
        fixed,
        anonymous: request.fd is None,
        noreserve: false,
        populate: false,
    }
}

fn shared_flags(request: &MapRequest, fixed: bool) -> (flags: MapFlags)
    ensures
        flags == spec_shared_flags(*request, fixed),
{
    let mut flags: MapFlags = MapFlags::none();
    flags.shared = true;
    if fixed {
        flags.fixed = true;
    }
    if request.fd.is_none() {
        flags.anonymous = true;
    }
    flags
}

/// The alignment asked for, or zero where it does not matter.
pub open spec fn spec_align(request: MapRequest) -> u64 {
    match request.align {
        Some(align) => align,
        None => 0,
    }
}

/// The size of what has to be set aside fits in a word.
pub open spec fn fits(request: MapRequest) -> bool {
    request.size + spec_align(request) <= usize::MAX
}

/// The address asked for, or zero to leave the place to the kernel.
pub open spec fn spec_addr_or_null(request: MapRequest) -> usize {
    match request.addr {
        Some(addr) => addr,
        None => 0,
    }
}

fn addr_or_null(request: &MapRequest) -> (addr: usize)
    ensures
        addr == spec_addr_or_null(*request),
{
    match request.addr {
        Some(addr) => addr,
        None => 0,
    }
}

impl MacosMap {
    /// Begins to make a mapping.
    pub open spec fn spec_start(request: MapRequest) -> Step<MacosMap, MemoryMapping> {
        if spec_align(request) > 0 {
            Step::Await(MacosMap::Reserving { request, align: spec_align(request) as usize })
        } else {
            Step::Await(MacosMap::Mapping { request })
        }
    }

    /// Begins to make a mapping: `size` bytes of the file `fd`, or of anonymous memory. An alignment
    /// is got by setting address space aside and mapping within it.
    pub fn try_mmap(request: MapRequest) -> (step: Step<MacosMap, MemoryMapping>)
        requires
            fits(request),
        ensures
            step == MacosMap::spec_start(request),
            step matches Step::Await(op) && op.wf(),
    {
        match request.align {
            Some(align) => if align > 0 {
                Step::Await(MacosMap::Reserving { request, align: align as usize })
            } else {
                Step::Await(MacosMap::Mapping { request })
            },
            None => Step::Await(MacosMap::Mapping { request }),
        }
    }

    /// What was set aside before a mapping.
    pub open spec fn spec_front(start: usize, addr: usize) -> Region {
        Region { addr: start, len: (addr - start) as usize }
    }

    /// What was set aside behind a mapping.
    pub open spec fn spec_back(start: usize, align: usize, addr: usize, size: usize) -> Region {
        Region { addr: (addr + size) as usize, len: (align - (addr - start)) as usize }
    }
}

impl Operation for MacosMap {
    type Output = MemoryMapping;

    /// A mapping lies within the address space.
    open spec fn sound(output: MemoryMapping) -> bool {
        output.wf()
    }

    open spec fn wf(self) -> bool {
        match self {
            MacosMap::Reserving { request, align } => {
                &&& align > 0
                &&& request.size + align <= usize::MAX
            },
            MacosMap::Aligning { request, align, start, addr } => {
                &&& align > 0
                &&& request.size + align <= usize::MAX
                &&& start <= addr < start + align
            },
            MacosMap::TrimmingFront { mapping, front, back } => mapping.wf(),
            MacosMap::TrimmingBack { mapping, back } => mapping.wf(),
            _ => true,
        }
    }

    open spec fn rank(self) -> nat {
        match self {
            MacosMap::Reserving { .. } => 4,
            MacosMap::Aligning { .. } => 3,
            MacosMap::Abandoning { .. } => 1,
            MacosMap::TrimmingFront { .. } => 2,
            MacosMap::TrimmingBack { .. } => 1,
            MacosMap::Mapping { .. } => 1,
        }
    }

    open spec fn spec_call(self) -> SysCall {
        match self {
            MacosMap::Reserving { request, align } => SysCall::Mmap {
                addr: spec_addr_or_null(request),
                len: (request.size + align) as usize,
                prot: 0,
                flags: MapFlags {
                    shared: false,
                    private: true,
                    fixed: false,
                    anonymous: true,
                    noreserve: false,
                    populate: false,
                },
                fd: NO_DESCRIPTOR,
                offset: 0,
            },
            MacosMap::Aligning { request, align, start, addr } => SysCall::Mmap {
                addr,
                len: request.size,
                prot: request.prot,
                flags: spec_shared_flags(request, true),
                fd: spec_descriptor(request),
                offset: spec_offset(request),
            },
            MacosMap::Abandoning { reserved, errno } => SysCall::Munmap {
                addr: reserved.addr,
                len: reserved.len,
            },
            MacosMap::TrimmingFront { mapping, front, back } => SysCall::Munmap {
                addr: front.addr,
                len: front.len,
            },
            MacosMap::TrimmingBack { mapping, back } => SysCall::Munmap {
                addr: back.addr,
                len: back.len,
            },
            MacosMap::Mapping { request } => SysCall::Mmap {
                addr: spec_addr_or_null(request),
                len: request.size,
                prot: request.prot,
                flags: spec_shared_flags(request, request.addr is Some),
                fd: spec_descriptor(request),
                offset: spec_offset(request),
            },
        }
    }

    open spec fn spec_accepts(self, reply: SysReply) -> bool {
        match self {
            MacosMap::Reserving { request, align } => match reply {
                Ok(start) => start + align <= usize::MAX,
                Err(_) => true,
            },
            MacosMap::Aligning { request, align, start, addr } => match reply {
                Ok(_) => addr + request.size <= usize::MAX,
                Err(_) => true,
            },
            MacosMap::Mapping { request } => match reply {
                Ok(addr) => addr + request.size <= usize::MAX,
                Err(_) => true,
            },
            _ => true,
        }
    }

    open spec fn spec_resume(self, reply: SysReply) -> Step<MacosMap, MemoryMapping> {
        match self {
            MacosMap::Reserving { request, align } => match reply {
                Ok(start) => Step::Await(
                    MacosMap::Aligning {
                        request,
                        align,
                        start,
                        addr: spec_masked_addr(start, align),
                    },
                ),
                Err(errno) => Step::Done(Err(MmapError::SystemCallFailed(errno))),
            },
            MacosMap::Aligning { request, align, start, addr } => match reply {
                Ok(_) => {
                    let mapping = MemoryMapping::spec_at(addr, request.size);
                    let back = MacosMap::spec_back(start, align, addr, request.size);
                    if addr > start {
                        Step::Await(
                            MacosMap::TrimmingFront {
                                mapping,
                                front: MacosMap::spec_front(start, addr),
                                back,
                            },
                        )
                    } else {
                        Step::Await(MacosMap::TrimmingBack { mapping, back })
                    }
                },
                Err(errno) => Step::Await(
                    MacosMap::Abandoning {
                        reserved: Region { addr: start, len: (request.size + align) as usize },
                        errno,
                    },
                ),
            },
            MacosMap::Abandoning { reserved, errno } => match reply {
                Ok(_) => Step::Done(Err(MmapError::SystemCallFailed(errno))),
                Err(last) => Step::Done(Err(MmapError::SystemCallFailed(last))),
            },
            MacosMap::TrimmingFront { mapping, front, back } => Step::Await(
                MacosMap::TrimmingBack { mapping, back },
            ),
            MacosMap::TrimmingBack { mapping, back } => Step::Done(Ok(mapping)),
            MacosMap::Mapping { request } => match reply {
                Ok(addr) => Step::Done(Ok(MemoryMapping::spec_at(addr, request.size))),
                Err(errno) => Step::Done(Err(MmapError::SystemCallFailed(errno))),
            },
        }
    }

    proof fn lemma_rank_falls(self, reply: SysReply) {
    }

    fn call(&self) -> (call: SysCall) {
        match self {
            MacosMap::Reserving { request, align } => {
                let mut flags: MapFlags = MapFlags::none();
                flags.private = true;
                flags.anonymous = true;
                SysCall::Mmap {
                    addr: addr_or_null(request),
                    len: request.size + *align,
                    prot: prot_none(),
                    flags,
                    fd: NO_DESCRIPTOR,
                    offset: 0,
                }
            },
            MacosMap::Aligning { request, align, start, addr } => {
                let (fd, offset): (RawDescriptor, i64) = descriptor_and_offset(request);
                SysCall::Mmap {
                    addr: *addr,
                    len: request.size,
                    prot: request.prot,
                    flags: shared_flags(request, true),
                    fd,
                    offset,
                }
            },
            MacosMap::Abandoning { reserved, errno } => SysCall::Munmap {
                addr: reserved.addr,
                len: reserved.len,
            },
            MacosMap::TrimmingFront { mapping, front, back } => SysCall::Munmap {
                addr: front.addr,
                len: front.len,
            },
            MacosMap::TrimmingBack { mapping, back } => SysCall::Munmap {
                addr: back.addr,
                len: back.len,
            },
            MacosMap::Mapping { request } => {
                let (fd, offset): (RawDescriptor, i64) = descriptor_and_offset(request);
                SysCall::Mmap {
                    addr: addr_or_null(request),
                    len: request.size,
                    prot: request.prot,
                    flags: shared_flags(request, request.addr.is_some()),
                    fd,
                    offset,
                }
            },
        }
    }

    fn accepts(&self, reply: &SysReply) -> (yes: bool) {
        match self {
            MacosMap::Reserving { request, align } => match *reply {
                Ok(start) => start.checked_add(*align).is_some(),
                Err(_) => true,
            },
            MacosMap::Aligning { request, align, start, addr } => match *reply {
                Ok(_) => addr.checked_add(request.size).is_some(),
                Err(_) => true,
            },
            MacosMap::Mapping { request } => match *reply {
                Ok(addr) => addr.checked_add(request.size).is_some(),
                Err(_) => true,
            },
            _ => true,
        }
    }

    fn resume(self, reply: SysReply) -> (step: Step<MacosMap, MemoryMapping>) {
        match self {
            MacosMap::Reserving { request, align } => match reply {
                Ok(start) => {
                    let addr: usize = masked_addr(start, align);
                    Step::Await(MacosMap::Aligning { request, align, start, addr })
                },
                Err(errno) => Step::Done(Err(MmapError::SystemCallFailed(errno))),
            },
            MacosMap::Aligning { request, align, start, addr } => match reply {
                Ok(_) => {
                    let mapping = MemoryMapping::at(addr, request.size);
                    let prefix_size: usize = addr - start;
                    let back = Region { addr: addr + request.size, len: align - prefix_size };
                    if prefix_size > 0 {
                        let front = Region { addr: start, len: prefix_size };
                        Step::Await(MacosMap::TrimmingFront { mapping, front, back })
                    } else {
                        Step::Await(MacosMap::TrimmingBack { mapping, back })
                    }
                },
                Err(errno) => {
                    let reserved = Region { addr: start, len: request.size + align };
                    Step::Await(MacosMap::Abandoning { reserved, errno })
                },
            },
            MacosMap::Abandoning { reserved, errno } => match reply {
                Ok(_) => Step::Done(Err(MmapError::SystemCallFailed(errno))),
                Err(last) => Step::Done(Err(MmapError::SystemCallFailed(last))),
            },
            MacosMap::TrimmingFront { mapping, front, back } => Step::Await(
                MacosMap::TrimmingBack { mapping, back },
            ),
            MacosMap::TrimmingBack { mapping, back } => Step::Done(Ok(mapping)),
            MacosMap::Mapping { request } => match reply {
                Ok(addr) => Step::Done(Ok(MemoryMapping::at(addr, request.size))),
                Err(errno) => Step::Done(Err(MmapError::SystemCallFailed(errno))),
            },
        }
    }
}

} // verus!
