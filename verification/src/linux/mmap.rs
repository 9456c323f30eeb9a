//! Mapping memory on Linux.

use vstd::prelude::*;

use crate::align::{
    is_power_of_two, is_pow2, lemma_mask_bounds, lemma_mask_rounds_down, round_down, wrapped,
};
use crate::operation::{MmapError, Operation, Single, Step};
use crate::syscall::{
    Advice, MapFlags, RawDescriptor, SysCall, SysReply, F_SEAL_WRITE, NO_DESCRIPTOR,
};
use crate::unix::mmap::{includes_range, MapRequest, MemoryMapping, Region};

verus! {

/// Where a mapping goes: an address, or zero to leave the place to the kernel, and the address
/// space that was set aside around it.
#[derive(Clone, Copy, Debug, PartialEq, Eq, Structural)]
pub struct Place {
    pub addr: usize,
    pub reserved: Option<Region>,
}

/// Making a mapping: which reply is awaited, and what is known so far.
#[derive(Debug, PartialEq, Eq)]
pub enum LinuxMap {
    /// Address space is being set aside, enough to hold an aligned mapping wherever it begins.
    Reserving { request: MapRequest, align: usize },
    /// The seals of the file are being asked for.
    Sealing { request: MapRequest, place: Place },
    /// The mapping itself is being made.
    Mapping { request: MapRequest, place: Place, sealed: bool },
    /// The reserved addresses before the mapping are being given back.
    TrimmingFront { mapping: MemoryMapping, front: Region, back: Region },
    /// The reserved addresses behind the mapping are being given back.
    TrimmingBack { mapping: MemoryMapping, back: Region },
    /// The mapping is being left out of core dumps.
    MarkingDontDump { mapping: MemoryMapping },
    /// The pages of the mapping are being offered for merging.
    MarkingMergeable { mapping: MemoryMapping },
}

/// The file is sealed against writing: the bit [`F_SEAL_WRITE`] of its seals is set. A file that has
/// no seals, or that cannot have any, is not sealed.
pub open spec fn spec_write_sealed(reply: SysReply) -> bool {
    match reply {
        Ok(seals) => (seals / F_SEAL_WRITE) % 2 == 1,
        Err(_) => false,
    }
}

/// Whether a file is sealed against writing, by the reply to the question for its seals.
fn write_sealed(reply: SysReply) -> (sealed: bool)
    ensures
        sealed == spec_write_sealed(reply),
{
    match reply {
        Ok(seals) => {
            assert((seals & 0x8usize != 0) == ((seals / 8usize) % 2usize == 1)) by (bit_vector);
            (seals & F_SEAL_WRITE) != 0
        },
        Err(_) => false,
    }
}

impl MapRequest {
    /// The alignment that takes more than a plain mapping to get, or zero: every mapping begins at
    /// a page.
    pub open spec fn spec_align(self, pagesize: usize) -> u64 {
        match self.align {
            Some(align) => if align == pagesize {
                0
            } else {
                align
            },
            None => 0,
        }
    }

    /// The address asked for is not that of a page.
    pub open spec fn off_page(self, pagesize: usize) -> bool {
        match self.addr {
            Some(addr) => addr % pagesize != 0,
            None => false,
        }
    }

    /// The address asked for, or zero.
    pub open spec fn spec_addr_or_null(self) -> usize {
        match self.addr {
            Some(addr) => addr,
            None => 0,
        }
    }

    /// Address space has to be set aside to get the alignment asked for.
    pub open spec fn reserves(self, pagesize: usize) -> bool {
        &&& !self.off_page(pagesize)
        &&& self.spec_addr_or_null() == 0
        &&& self.spec_align(pagesize) != 0
        &&& is_pow2(self.spec_align(pagesize) as int)
    }

    /// The size of what has to be set aside fits in a word.
    pub open spec fn fits(self, pagesize: usize) -> bool {
        self.reserves(pagesize) ==> self.size + self.spec_align(pagesize) <= usize::MAX
    }

    /// The file offset asked for is one that a file can have.
    pub open spec fn offset_ok(self) -> bool {
        match self.fd {
            Some((_, offset)) => offset <= i64::MAX,
            None => true,
        }
    }

    /// How the mapping is made. A file that is sealed against writing can only be mapped privately,
    /// any other mapping is shared; it goes to a fixed address where one was asked for or set aside.
    pub open spec fn spec_flags(self, reserved: bool, sealed: bool) -> MapFlags {
        MapFlags {
            shared: !sealed,
            private: sealed,
            fixed: self.addr is Some || reserved,
            anonymous: self.fd is None,
            noreserve: self.addr is Some || self.fd is None,
            populate: self.populate,
        }
    }

    fn flags(&self, reserved: bool, sealed: bool) -> (flags: MapFlags)
        ensures
            flags == self.spec_flags(reserved, sealed),
    {
        let mut flags: MapFlags = MapFlags::none();
        flags.shared = true;
        if self.populate {
            flags.populate = true;
        }
        if self.addr.is_some() {
            flags.fixed = true;
            flags.noreserve = true;
        }
        if reserved {
            flags.fixed = true;
        }
        if sealed {
            flags.shared = false;
            flags.private = true;
        }
        if self.fd.is_none() {
            flags.anonymous = true;
            flags.noreserve = true;
        }
        flags
    }
}

/// The multiple of `align` at which an aligned mapping goes, within address space that was set
/// aside from `start` on.
pub open spec fn spec_aligned_addr(start: usize, align: usize) -> usize {
    round_down(wrapped(start + align - 1), align as int) as usize
}

fn aligned_addr(start: usize, align: usize) -> (addr: usize)
    requires
        is_pow2(align as int),
    ensures
        addr == spec_aligned_addr(start, align),
{
    proof {
        lemma_mask_rounds_down(0, align as u64);
    }
    let mask: u64 = align as u64 - 1;
    let sum: usize = start.wrapping_add(mask as usize);
    proof {
        lemma_mask_rounds_down(sum as u64, align as u64);
        lemma_mask_bounds(sum as u64, mask);
        if start + mask > usize::MAX {
            vstd::arithmetic::div_mod::lemma_mod_add_multiples_vanish(
                start + mask - (usize::MAX + 1),
                usize::MAX + 1,
            );
            vstd::arithmetic::div_mod::lemma_small_mod(
                (start + mask - (usize::MAX + 1)) as nat,
                (usize::MAX + 1) as nat,
            );
        } else {
            vstd::arithmetic::div_mod::lemma_small_mod(
                (start + mask) as nat,
                (usize::MAX + 1) as nat,
            );
        }
    }
    (sum as u64 & !mask) as usize
}

impl LinuxMap {
    /// The steps that follow once it is known where the mapping goes.
    pub open spec fn spec_placed(request: MapRequest, place: Place) -> Step<LinuxMap, MemoryMapping> {
        if !request.offset_ok() {
            Step::Done(Err(MmapError::InvalidOffset))
        } else if request.fd is Some {
            Step::Await(LinuxMap::Sealing { request, place })
        } else {
            Step::Await(LinuxMap::Mapping { request, place, sealed: false })
        }
    }

    fn placed(request: MapRequest, place: Place) -> (step: Step<LinuxMap, MemoryMapping>)
        ensures
            step == LinuxMap::spec_placed(request, place),
            step matches Step::Await(op) ==> op.wf(),
    {
        match request.fd {
            Some((_, offset)) => if offset > i64::MAX as u64 {
                Step::Done(Err(MmapError::InvalidOffset))
            } else {
                Step::Await(LinuxMap::Sealing { request, place })
            },
            None => Step::Await(LinuxMap::Mapping { request, place, sealed: false }),
        }
    }

    /// The steps that follow once nothing but the back of what was set aside is left to give back.
    pub open spec fn spec_front_trimmed(mapping: MemoryMapping, back: Region) -> Step<
        LinuxMap,
        MemoryMapping,
    > {
        if back.len > 0 {
            Step::Await(LinuxMap::TrimmingBack { mapping, back })
        } else {
            Step::Await(LinuxMap::MarkingDontDump { mapping })
        }
    }

    fn front_trimmed(mapping: MemoryMapping, back: Region) -> (step: Step<LinuxMap, MemoryMapping>)
        requires
            mapping.wf(),
        ensures
            step == LinuxMap::spec_front_trimmed(mapping, back),
            step matches Step::Await(op) ==> op.wf(),
    {
        if back.len > 0 {
            Step::Await(LinuxMap::TrimmingBack { mapping, back })
        } else {
            Step::Await(LinuxMap::MarkingDontDump { mapping })
        }
    }

    /// What was set aside before a mapping.
    pub open spec fn spec_front(reserved: Region, addr: usize) -> Region {
        Region { addr: reserved.addr, len: (addr - reserved.addr) as usize }
    }

    /// What was set aside behind a mapping.
    pub open spec fn spec_back(reserved: Region, addr: usize, size: usize) -> Region {
        Region { addr: (addr + size) as usize, len: (reserved.end() - (addr + size)) as usize }
    }

    /// The steps that follow once the mapping has been made at `addr`.
    pub open spec fn spec_mapped(
        addr: usize,
        size: usize,
        reserved: Option<Region>,
    ) -> Step<LinuxMap, MemoryMapping> {
        let mapping = MemoryMapping::spec_at(addr, size);
        match reserved {
            Some(reserved) => {
                let front = LinuxMap::spec_front(reserved, addr);
                let back = LinuxMap::spec_back(reserved, addr, size);
                if front.len > 0 {
                    Step::Await(LinuxMap::TrimmingFront { mapping, front, back })
                } else {
                    LinuxMap::spec_front_trimmed(mapping, back)
                }
            },
            None => Step::Await(LinuxMap::MarkingDontDump { mapping }),
        }
    }

    fn mapped(addr: usize, size: usize, reserved: Option<Region>) -> (step: Step<
        LinuxMap,
        MemoryMapping,
    >)
        requires
            addr + size <= usize::MAX,
            reserved matches Some(r) ==> r.addr <= addr && addr + size <= r.end() <= usize::MAX,
        ensures
            step == LinuxMap::spec_mapped(addr, size, reserved),
            step matches Step::Await(op) ==> op.wf(),
    {
        let mapping = MemoryMapping::at(addr, size);
        match reserved {
            Some(reserved) => {
                let front = Region { addr: reserved.addr, len: addr - reserved.addr };
                let back_addr: usize = addr + size;
                let back = Region {
                    addr: back_addr,
                    len: reserved.addr + reserved.len - back_addr,
                };
                if front.len > 0 {
                    Step::Await(LinuxMap::TrimmingFront { mapping, front, back })
                } else {
                    LinuxMap::front_trimmed(mapping, back)
                }
            },
            None => Step::Await(LinuxMap::MarkingDontDump { mapping }),
        }
    }

    /// Begins to make a mapping.
    pub open spec fn spec_start(request: MapRequest, pagesize: usize) -> Step<
        LinuxMap,
        MemoryMapping,
    > {
        let align = request.spec_align(pagesize);
        let addr = request.spec_addr_or_null();
        if request.off_page(pagesize) {
            Step::Done(Err(MmapError::NotPageAligned))
        } else if align == 0 {
            LinuxMap::spec_placed(request, Place { addr, reserved: None })
        } else if addr != 0 || !is_pow2(align as int) {
            Step::Done(Err(MmapError::InvalidAlignment))
        } else {
            Step::Await(LinuxMap::Reserving { request, align: align as usize })
        }
    }

    /// Begins to make a mapping: `size` bytes of the file `fd`, or of anonymous memory, at the fixed
    /// address `addr` or at a multiple of `align`.
    pub fn try_mmap_populate(request: MapRequest, pagesize: usize) -> (step: Step<
        LinuxMap,
        MemoryMapping,
    >)
        requires
            pagesize > 0,
            request.fits(pagesize),
        ensures
            step == LinuxMap::spec_start(request, pagesize),
            step matches Step::Await(op) ==> op.wf(),
    {
        let addr: usize = match request.addr {
            Some(addr) => {
                if addr % pagesize != 0 {
                    return Step::Done(Err(MmapError::NotPageAligned));
                }
                addr
            },
            None => 0,
        };
        let align: u64 = match request.align {
            Some(align) => if align == pagesize as u64 {
                0
            } else {
                align
            },
            None => 0,
        };
        if align == 0 {
            LinuxMap::placed(request, Place { addr, reserved: None })
        } else if addr != 0 || !is_power_of_two(align) {
            Step::Done(Err(MmapError::InvalidAlignment))
        } else {
            Step::Await(LinuxMap::Reserving { request, align: align as usize })
        }
    }
}

impl Operation for LinuxMap {
    type Output = MemoryMapping;

    /// A mapping lies within the address space.
    open spec fn sound(output: MemoryMapping) -> bool {
        output.wf()
    }

    open spec fn wf(self) -> bool {
        match self {
            LinuxMap::Reserving { request, align } => {
                &&& is_pow2(align as int)
                &&& request.size + align <= usize::MAX
            },
            LinuxMap::Sealing { request, place } => request.fd is Some && request.offset_ok(),
            LinuxMap::Mapping { request, place, sealed } => {
                &&& request.offset_ok()
                &&& sealed ==> request.fd is Some
            },
            LinuxMap::TrimmingFront { mapping, front, back } => mapping.wf(),
            LinuxMap::TrimmingBack { mapping, back } => mapping.wf(),
            LinuxMap::MarkingDontDump { mapping } => mapping.wf(),
            LinuxMap::MarkingMergeable { mapping } => mapping.wf(),
        }
    }

    open spec fn rank(self) -> nat {
        match self {
            LinuxMap::Reserving { .. } => 7,
            LinuxMap::Sealing { .. } => 6,
            LinuxMap::Mapping { .. } => 5,
            LinuxMap::TrimmingFront { .. } => 4,
            LinuxMap::TrimmingBack { .. } => 3,
            LinuxMap::MarkingDontDump { .. } => 2,
            LinuxMap::MarkingMergeable { .. } => 1,
        }
    }

    open spec fn spec_call(self) -> SysCall {
        match self {
            LinuxMap::Reserving { request, align } => SysCall::Mmap {
                addr: 0,
                len: (request.size + align) as usize,
                prot: request.prot,
                flags: MapFlags {
                    shared: false,
                    private: true,
                    fixed: false,
                    anonymous: true,
                    noreserve: true,
                    populate: false,
                },
                fd: NO_DESCRIPTOR,
                offset: 0,
            },
            LinuxMap::Sealing { request, place } => SysCall::GetSeals { fd: (request.fd->0).0 },
            LinuxMap::Mapping { request, place, sealed } => SysCall::Mmap {
                addr: place.addr,
                len: request.size,
                prot: request.prot,
                flags: request.spec_flags(place.reserved is Some, sealed),
                fd: match request.fd {
                    Some((fd, _)) => fd,
                    None => NO_DESCRIPTOR,
                },
                offset: match request.fd {
                    Some((_, offset)) => offset as i64,
                    None => 0,
                },
            },
            LinuxMap::TrimmingFront { mapping, front, back } => SysCall::Munmap {
                addr: front.addr,
                len: front.len,
            },
            LinuxMap::TrimmingBack { mapping, back } => SysCall::Munmap {
                addr: back.addr,
                len: back.len,
            },
            LinuxMap::MarkingDontDump { mapping } => SysCall::Madvise {
                addr: mapping.spec_addr(),
                len: mapping.spec_size(),
                advice: Advice::DontDump,
            },
            LinuxMap::MarkingMergeable { mapping } => SysCall::Madvise {
                addr: mapping.spec_addr(),
                len: mapping.spec_size(),
                advice: Advice::Mergeable,
            },
        }
    }

    open spec fn spec_accepts(self, reply: SysReply) -> bool {
        match self {
            LinuxMap::Mapping { request, place, sealed } => match reply {
                Ok(addr) => {
                    &&& addr + request.size <= usize::MAX
                    &&& place.reserved matches Some(reserved) ==> {
                        &&& reserved.addr <= addr
                        &&& addr + request.size <= reserved.end() <= usize::MAX
                    }
                },
                Err(_) => true,
            },
            _ => true,
        }
    }

    open spec fn spec_resume(self, reply: SysReply) -> Step<LinuxMap, MemoryMapping> {
        match self {
            LinuxMap::Reserving { request, align } => match reply {
                Ok(start) => LinuxMap::spec_placed(
                    request,
                    Place {
                        addr: spec_aligned_addr(start, align),
                        reserved: Some(Region { addr: start, len: (request.size + align) as usize }),
                    },
                ),
                Err(errno) => Step::Done(Err(MmapError::SystemCallFailed(errno))),
            },
            LinuxMap::Sealing { request, place } => Step::Await(
                LinuxMap::Mapping { request, place, sealed: spec_write_sealed(reply) },
            ),
            LinuxMap::Mapping { request, place, sealed } => match reply {
                Ok(addr) => LinuxMap::spec_mapped(addr, request.size, place.reserved),
                Err(errno) => Step::Done(Err(MmapError::SystemCallFailed(errno))),
            },
            LinuxMap::TrimmingFront { mapping, front, back } => LinuxMap::spec_front_trimmed(
                mapping,
                back,
            ),
            LinuxMap::TrimmingBack { mapping, back } => Step::Await(
                LinuxMap::MarkingDontDump { mapping },
            ),
            LinuxMap::MarkingDontDump { mapping } => Step::Await(
                LinuxMap::MarkingMergeable { mapping },
            ),
            LinuxMap::MarkingMergeable { mapping } => Step::Done(Ok(mapping)),
        }
    }

    proof fn lemma_rank_falls(self, reply: SysReply) {
    }

    fn call(&self) -> (call: SysCall) {
        match self {
            LinuxMap::Reserving { request, align } => {
                let mut flags: MapFlags = MapFlags::none();
                flags.private = true;
                flags.noreserve = true;
                flags.anonymous = true;
                SysCall::Mmap {
                    addr: 0,
                    len: request.size + *align,
                    prot: request.prot,
                    flags,
                    fd: NO_DESCRIPTOR,
                    offset: 0,
                }
            },
            LinuxMap::Sealing { request, place } => {
                let fd: RawDescriptor = match request.fd {
                    Some((fd, _)) => fd,
                    None => NO_DESCRIPTOR,
                };
                SysCall::GetSeals { fd }
            },
            LinuxMap::Mapping { request, place, sealed } => {
                let (fd, offset): (RawDescriptor, i64) = match request.fd {
                    Some((fd, offset)) => (fd, offset as i64),
                    None => (NO_DESCRIPTOR, 0),
                };
                SysCall::Mmap {
                    addr: place.addr,
                    len: request.size,
                    prot: request.prot,
                    flags: request.flags(place.reserved.is_some(), *sealed),
                    fd,
                    offset,
                }
            },
            LinuxMap::TrimmingFront { mapping, front, back } => SysCall::Munmap {
                addr: front.addr,
                len: front.len,
            },
            LinuxMap::TrimmingBack { mapping, back } => SysCall::Munmap {
                addr: back.addr,
                len: back.len,
            },
            LinuxMap::MarkingDontDump { mapping } => SysCall::Madvise {
                addr: mapping.as_ptr(),
                len: mapping.size(),
                advice: Advice::DontDump,
            },
            LinuxMap::MarkingMergeable { mapping } => SysCall::Madvise {
                addr: mapping.as_ptr(),
                len: mapping.size(),
                advice: Advice::Mergeable,
            },
        }
    }

    fn accepts(&self, reply: &SysReply) -> (yes: bool) {
        match self {
            LinuxMap::Mapping { request, place, sealed } => match *reply {
                Ok(addr) => match addr.checked_add(request.size) {
                    Some(end) => match place.reserved {
                        Some(reserved) => match reserved.addr.checked_add(reserved.len) {
                            Some(reserved_end) => reserved.addr <= addr && end <= reserved_end,
                            None => false,
                        },
                        None => true,
                    },
                    None => false,
                },
                Err(_) => true,
            },
            _ => true,
        }
    }

    fn resume(self, reply: SysReply) -> (step: Step<LinuxMap, MemoryMapping>) {
        match self {
            LinuxMap::Reserving { request, align } => match reply {
                Ok(start) => {
                    let addr: usize = aligned_addr(start, align);
                    let reserved = Region { addr: start, len: request.size + align };
                    LinuxMap::placed(request, Place { addr, reserved: Some(reserved) })
                },
                Err(errno) => Step::Done(Err(MmapError::SystemCallFailed(errno))),
            },
            LinuxMap::Sealing { request, place } => {
                let sealed: bool = write_sealed(reply);
                Step::Await(LinuxMap::Mapping { request, place, sealed })
            },
            LinuxMap::Mapping { request, place, sealed } => match reply {
                Ok(addr) => LinuxMap::mapped(addr, request.size, place.reserved),
                Err(errno) => Step::Done(Err(MmapError::SystemCallFailed(errno))),
            },
            LinuxMap::TrimmingFront { mapping, front, back } => LinuxMap::front_trimmed(
                mapping,
                back,
            ),
            LinuxMap::TrimmingBack { mapping, back } => Step::Await(
                LinuxMap::MarkingDontDump { mapping },
            ),
            LinuxMap::MarkingDontDump { mapping } => Step::Await(
                LinuxMap::MarkingMergeable { mapping },
            ),
            LinuxMap::MarkingMergeable { mapping } => Step::Done(Ok(mapping)),
        }
    }
}

/// A mapping of fewer bytes is left without huge pages.
pub const HUGE_PAGE_MIN: usize = 0x20_0000;

/// The step that begins an operation on `count` bytes of a mapping from `offset` on: the operation
/// awaits `call`, unless the range does not lie within the mapping.
pub open spec fn spec_on_range(
    mapping: MemoryMapping,
    offset: usize,
    count: usize,
    call: SysCall,
) -> Step<Single, ()> {
    if includes_range(mapping.spec_size(), offset, count) {
        Step::Await(Single { call })
    } else {
        Step::Done(Err(MmapError::InvalidRange(offset, count, mapping.spec_size())))
    }
}

impl MemoryMapping {
    /// Begins to keep the mapping from a forked child.
    pub fn use_dontfork(&self) -> (step: Step<Single, ()>)
        ensures
            step == Step::<Single, ()>::Await(
                (Single {
                    call: SysCall::Madvise {
                        addr: self.spec_addr(),
                        len: self.spec_size(),
                        advice: Advice::DontFork,
                    },
                }),
            ),
    {
        Step::Await(
            Single {
                call: SysCall::Madvise {
                    addr: self.as_ptr(),
                    len: self.size(),
                    advice: Advice::DontFork,
                },
            },
        )
    }

    /// Begins to back the mapping with huge pages. A mapping that is smaller than one of them is
    /// left as it is.
    pub fn use_hugepages(&self) -> (step: Step<Single, ()>)
        ensures
            step == (if self.spec_size() < 2 * 1024 * 1024 {
                Step::<Single, ()>::Done(Ok(()))
            } else {
                Step::Await(
                    (Single {
                        call: SysCall::Madvise {
                            addr: self.spec_addr(),
                            len: self.spec_size(),
                            advice: Advice::HugePage,
                        },
                    }),
                )
            }),
    {
        if self.size() < HUGE_PAGE_MIN {
            return Step::Done(Ok(()));
        }
        Step::Await(
            Single {
                call: SysCall::Madvise {
                    addr: self.as_ptr(),
                    len: self.size(),
                    advice: Advice::HugePage,
                },
            },
        )
    }

    /// The address `offset` bytes into the mapping, if `count` bytes from there lie within it.
    fn range_addr(&self, offset: usize, count: usize) -> (result: Result<usize, MmapError>)
        requires
            self.wf(),
        ensures
            result == (if includes_range(self.spec_size(), offset, count) {
                Ok::<usize, MmapError>((self.spec_addr() + offset) as usize)
            } else {
                Err(MmapError::InvalidRange(offset, count, self.spec_size()))
            }),
    {
        match self.range_end(offset, count) {
            Ok(_) => Ok(self.as_ptr() + offset),
            Err(_) => Err(MmapError::InvalidRange(offset, count, self.size())),
        }
    }

    /// Begins to zero a range: its pages and the storage behind them are freed.
    pub fn remove_range(&self, mem_offset: usize, count: usize) -> (step: Step<Single, ()>)
        requires
            self.wf(),
        ensures
            step == spec_on_range(
                *self,
                mem_offset,
                count,
                (SysCall::Madvise {
                    addr: (self.spec_addr() + mem_offset) as usize,
                    len: count,
                    advice: Advice::Remove,
                }),
            ),
    {
        match self.range_addr(mem_offset, count) {
            Ok(addr) => Step::Await(
                Single { call: SysCall::Madvise { addr, len: count, advice: Advice::Remove } },
            ),
            Err(error) => Step::Done(Err(error)),
        }
    }

    /// Begins to have the kernel read a range ahead, without waiting for it.
    pub fn async_prefetch(&self, mem_offset: usize, count: usize) -> (step: Step<Single, ()>)
        requires
            self.wf(),
        ensures
            step == spec_on_range(
                *self,
                mem_offset,
                count,
                (SysCall::Madvise {
                    addr: (self.spec_addr() + mem_offset) as usize,
                    len: count,
                    advice: Advice::WillNeed,
                }),
            ),
    {
        match self.range_addr(mem_offset, count) {
            Ok(addr) => Step::Await(
                Single { call: SysCall::Madvise { addr, len: count, advice: Advice::WillNeed } },
            ),
            Err(error) => Step::Done(Err(error)),
        }
    }

    /// Begins to have the kernel drop the page cache of a range.
    pub fn drop_page_cache(&self, mem_offset: usize, count: usize) -> (step: Step<Single, ()>)
        requires
            self.wf(),
        ensures
            step == spec_on_range(
                *self,
                mem_offset,
                count,
                (SysCall::Madvise {
                    addr: (self.spec_addr() + mem_offset) as usize,
                    len: count,
                    advice: Advice::DontNeed,
                }),
            ),
    {
        match self.range_addr(mem_offset, count) {
            Ok(addr) => Step::Await(
                Single { call: SysCall::Madvise { addr, len: count, advice: Advice::DontNeed } },
            ),
            Err(error) => Step::Done(Err(error)),
        }
    }

    /// Begins to keep the resident pages of a range from being swapped out.
    pub fn lock_on_fault(&self, mem_offset: usize, count: usize) -> (step: Step<Single, ()>)
        requires
            self.wf(),
        ensures
            step == spec_on_range(
                *self,
                mem_offset,
                count,
                (SysCall::LockOnFault {
                    addr: (self.spec_addr() + mem_offset) as usize,
                    len: count,
                }),
            ),
    {
        match self.range_addr(mem_offset, count) {
            Ok(addr) => Step::Await(
                Single { call: SysCall::LockOnFault { addr, len: count } },
            ),
            Err(error) => Step::Done(Err(error)),
        }
    }

    /// Begins to let the pages of a range be swapped out again.
    pub fn unlock(&self, mem_offset: usize, count: usize) -> (step: Step<Single, ()>)
        requires
            self.wf(),
        ensures
            step == spec_on_range(
                *self,
                mem_offset,
                count,
                (SysCall::Unlock {
                    addr: (self.spec_addr() + mem_offset) as usize,
                    len: count,
                }),
            ),
    {
        match self.range_addr(mem_offset, count) {
            Ok(addr) => Step::Await(
                Single { call: SysCall::Unlock { addr, len: count } },
            ),
            Err(error) => Step::Done(Err(error)),
        }
    }
}

} // verus!
