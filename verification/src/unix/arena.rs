//! Arenas: fixed ranges of address space within which mappings come and go.

use libc::c_int;
use vstd::prelude::*;

use crate::linux::mmap::LinuxMap;
use crate::operation::{Host, MmapError, Operation, Os, Single, Step};
use crate::protection::Protection;
use crate::syscall::{prot_none, MapFlags, RawDescriptor, SysCall, SysReply, NO_DESCRIPTOR};
use crate::unix::mmap::{
    includes_range, spec_anonymous, validate_includes_range, MapRequest, MappedRegion, MemoryMapping,
};

verus! {

/// A range of anonymous memory within which other mappings are placed. Whoever holds it has to
/// unmap it in the end.
#[derive(Debug, PartialEq, Eq, Structural)]
pub struct MemoryMappingArena {
    addr: usize,
    size: usize,
}

/// Setting an arena up.
#[derive(Debug, PartialEq, Eq)]
pub enum ArenaNew {
    /// A mapping is being made that becomes the arena.
    Linux(LinuxMap),
    /// The address space is being set aside.
    Macos { size: usize },
}

/// Changing what is mapped within an arena.
#[derive(Debug, PartialEq, Eq)]
pub enum ArenaChange {
    /// A mapping is being made that the arena takes over.
    Linux(LinuxMap),
    /// A single call makes the change.
    Macos(Single),
}

/// Memory that cannot be touched and that no file is behind, anywhere or over what is there.
pub open spec fn spec_untouchable_flags(fixed: bool) -> MapFlags {
    MapFlags {
        shared: false,
        private: true,
        fixed,
        anonymous: true,
        noreserve: false,
        populate: false,
    }
}

fn untouchable_flags(fixed: bool) -> (flags: MapFlags)
    ensures
        flags == spec_untouchable_flags(fixed),
{
    let mut flags: MapFlags = MapFlags::none();
    flags.anonymous = true;
    flags.private = true;
    if fixed {
        flags.fixed = true;
    }
    flags
}

/// The step of setting up a Linux arena that a step of its mapping is.
pub open spec fn new_from_linux(step: Step<LinuxMap, MemoryMapping>) -> Step<
    ArenaNew,
    MemoryMappingArena,
> {
    match step {
        Step::Await(op) => Step::Await(ArenaNew::Linux(op)),
        Step::Done(Ok(mapping)) => Step::Done(Ok(MemoryMappingArena::spec_of(mapping))),
        Step::Done(Err(error)) => Step::Done(Err(error)),
    }
}

fn new_step(step: Step<LinuxMap, MemoryMapping>) -> (result: Step<ArenaNew, MemoryMappingArena>)
    ensures
        result == new_from_linux(step),
{
    match step {
        Step::Await(op) => Step::Await(ArenaNew::Linux(op)),
        Step::Done(Ok(mapping)) => Step::Done(Ok(MemoryMappingArena::from(mapping))),
        Step::Done(Err(error)) => Step::Done(Err(error)),
    }
}

/// The step of changing a Linux arena that a step of the mapping within it is: the arena keeps the
/// memory, so the mapping itself is dropped.
pub open spec fn change_from_linux(step: Step<LinuxMap, MemoryMapping>) -> Step<ArenaChange, ()> {
    match step {
        Step::Await(op) => Step::Await(ArenaChange::Linux(op)),
        Step::Done(Ok(_)) => Step::Done(Ok(())),
        Step::Done(Err(error)) => Step::Done(Err(error)),
    }
}

fn change_step(step: Step<LinuxMap, MemoryMapping>) -> (result: Step<ArenaChange, ()>)
    ensures
        result == change_from_linux(step),
{
    match step {
        Step::Await(op) => Step::Await(ArenaChange::Linux(op)),
        Step::Done(Ok(_)) => Step::Done(Ok(())),
        Step::Done(Err(error)) => Step::Done(Err(error)),
    }
}

impl Operation for ArenaNew {
    type Output = MemoryMappingArena;

    open spec fn sound(output: MemoryMappingArena) -> bool {
        output.wf()
    }

    open spec fn wf(self) -> bool {
        match self {
            ArenaNew::Linux(op) => op.wf(),
            ArenaNew::Macos { size } => true,
        }
    }

    open spec fn rank(self) -> nat {
        match self {
            ArenaNew::Linux(op) => op.rank(),
            ArenaNew::Macos { size } => 1,
        }
    }

    open spec fn spec_call(self) -> SysCall {
        match self {
            ArenaNew::Linux(op) => op.spec_call(),
            ArenaNew::Macos { size } => SysCall::Mmap {
                addr: 0,
                len: size,
                prot: 0,
                flags: spec_untouchable_flags(false),
                fd: NO_DESCRIPTOR,
                offset: 0,
            },
        }
    }

    open spec fn spec_accepts(self, reply: SysReply) -> bool {
        match self {
            ArenaNew::Linux(op) => op.spec_accepts(reply),
            ArenaNew::Macos { size } => match reply {
                Ok(addr) => addr + size <= usize::MAX,
                Err(_) => true,
            },
        }
    }

    open spec fn spec_resume(self, reply: SysReply) -> Step<ArenaNew, MemoryMappingArena> {
        match self {
            ArenaNew::Linux(op) => new_from_linux(op.spec_resume(reply)),
            ArenaNew::Macos { size } => match reply {
                Ok(addr) => Step::Done(Ok(MemoryMappingArena::spec_at(addr, size))),
                Err(errno) => Step::Done(Err(MmapError::SystemCallFailed(errno))),
            },
        }
    }

    proof fn lemma_rank_falls(self, reply: SysReply) {
        if let ArenaNew::Linux(op) = self {
            op.lemma_rank_falls(reply);
        }
    }

    fn call(&self) -> (call: SysCall) {
        match self {
            ArenaNew::Linux(op) => op.call(),
            ArenaNew::Macos { size } => SysCall::Mmap {
                addr: 0,
                len: *size,
                prot: prot_none(),
                flags: untouchable_flags(false),
                fd: NO_DESCRIPTOR,
                offset: 0,
            },
        }
    }

    fn accepts(&self, reply: &SysReply) -> (yes: bool) {
        match self {
            ArenaNew::Linux(op) => op.accepts(reply),
            ArenaNew::Macos { size } => match *reply {
                Ok(addr) => addr.checked_add(*size).is_some(),
                Err(_) => true,
            },
        }
    }

    fn resume(self, reply: SysReply) -> (step: Step<ArenaNew, MemoryMappingArena>) {
        match self {
            ArenaNew::Linux(op) => new_step(op.resume(reply)),
            ArenaNew::Macos { size } => match reply {
                Ok(addr) => Step::Done(Ok(MemoryMappingArena { addr, size })),
                Err(errno) => Step::Done(Err(MmapError::SystemCallFailed(errno))),
            },
        }
    }
}

impl Operation for ArenaChange {
    type Output = ();

    open spec fn sound(output: ()) -> bool {
        true
    }

    open spec fn wf(self) -> bool {
        match self {
            ArenaChange::Linux(op) => op.wf(),
            ArenaChange::Macos(op) => op.wf(),
        }
    }

    open spec fn rank(self) -> nat {
        match self {
            ArenaChange::Linux(op) => op.rank(),
            ArenaChange::Macos(op) => op.rank(),
        }
    }

    open spec fn spec_call(self) -> SysCall {
        match self {
            ArenaChange::Linux(op) => op.spec_call(),
            ArenaChange::Macos(op) => op.spec_call(),
        }
    }

    open spec fn spec_accepts(self, reply: SysReply) -> bool {
        match self {
            ArenaChange::Linux(op) => op.spec_accepts(reply),
            ArenaChange::Macos(op) => op.spec_accepts(reply),
        }
    }

    open spec fn spec_resume(self, reply: SysReply) -> Step<ArenaChange, ()> {
        match self {
            ArenaChange::Linux(op) => change_from_linux(op.spec_resume(reply)),
            ArenaChange::Macos(op) => match reply {
                Ok(_) => Step::Done(Ok(())),
                Err(errno) => Step::Done(Err(MmapError::SystemCallFailed(errno))),
            },
        }
    }

    proof fn lemma_rank_falls(self, reply: SysReply) {
        if let ArenaChange::Linux(op) = self {
            op.lemma_rank_falls(reply);
        }
    }

    fn call(&self) -> (call: SysCall) {
        match self {
            ArenaChange::Linux(op) => op.call(),
            ArenaChange::Macos(op) => op.call(),
        }
    }

    fn accepts(&self, reply: &SysReply) -> (yes: bool) {
        match self {
            ArenaChange::Linux(op) => op.accepts(reply),
            ArenaChange::Macos(op) => op.accepts(reply),
        }
    }

    fn resume(self, reply: SysReply) -> (step: Step<ArenaChange, ()>) {
        match self {
            ArenaChange::Linux(op) => change_step(op.resume(reply)),
            ArenaChange::Macos(_) => match reply {
                Ok(_) => Step::Done(Ok(())),
                Err(errno) => Step::Done(Err(MmapError::SystemCallFailed(errno))),
            },
        }
    }
}

impl MemoryMappingArena {
    /// Where the arena begins.
    pub closed spec fn spec_addr(self) -> usize {
        self.addr
    }

    /// How many bytes the arena has.
    pub closed spec fn spec_size(self) -> usize {
        self.size
    }

    /// The arena of `size` bytes at `addr`.
    pub closed spec fn spec_at(addr: usize, size: usize) -> MemoryMappingArena {
        MemoryMappingArena { addr, size }
    }

    /// The arena that takes a mapping over.
    pub open spec fn spec_of(mapping: MemoryMapping) -> MemoryMappingArena {
        MemoryMappingArena::spec_at(mapping.spec_addr(), mapping.spec_size())
    }

    /// The arena at an address is the one that begins there and has the size asked for.
    pub broadcast proof fn lemma_spec_at(addr: usize, size: usize)
        ensures
            (#[trigger] MemoryMappingArena::spec_at(addr, size)).spec_addr() == addr,
            MemoryMappingArena::spec_at(addr, size).spec_size() == size,
    {
    }

    /// An arena lies within the address space.
    pub open spec fn wf(self) -> bool {
        self.spec_addr() + self.spec_size() <= usize::MAX
    }

    /// Returns the address at which the arena begins.
    pub fn as_ptr(&self) -> (addr: usize)
        ensures
            addr == self.spec_addr(),
    {
        self.addr
    }

    /// Returns the size of the arena in bytes.
    pub fn size(&self) -> (size: usize)
        ensures
            size == self.spec_size(),
    {
        self.size
    }

    /// Returns the call that gives the whole arena back.
    pub fn unmap(self) -> (call: SysCall)
        ensures
            call == (SysCall::Munmap { addr: self.spec_addr(), len: self.spec_size() }),
    {
        SysCall::Munmap { addr: self.addr, len: self.size }
    }

    /// The step that begins to set up an arena: on Linux a mapping that can only be read, on macOS
    /// one that cannot be touched.
    pub open spec fn spec_new(host: Host, size: usize) -> Step<ArenaNew, MemoryMappingArena> {
        match host.os {
            Os::Linux => new_from_linux(
                LinuxMap::spec_start(
                    spec_anonymous(None, size, None, Protection { read: true, write: false }),
                    host.pagesize,
                ),
            ),
            Os::Macos => Step::Await(ArenaNew::Macos { size }),
        }
    }

    /// Begins to set up an arena of `size` bytes.
    pub fn new(host: Host, size: usize) -> (step: Step<ArenaNew, MemoryMappingArena>)
        requires
            host.wf(),
        ensures
            step == MemoryMappingArena::spec_new(host, size),
            step matches Step::Await(op) ==> op.wf(),
    {
        match host.os {
            Os::Linux => {
                let request = MapRequest {
                    addr: None,
                    size,
                    align: None,
                    prot: c_int::from(Protection::read()),
                    fd: None,
                    populate: false,
                };
                new_step(LinuxMap::try_mmap_populate(request, host.pagesize))
            },
            Os::Macos => Step::Await(ArenaNew::Macos { size }),
        }
    }

    /// What a Linux arena maps at `offset`: anonymous memory, or the contents of a file.
    pub open spec fn spec_request(
        self,
        offset: usize,
        size: usize,
        prot: Protection,
        fd: Option<(RawDescriptor, u64)>,
    ) -> MapRequest {
        MapRequest {
            addr: Some((self.spec_addr() + offset) as usize),
            size,
            align: None,
            prot: prot.spec_bits(),
            fd,
            populate: false,
        }
    }

    /// The step that begins to map memory within a Linux arena.
    pub open spec fn spec_try_add(
        self,
        pagesize: usize,
        offset: usize,
        size: usize,
        prot: Protection,
        fd: Option<(RawDescriptor, u64)>,
    ) -> Step<ArenaChange, ()> {
        if offset % pagesize != 0 {
            Step::Done(Err(MmapError::NotPageAligned))
        } else if !includes_range(self.spec_size(), offset, size) {
            Step::Done(Err(MmapError::InvalidAddress))
        } else {
            change_from_linux(
                LinuxMap::spec_start(self.spec_request(offset, size, prot, fd), pagesize),
            )
        }
    }

    /// Begins to map `size` bytes at `offset` on Linux, over what the arena has there.
    fn try_add(
        &mut self,
        pagesize: usize,
        offset: usize,
        size: usize,
        prot: Protection,
        fd: Option<(RawDescriptor, u64)>,
    ) -> (step: Step<ArenaChange, ()>)
        requires
            old(self).wf(),
            pagesize > 0,
        ensures
            *final(self) == *old(self),
            step == old(self).spec_try_add(pagesize, offset, size, prot, fd),
            step matches Step::Await(op) ==> op.wf(),
    {
        if offset % pagesize != 0 {
            return Step::Done(Err(MmapError::NotPageAligned));
        }
        match validate_includes_range(self.size, offset, size) {
            Ok(()) => {
                let request = MapRequest {
                    addr: Some(self.addr + offset),
                    size,
                    align: None,
                    prot: c_int::from(prot),
                    fd,
                    populate: false,
                };
                change_step(LinuxMap::try_mmap_populate(request, pagesize))
            },
            Err(error) => Step::Done(Err(error)),
        }
    }

    /// Begins to map `size` bytes of anonymous memory at `offset` with `prot` protection, on Linux.
    pub fn add_anon_protection(
        &mut self,
        pagesize: usize,
        offset: usize,
        size: usize,
        prot: Protection,
    ) -> (step: Step<ArenaChange, ()>)
        requires
            old(self).wf(),
            pagesize > 0,
        ensures
            *final(self) == *old(self),
            step == old(self).spec_try_add(pagesize, offset, size, prot, None),
            step matches Step::Await(op) ==> op.wf(),
    {
        self.try_add(pagesize, offset, size, prot, None)
    }

    /// Begins to map `size` bytes of anonymous memory at `offset`, to be read and written, on Linux.
    pub fn add_anon(&mut self, pagesize: usize, offset: usize, size: usize) -> (step: Step<
        ArenaChange,
        (),
    >)
        requires
            old(self).wf(),
            pagesize > 0,
        ensures
            *final(self) == *old(self),
            step == old(self).spec_try_add(
                pagesize,
                offset,
                size,
                (Protection { read: true, write: true }),
                None,
            ),
            step matches Step::Await(op) ==> op.wf(),
    {
        self.add_anon_protection(pagesize, offset, size, Protection::read_write())
    }

    /// The step that begins to map a file within an arena. A range that does not lie within the arena
    /// is refused.
    pub open spec fn spec_add_fd(
        self,
        host: Host,
        offset: usize,
        size: usize,
        fd: RawDescriptor,
        fd_offset: u64,
        prot: Protection,
    ) -> Step<ArenaChange, ()> {
        match host.os {
            Os::Linux => self.spec_try_add(
                host.pagesize,
                offset,
                size,
                prot,
                Some((fd, fd_offset)),
            ),
            Os::Macos => if !includes_range(self.spec_size(), offset, size) {
                Step::Done(Err(MmapError::InvalidAddress))
            } else {
                Step::Await(
                    ArenaChange::Macos(
                        Single {
                            call: SysCall::Mmap {
                                addr: (self.spec_addr() + offset) as usize,
                                len: size,
                                prot: prot.spec_bits(),
                                flags: MapFlags {
                                    shared: true,
                                    private: false,
                                    fixed: true,
                                    anonymous: false,
                                    noreserve: false,
                                    populate: false,
                                },
                                fd,
                                offset: fd_offset as i64,
                            },
                        },
                    ),
                )
            },
        }
    }

    /// Begins to map `size` bytes from the start of the file `fd` at `offset`, to be read and
    /// written.
    pub fn add_fd(&mut self, host: Host, offset: usize, size: usize, fd: RawDescriptor) -> (step:
        Step<ArenaChange, ()>)
        requires
            old(self).wf(),
            host.wf(),
        ensures
            *final(self) == *old(self),
            step == old(self).spec_add_fd(
                host,
                offset,
                size,
                fd,
                0,
                (Protection { read: true, write: true }),
            ),
            step matches Step::Await(op) ==> op.wf(),
    {
        self.add_fd_offset(host, offset, size, fd, 0)
    }

    /// Begins to map `size` bytes of the file `fd` from `fd_offset` on at `offset`, to be read and
    /// written.
    pub fn add_fd_offset(
        &mut self,
        host: Host,
        offset: usize,
        size: usize,
        fd: RawDescriptor,
        fd_offset: u64,
    ) -> (step: Step<ArenaChange, ()>)
        requires
            old(self).wf(),
            host.wf(),
        ensures
            *final(self) == *old(self),
            step == old(self).spec_add_fd(
                host,
                offset,
                size,
                fd,
                fd_offset,
                (Protection { read: true, write: true }),
            ),
            step matches Step::Await(op) ==> op.wf(),
    {
        self.add_fd_offset_protection(host, offset, size, fd, fd_offset, Protection::read_write())
    }

    /// Begins to map `size` bytes of the file `fd` from `fd_offset` on at `offset`, with `prot`
    /// protection.
    pub fn add_fd_offset_protection(
        &mut self,
        host: Host,
        offset: usize,
        size: usize,
        fd: RawDescriptor,
        fd_offset: u64,
        prot: Protection,
    ) -> (step: Step<ArenaChange, ()>)
        requires
            old(self).wf(),
            host.wf(),
        ensures
            *final(self) == *old(self),
            step == old(self).spec_add_fd(host, offset, size, fd, fd_offset, prot),
            step matches Step::Await(op) ==> op.wf(),
    {
        match host.os {
            Os::Linux => self.try_add(host.pagesize, offset, size, prot, Some((fd, fd_offset))),
            Os::Macos => {
                let mut flags: MapFlags = MapFlags::none();
                flags.shared = true;
                flags.fixed = true;
                let offset_in_file: i64 = #[verifier::truncate]
                (fd_offset as i64);
                match validate_includes_range(self.size, offset, size) {
                    Ok(()) => Step::Await(
                        ArenaChange::Macos(
                            Single {
                                call: SysCall::Mmap {
                                    addr: self.addr + offset,
                                    len: size,
                                    prot: c_int::from(prot),
                                    flags,
                                    fd,
                                    offset: offset_in_file,
                                },
                            },
                        ),
                    ),
                    Err(error) => Step::Done(Err(error)),
                }
            },
        }
    }

    /// The step that begins to take memory out of an arena: what the arena has there is replaced
    /// with what an arena is made of, memory that can only be read on Linux, and memory that cannot
    /// be touched on macOS. A range that does not lie within the arena is refused.
    pub open spec fn spec_remove(self, host: Host, offset: usize, size: usize) -> Step<
        ArenaChange,
        (),
    > {
        match host.os {
            Os::Linux => self.spec_try_add(
                host.pagesize,
                offset,
                size,
                Protection { read: true, write: false },
                None,
            ),
            Os::Macos => if !includes_range(self.spec_size(), offset, size) {
                Step::Done(Err(MmapError::InvalidAddress))
            } else {
                Step::Await(
                    ArenaChange::Macos(
                        Single {
                            call: SysCall::Mmap {
                                addr: (self.spec_addr() + offset) as usize,
                                len: size,
                                prot: 0,
                                flags: spec_untouchable_flags(true),
                                fd: NO_DESCRIPTOR,
                                offset: 0,
                            },
                        },
                    ),
                )
            },
        }
    }

    /// Begins to remove `size` bytes at `offset`.
    pub fn remove(&mut self, host: Host, offset: usize, size: usize) -> (step: Step<
        ArenaChange,
        (),
    >)
        requires
            old(self).wf(),
            host.wf(),
        ensures
            *final(self) == *old(self),
            step == old(self).spec_remove(host, offset, size),
            step matches Step::Await(op) ==> op.wf(),
    {
        match host.os {
            Os::Linux => self.try_add(host.pagesize, offset, size, Protection::read(), None),
            Os::Macos => match validate_includes_range(self.size, offset, size) {
                Ok(()) => Step::Await(
                    ArenaChange::Macos(
                        Single {
                            call: SysCall::Mmap {
                                addr: self.addr + offset,
                                len: size,
                                prot: prot_none(),
                                flags: untouchable_flags(true),
                                fd: NO_DESCRIPTOR,
                                offset: 0,
                            },
                        },
                    ),
                ),
                Err(error) => Step::Done(Err(error)),
            },
        }
    }

    /// Begins to map a file within the arena, as [`MemoryMappingArena::add_fd_offset_protection`]
    /// does.
    pub fn add_fd_mapping(
        &mut self,
        host: Host,
        offset: usize,
        size: usize,
        fd: RawDescriptor,
        fd_offset: u64,
        prot: Protection,
    ) -> (step: Step<ArenaChange, ()>)
        requires
            old(self).wf(),
            host.wf(),
        ensures
            *final(self) == *old(self),
            step == old(self).spec_add_fd(host, offset, size, fd, fd_offset, prot),
            step matches Step::Await(op) ==> op.wf(),
    {
        self.add_fd_offset_protection(host, offset, size, fd, fd_offset, prot)
    }

    /// Begins to take memory out of the arena, as [`MemoryMappingArena::remove`] does.
    pub fn remove_mapping(&mut self, host: Host, offset: usize, size: usize) -> (step: Step<
        ArenaChange,
        (),
    >)
        requires
            old(self).wf(),
            host.wf(),
        ensures
            *final(self) == *old(self),
            step == old(self).spec_remove(host, offset, size),
            step matches Step::Await(op) ==> op.wf(),
    {
        self.remove(host, offset, size)
    }
}

impl MappedRegion for MemoryMappingArena {
    open spec fn spec_base(&self) -> usize {
        self.spec_addr()
    }

    open spec fn spec_len(&self) -> usize {
        self.spec_size()
    }

    fn as_ptr(&self) -> (addr: usize) {
        self.addr
    }

    fn size(&self) -> (size: usize) {
        self.size
    }
}

impl From<MemoryMapping> for MemoryMappingArena {
    /// The arena takes over the memory of the mapping.
    fn from(mmap: MemoryMapping) -> (arena: MemoryMappingArena) {
        let addr: usize = mmap.as_ptr();
        let size: usize = mmap.size();
        MemoryMappingArena { addr, size }
    }
}

impl vstd::std_specs::convert::FromSpecImpl<MemoryMapping> for MemoryMappingArena {
    open spec fn obeys_from_spec() -> bool {
        true
    }

    open spec fn from_spec(mmap: MemoryMapping) -> MemoryMappingArena {
        MemoryMappingArena::spec_of(mmap)
    }
}

} // verus!
