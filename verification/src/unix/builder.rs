//! Describing a mapping piece by piece, and making it.

use vstd::prelude::*;

use crate::operation::{Host, MmapError, Operation, Step};
use crate::protection::Protection;
use crate::syscall::{Errno, RawDescriptor, SysCall, SysReply};
use crate::unix::arena::MemoryMappingArena;
use crate::unix::mmap::{spec_anonymous, spec_of_file, MapOp, MapRequest, MemoryMapping};

verus! {

/// A descriptor that is closed with its owner.
#[derive(Debug, PartialEq, Eq, Structural)]
pub struct SafeDescriptor {
    pub descriptor: RawDescriptor,
}

/// A mapping, together with the file behind it where that is to stay open.
#[derive(Debug, PartialEq, Eq, Structural)]
pub struct CrateMemoryMapping {
    pub mapping: MemoryMapping,
    pub file_descriptor: Option<SafeDescriptor>,
}

/// What is wanted of a mapping.
#[derive(Clone, Copy, Debug, PartialEq, Eq, Structural)]
pub struct MemoryMappingBuilder {
    /// The file to map; anonymous memory where there is none.
    pub descriptor: Option<RawDescriptor>,
    /// How many bytes to map.
    pub size: usize,
    /// Where in the file to begin.
    pub offset: Option<u64>,
    /// What the address has to be a multiple of.
    pub align: Option<u64>,
    /// Which accesses to allow.
    pub protection: Option<Protection>,
}

/// Choosing the file behind a mapping.
pub trait MemoryMappingBuilderUnix: Sized {
    /// The file chosen so far.
    spec fn spec_descriptor(self) -> Option<RawDescriptor>;

    /// Everything but the file is the same.
    spec fn same_but_descriptor(self, other: Self) -> bool;

    /// Maps the open file with this descriptor.
    fn from_file(self, file: RawDescriptor) -> (builder: Self)
        ensures
            builder.spec_descriptor() == Some(file),
            builder.same_but_descriptor(self),
    ;

    /// Maps what this descriptor stands for.
    fn from_descriptor(self, descriptor: RawDescriptor) -> (builder: Self)
        ensures
            builder.spec_descriptor() == Some(descriptor),
            builder.same_but_descriptor(self),
    ;
}

impl MemoryMappingBuilderUnix for MemoryMappingBuilder {
    open spec fn spec_descriptor(self) -> Option<RawDescriptor> {
        self.descriptor
    }

    open spec fn same_but_descriptor(self, other: MemoryMappingBuilder) -> bool {
        self == (MemoryMappingBuilder { descriptor: self.descriptor, ..other })
    }

    fn from_file(self, file: RawDescriptor) -> (builder: MemoryMappingBuilder) {
        let mut builder = self;
        builder.descriptor = Some(file);
        builder
    }

    fn from_descriptor(self, descriptor: RawDescriptor) -> (builder: MemoryMappingBuilder) {
        let mut builder = self;
        builder.descriptor = Some(descriptor);
        builder
    }
}

/// Keeping the file of a mapping open.
#[derive(Debug, PartialEq, Eq, Structural)]
pub enum WrapOp {
    /// The descriptor is being duplicated.
    Duplicating { mapping: MemoryMapping, descriptor: RawDescriptor },
    /// The mapping is being given back: its descriptor could not be duplicated.
    Releasing { mapping: MemoryMapping, errno: Errno },
}

impl Operation for WrapOp {
    type Output = CrateMemoryMapping;

    open spec fn sound(output: CrateMemoryMapping) -> bool {
        output.mapping.wf()
    }

    open spec fn wf(self) -> bool {
        match self {
            WrapOp::Duplicating { mapping, descriptor } => mapping.wf(),
            WrapOp::Releasing { mapping, errno } => mapping.wf(),
        }
    }

    open spec fn rank(self) -> nat {
        match self {
            WrapOp::Duplicating { mapping, descriptor } => 2,
            WrapOp::Releasing { mapping, errno } => 1,
        }
    }

    open spec fn spec_call(self) -> SysCall {
        match self {
            WrapOp::Duplicating { mapping, descriptor } => SysCall::Duplicate { fd: descriptor },
            WrapOp::Releasing { mapping, errno } => SysCall::Munmap {
                addr: mapping.spec_addr(),
                len: mapping.spec_size(),
            },
        }
    }

    open spec fn spec_accepts(self, reply: SysReply) -> bool {
        match self {
            WrapOp::Duplicating { mapping, descriptor } => match reply {
                Ok(duplicate) => duplicate <= RawDescriptor::MAX,
                Err(_) => true,
            },
            WrapOp::Releasing { mapping, errno } => true,
        }
    }

    open spec fn spec_resume(self, reply: SysReply) -> Step<WrapOp, CrateMemoryMapping> {
        match self {
            WrapOp::Duplicating { mapping, descriptor } => match reply {
                Ok(duplicate) => Step::Done(
                    Ok(
                        CrateMemoryMapping {
                            mapping,
                            file_descriptor: Some(
                                SafeDescriptor { descriptor: duplicate as RawDescriptor },
                            ),
                        },
                    ),
                ),
                Err(errno) => Step::Await(WrapOp::Releasing { mapping, errno }),
            },
            WrapOp::Releasing { mapping, errno } => Step::Done(
                Err(MmapError::SystemCallFailed(errno)),
            ),
        }
    }

    proof fn lemma_rank_falls(self, reply: SysReply) {
    }

    fn call(&self) -> (call: SysCall) {
        match self {
            WrapOp::Duplicating { mapping, descriptor } => SysCall::Duplicate { fd: *descriptor },
            WrapOp::Releasing { mapping, errno } => SysCall::Munmap {
                addr: mapping.as_ptr(),
                len: mapping.size(),
            },
        }
    }

    fn accepts(&self, reply: &SysReply) -> (yes: bool) {
        match self {
            WrapOp::Duplicating { mapping, descriptor } => match *reply {
                Ok(duplicate) => duplicate <= RawDescriptor::MAX as usize,
                Err(_) => true,
            },
            WrapOp::Releasing { mapping, errno } => true,
        }
    }

    fn resume(self, reply: SysReply) -> (step: Step<WrapOp, CrateMemoryMapping>) {
        match self {
            WrapOp::Duplicating { mapping, descriptor } => match reply {
                Ok(duplicate) => Step::Done(
                    Ok(
                        CrateMemoryMapping {
                            mapping,
                            file_descriptor: Some(
                                SafeDescriptor { descriptor: duplicate as RawDescriptor },
                            ),
                        },
                    ),
                ),
                Err(errno) => Step::Await(WrapOp::Releasing { mapping, errno }),
            },
            WrapOp::Releasing { mapping, errno } => Step::Done(
                Err(MmapError::SystemCallFailed(errno)),
            ),
        }
    }
}

/// Making what a builder describes.
#[derive(Debug, PartialEq, Eq)]
pub enum BuildOp {
    /// The memory is being mapped.
    Mapping(MapOp),
    /// The file behind it is being kept.
    Wrapping(WrapOp),
}

/// The step of making what a builder describes that a step of keeping its file is.
pub open spec fn from_wrap(step: Step<WrapOp, CrateMemoryMapping>) -> Step<
    BuildOp,
    CrateMemoryMapping,
> {
    match step {
        Step::Await(op) => Step::Await(BuildOp::Wrapping(op)),
        Step::Done(result) => Step::Done(result),
    }
}

/// The step of making what a builder describes that a step of its mapping is.
pub open spec fn from_map(step: Step<MapOp, MemoryMapping>) -> Step<BuildOp, CrateMemoryMapping> {
    match step {
        Step::Await(op) => Step::Await(BuildOp::Mapping(op)),
        Step::Done(Ok(mapping)) => from_wrap(MemoryMappingBuilder::spec_wrap(mapping, None)),
        Step::Done(Err(error)) => Step::Done(Err(error)),
    }
}

fn build_step(step: Step<MapOp, MemoryMapping>) -> (result: Step<BuildOp, CrateMemoryMapping>)
    requires
        step matches Step::Await(op) ==> op.wf(),
        step matches Step::Done(Ok(mapping)) ==> mapping.wf(),
    ensures
        result == from_map(step),
        result matches Step::Await(op) ==> op.wf(),
        result matches Step::Done(Ok(output)) ==> output.mapping.wf(),
{
    match step {
        Step::Await(op) => Step::Await(BuildOp::Mapping(op)),
        Step::Done(Ok(mapping)) => match MemoryMappingBuilder::wrap(mapping, None) {
            Step::Await(op) => Step::Await(BuildOp::Wrapping(op)),
            Step::Done(result) => Step::Done(result),
        },
        Step::Done(Err(error)) => Step::Done(Err(error)),
    }
}

impl Operation for BuildOp {
    type Output = CrateMemoryMapping;

    open spec fn sound(output: CrateMemoryMapping) -> bool {
        output.mapping.wf()
    }

    open spec fn wf(self) -> bool {
        match self {
            BuildOp::Mapping(op) => op.wf(),
            BuildOp::Wrapping(op) => op.wf(),
        }
    }

    open spec fn rank(self) -> nat {
        match self {
            BuildOp::Mapping(op) => op.rank() + 2,
            BuildOp::Wrapping(op) => op.rank(),
        }
    }

    open spec fn spec_call(self) -> SysCall {
        match self {
            BuildOp::Mapping(op) => op.spec_call(),
            BuildOp::Wrapping(op) => op.spec_call(),
        }
    }

    open spec fn spec_accepts(self, reply: SysReply) -> bool {
        match self {
            BuildOp::Mapping(op) => op.spec_accepts(reply),
            BuildOp::Wrapping(op) => op.spec_accepts(reply),
        }
    }

    open spec fn spec_resume(self, reply: SysReply) -> Step<BuildOp, CrateMemoryMapping> {
        match self {
            BuildOp::Mapping(op) => from_map(op.spec_resume(reply)),
            BuildOp::Wrapping(op) => from_wrap(op.spec_resume(reply)),
        }
    }

    proof fn lemma_rank_falls(self, reply: SysReply) {
        match self {
            BuildOp::Mapping(op) => op.lemma_rank_falls(reply),
            BuildOp::Wrapping(op) => op.lemma_rank_falls(reply),
        }
    }

    fn call(&self) -> (call: SysCall) {
        match self {
            BuildOp::Mapping(op) => op.call(),
            BuildOp::Wrapping(op) => op.call(),
        }
    }

    fn accepts(&self, reply: &SysReply) -> (yes: bool) {
        match self {
            BuildOp::Mapping(op) => op.accepts(reply),
            BuildOp::Wrapping(op) => op.accepts(reply),
        }
    }

    fn resume(self, reply: SysReply) -> (step: Step<BuildOp, CrateMemoryMapping>) {
        match self {
            BuildOp::Mapping(op) => build_step(op.resume(reply)),
            BuildOp::Wrapping(op) => match op.resume(reply) {
                Step::Await(op) => Step::Await(BuildOp::Wrapping(op)),
                Step::Done(result) => Step::Done(result),
            },
        }
    }
}

impl MemoryMappingBuilder {
    /// Describes a mapping of `size` bytes of anonymous memory.
    pub fn new(size: usize) -> (builder: MemoryMappingBuilder)
        ensures
            builder == (MemoryMappingBuilder {
                descriptor: None,
                size,
                offset: None,
                align: None,
                protection: None,
            }),
    {
        MemoryMappingBuilder { descriptor: None, size, offset: None, align: None, protection: None }
    }

    /// The accesses to allow: reading and writing, unless something else is wanted.
    pub open spec fn spec_protection(self) -> Protection {
        match self.protection {
            Some(protection) => protection,
            None => Protection { read: true, write: true },
        }
    }

    /// What is to be mapped. The place in the file and the alignment count as zero where they are
    /// left open.
    pub open spec fn spec_request(self) -> MapRequest {
        match self.descriptor {
            None => spec_anonymous(None, self.size, self.align, self.spec_protection()),
            Some(fd) => spec_of_file(
                None,
                self.size,
                Some(
                    match self.align {
                        Some(align) => align,
                        None => 0,
                    },
                ),
                self.spec_protection(),
                fd,
                match self.offset {
                    Some(offset) => offset,
                    None => 0,
                },
                false,
            ),
        }
    }

    /// Begins to make the mapping that is described.
    pub fn build(self, host: Host) -> (step: Step<BuildOp, CrateMemoryMapping>)
        requires
            host.wf(),
            self.spec_request().fits_on(host),
        ensures
            step == from_map(MapOp::spec_start(self.spec_request(), host)),
            step matches Step::Await(op) ==> op.wf(),
    {
        let protection: Protection = match self.protection {
            Some(protection) => protection,
            None => Protection::read_write(),
        };
        match self.descriptor {
            None => {
                build_step(
                    MemoryMapping::new_protection(host, self.size, self.align, protection),
                )
            },
            Some(descriptor) => {
                let offset: u64 = match self.offset {
                    Some(offset) => offset,
                    None => 0,
                };
                let align: u64 = match self.align {
                    Some(align) => align,
                    None => 0,
                };
                build_step(
                    MemoryMapping::from_fd_offset_protection_populate(
                        host,
                        descriptor,
                        self.size,
                        offset,
                        align,
                        protection,
                        false,
                    ),
                )
            },
        }
    }

    /// The step that begins to keep the file of a mapping, if there is one to keep.
    pub open spec fn spec_wrap(
        mapping: MemoryMapping,
        file_descriptor: Option<RawDescriptor>,
    ) -> Step<WrapOp, CrateMemoryMapping> {
        match file_descriptor {
            Some(descriptor) => Step::Await(WrapOp::Duplicating { mapping, descriptor }),
            None => Step::Done(Ok(CrateMemoryMapping { mapping, file_descriptor: None })),
        }
    }

    /// Begins to keep a mapping together with a duplicate of its descriptor.
    pub fn wrap(mapping: MemoryMapping, file_descriptor: Option<RawDescriptor>) -> (step: Step<
        WrapOp,
        CrateMemoryMapping,
    >)
        requires
            mapping.wf(),
        ensures
            step == MemoryMappingBuilder::spec_wrap(mapping, file_descriptor),
            step matches Step::Await(op) ==> op.wf(),
    {
        match file_descriptor {
            Some(descriptor) => Step::Await(WrapOp::Duplicating { mapping, descriptor }),
            None => Step::Done(Ok(CrateMemoryMapping { mapping, file_descriptor: None })),
        }
    }
}

impl From<CrateMemoryMapping> for MemoryMappingArena {
    /// The arena takes over the memory of the mapping.
    fn from(mmap: CrateMemoryMapping) -> (arena: MemoryMappingArena) {
        MemoryMappingArena::from(mmap.mapping)
    }
}

impl vstd::std_specs::convert::FromSpecImpl<CrateMemoryMapping> for MemoryMappingArena {
    open spec fn obeys_from_spec() -> bool {
        true
    }

    open spec fn from_spec(mmap: CrateMemoryMapping) -> MemoryMappingArena {
        MemoryMappingArena::spec_of(mmap.mapping)
    }
}

} // verus!
