//! Which calls each operation on memory makes, and how it ends, by the arguments that it was given.

use libc::c_int;
use vstd::prelude::*;

use crate::align::is_pow2;
use crate::linux::mmap::LinuxMap;
use crate::macos::mmap::MacosMap;
use crate::operation::{accepted, after, Host, MmapError, Operation, Os, Single, Step};
use crate::protection::Protection;
use crate::syscall::{Advice, Errno, RawDescriptor, SysCall, SysReply};
use crate::unix::arena::{change_from_linux, ArenaChange, ArenaNew, MemoryMappingArena};
use crate::unix::builder::{
    BuildOp, CrateMemoryMapping, MemoryMappingBuilder, MemoryMappingBuilderUnix, WrapOp,
};
use crate::unix::laws::{lemma_from_linux, lemma_from_macos, lemma_from_map, lemma_new_from_linux};
use crate::unix::mmap::{
    validate_includes_range, MapOp, MapRequest, MappedRegion, MemoryMapping, Region,
};

verus! {

/// The number that `mmap` takes for a protection: one for reading, two for writing.
pub open spec fn bits_of(prot: Protection) -> c_int {
    if prot.read && prot.write {
        3
    } else if prot.write {
        2
    } else if prot.read {
        1
    } else {
        0
    }
}

/// Memory that can be read and written.
pub open spec fn read_write() -> Protection {
    Protection { read: true, write: true }
}

/// What is to be mapped: a file from an offset on or anonymous memory, at an address or wherever
/// there is room.
pub open spec fn asked(
    addr: Option<usize>,
    size: usize,
    align: Option<u64>,
    prot: Protection,
    file: Option<(RawDescriptor, u64)>,
    populate: bool,
) -> MapRequest {
    MapRequest { addr, size, align, prot: bits_of(prot), fd: file, populate }
}

/// What has to be set aside for an alignment fits in a word. Linux refuses an alignment that is not
/// a power of two.
pub open spec fn has_room(host: Host, size: usize, align: Option<u64>) -> bool {
    match align {
        Some(align) => (match host.os {
            Os::Linux => align != host.pagesize && is_pow2(align as int),
            Os::Macos => true,
        }) ==> size + align <= usize::MAX,
        None => true,
    }
}

/// The call that is awaited after these replies is the right one.
pub open spec fn right_call(
    call: SysCall,
    request: MapRequest,
    host: Host,
    replies: Seq<SysReply>,
) -> bool {
    match host.os {
        Os::Linux => crate::linux::call_laws::right_call(call, request, host.pagesize, replies),
        Os::Macos => crate::macos::call_laws::right_call(call, request, replies),
    }
}

/// The reply is one that the mapping can go on from.
pub open spec fn right_reply(
    reply: SysReply,
    request: MapRequest,
    host: Host,
    replies: Seq<SysReply>,
) -> bool {
    match host.os {
        Os::Linux => crate::linux::call_laws::right_reply(reply, request, host.pagesize, replies),
        Os::Macos => crate::macos::call_laws::right_reply(reply, request, replies),
    }
}

/// What is awaited after these replies is the reply to the right call.
pub open spec fn right_wait<O: Operation>(
    op: O,
    request: MapRequest,
    host: Host,
    replies: Seq<SysReply>,
) -> bool {
    &&& right_call(op.spec_call(), request, host, replies)
    &&& forall|reply: SysReply| #[trigger]
        op.spec_accepts(reply) <==> right_reply(reply, request, host, replies)
}

/// The error is the one that the request or a reply calls for.
pub open spec fn right_error(
    error: MmapError,
    request: MapRequest,
    host: Host,
    replies: Seq<SysReply>,
) -> bool {
    match host.os {
        Os::Linux => crate::linux::call_laws::right_error(error, request, host.pagesize, replies),
        Os::Macos => crate::macos::call_laws::right_error(error, request, replies),
    }
}

/// By the replies, the mapping was made at an address, and everything else was done.
pub open spec fn succeeded_at(
    addr: int,
    request: MapRequest,
    host: Host,
    replies: Seq<SysReply>,
) -> bool {
    match host.os {
        Os::Linux => crate::linux::call_laws::succeeded_at(addr, request, host.pagesize, replies),
        Os::Macos => crate::macos::call_laws::succeeded_at(addr, request, replies),
    }
}

/// After these replies, the step has led to the right call or the right end.
pub open spec fn runs(
    step: Step<MapOp, MemoryMapping>,
    request: MapRequest,
    host: Host,
    replies: Seq<SysReply>,
) -> bool {
    match after(step, replies) {
        Step::Await(op) => right_wait(op, request, host, replies),
        Step::Done(Ok(mapping)) => {
            &&& succeeded_at(mapping.spec_addr() as int, request, host, replies)
            &&& mapping.spec_size() == request.size
        },
        Step::Done(Err(error)) => right_error(error, request, host, replies),
    }
}

proof fn lemma_runs(request: MapRequest, host: Host, replies: Seq<SysReply>)
    requires
        host.pagesize > 0,
        has_room(host, request.size, request.align),
        accepted(MapOp::spec_start(request, host), replies),
    ensures
        runs(MapOp::spec_start(request, host), request, host, replies),
        request.align == Some(0u64) ==> runs(
            MapOp::spec_start(request, host),
            (MapRequest { align: None, ..request }),
            host,
            replies,
        ),
{
    let page = host.pagesize;
    match host.os {
        Os::Linux => {
            let step = LinuxMap::spec_start(request, page);
            lemma_from_linux(step, replies, Set::empty(), page as int, Set::empty());
            crate::linux::call_laws::law_mapping_makes_the_right_calls(request, page, replies);
        },
        Os::Macos => {
            let step = MacosMap::spec_start(request);
            lemma_from_macos(step, replies, Set::empty(), page as int, Set::empty());
            crate::macos::call_laws::law_mapping_makes_the_right_calls(request, replies);
        },
    }
}

/// A mapping makes the right calls for what is to be mapped, and ends as it should.
pub proof fn law_start(
    request: MapRequest,
    host: Host,
    step: Step<MapOp, MemoryMapping>,
    replies: Seq<SysReply>,
)
    requires
        host.wf(),
        has_room(host, request.size, request.align),
        call_ensures(MapOp::start, (request, host), step),
        accepted(step, replies),
    ensures
        runs(step, request, host, replies),
{
    lemma_runs(request, host, replies);
}

/// A Linux mapping makes the right calls for what is to be mapped, and ends as it should.
pub proof fn law_try_mmap_populate(
    request: MapRequest,
    page: usize,
    step: Step<LinuxMap, MemoryMapping>,
    replies: Seq<SysReply>,
)
    requires
        page > 0,
        has_room((Host { os: Os::Linux, pagesize: page }), request.size, request.align),
        call_ensures(LinuxMap::try_mmap_populate, (request, page), step),
        accepted(step, replies),
    ensures
        match after(step, replies) {
            Step::Await(op) => crate::linux::call_laws::right_wait(op, request, page, replies),
            Step::Done(Ok(mapping)) => {
                &&& crate::linux::call_laws::succeeded_at(
                    mapping.spec_addr() as int,
                    request,
                    page,
                    replies,
                )
                &&& mapping.spec_size() == request.size
            },
            Step::Done(Err(error)) => crate::linux::call_laws::right_error(
                error,
                request,
                page,
                replies,
            ),
        },
{
    crate::linux::call_laws::law_mapping_makes_the_right_calls(request, page, replies);
}

/// A macOS mapping makes the right calls for what is to be mapped, and ends as it should.
pub proof fn law_try_mmap(
    request: MapRequest,
    step: Step<MacosMap, MemoryMapping>,
    replies: Seq<SysReply>,
)
    requires
        request.align matches Some(align) ==> request.size + align <= usize::MAX,
        call_ensures(MacosMap::try_mmap, (request,), step),
        accepted(step, replies),
    ensures
        match after(step, replies) {
            Step::Await(op) => crate::macos::call_laws::right_wait(op, request, replies),
            Step::Done(Ok(mapping)) => {
                &&& crate::macos::call_laws::succeeded_at(
                    mapping.spec_addr() as int,
                    request,
                    replies,
                )
                &&& mapping.spec_size() == request.size
            },
            Step::Done(Err(error)) => crate::macos::call_laws::right_error(
                error,
                request,
                replies,
            ),
        },
{
    crate::macos::call_laws::law_mapping_makes_the_right_calls(request, replies);
}

/// `new` maps anonymous memory of the size that was asked for, to be read and written.
pub proof fn law_new(
    host: Host,
    size: usize,
    step: Step<MapOp, MemoryMapping>,
    replies: Seq<SysReply>,
)
    requires
        host.wf(),
        call_ensures(MemoryMapping::new, (host, size), step),
        accepted(step, replies),
    ensures
        runs(step, asked(None, size, None, read_write(), None, false), host, replies),
{
    lemma_runs(asked(None, size, None, read_write(), None, false), host, replies);
}

/// `new_protection` maps anonymous memory of the size and alignment that were asked for, with the
/// protection that was asked for.
pub proof fn law_new_protection(
    host: Host,
    size: usize,
    align: Option<u64>,
    prot: Protection,
    step: Step<MapOp, MemoryMapping>,
    replies: Seq<SysReply>,
)
    requires
        host.wf(),
        has_room(host, size, align),
        call_ensures(MemoryMapping::new_protection, (host, size, align, prot), step),
        accepted(step, replies),
    ensures
        runs(step, asked(None, size, align, prot, None, false), host, replies),
{
    lemma_runs(asked(None, size, align, prot, None, false), host, replies);
}

/// `from_fd` maps the first bytes of the file, to be read and written.
pub proof fn law_from_fd(
    host: Host,
    fd: RawDescriptor,
    size: usize,
    step: Step<MapOp, MemoryMapping>,
    replies: Seq<SysReply>,
)
    requires
        host.wf(),
        call_ensures(MemoryMapping::from_fd, (host, fd, size), step),
        accepted(step, replies),
    ensures
        runs(step, asked(None, size, None, read_write(), Some((fd, 0)), false), host, replies),
{
    lemma_runs(asked(None, size, Some(0), read_write(), Some((fd, 0)), false), host, replies);
}

/// `from_fd_offset` maps the bytes of the file from the offset on, to be read and written.
pub proof fn law_from_fd_offset(
    host: Host,
    fd: RawDescriptor,
    size: usize,
    offset: u64,
    step: Step<MapOp, MemoryMapping>,
    replies: Seq<SysReply>,
)
    requires
        host.wf(),
        call_ensures(MemoryMapping::from_fd_offset, (host, fd, size, offset), step),
        accepted(step, replies),
    ensures
        runs(step, asked(None, size, None, read_write(), Some((fd, offset)), false), host, replies),
{
    lemma_runs(asked(None, size, Some(0), read_write(), Some((fd, offset)), false), host, replies);
}

/// `from_fd_offset_protection` maps the bytes of the file from the offset on, with the protection
/// that was asked for.
pub proof fn law_from_fd_offset_protection(
    host: Host,
    fd: RawDescriptor,
    size: usize,
    offset: u64,
    prot: Protection,
    step: Step<MapOp, MemoryMapping>,
    replies: Seq<SysReply>,
)
    requires
        host.wf(),
        call_ensures(
            MemoryMapping::from_fd_offset_protection,
            (host, fd, size, offset, prot),
            step,
        ),
        accepted(step, replies),
    ensures
        runs(step, asked(None, size, None, prot, Some((fd, offset)), false), host, replies),
{
    lemma_runs(asked(None, size, Some(0), prot, Some((fd, offset)), false), host, replies);
}

/// `from_fd_offset_protection_populate` maps the bytes of the file from the offset on, with the
/// alignment and the protection that were asked for, and faults them in where that was asked for.
pub proof fn law_from_fd_offset_protection_populate(
    host: Host,
    fd: RawDescriptor,
    size: usize,
    offset: u64,
    align: u64,
    prot: Protection,
    populate: bool,
    step: Step<MapOp, MemoryMapping>,
    replies: Seq<SysReply>,
)
    requires
        host.wf(),
        has_room(host, size, Some(align)),
        call_ensures(
            MemoryMapping::from_fd_offset_protection_populate,
            (host, fd, size, offset, align, prot, populate),
            step,
        ),
        accepted(step, replies),
    ensures
        runs(
            step,
            asked(None, size, Some(align), prot, Some((fd, offset)), populate),
            host,
            replies,
        ),
{
    lemma_runs(asked(None, size, Some(align), prot, Some((fd, offset)), populate), host, replies);
}

/// `new_protection_fixed` maps anonymous memory at the address, with the protection that was asked
/// for.
pub proof fn law_new_protection_fixed(
    host: Host,
    addr: usize,
    size: usize,
    prot: Protection,
    step: Step<MapOp, MemoryMapping>,
    replies: Seq<SysReply>,
)
    requires
        host.wf(),
        call_ensures(MemoryMapping::new_protection_fixed, (host, addr, size, prot), step),
        accepted(step, replies),
    ensures
        runs(step, asked(Some(addr), size, None, prot, None, false), host, replies),
{
    lemma_runs(asked(Some(addr), size, None, prot, None, false), host, replies);
}

/// `from_descriptor_offset_protection_fixed` maps the bytes of the file from the offset on at the
/// address, with the protection that was asked for.
pub proof fn law_from_descriptor_offset_protection_fixed(
    host: Host,
    addr: usize,
    fd: RawDescriptor,
    size: usize,
    offset: u64,
    prot: Protection,
    step: Step<MapOp, MemoryMapping>,
    replies: Seq<SysReply>,
)
    requires
        host.wf(),
        call_ensures(
            MemoryMapping::from_descriptor_offset_protection_fixed,
            (host, addr, fd, size, offset, prot),
            step,
        ),
        accepted(step, replies),
    ensures
        runs(
            step,
            asked(Some(addr), size, None, prot, Some((fd, offset)), false),
            host,
            replies,
        ),
{
    lemma_runs(asked(Some(addr), size, None, prot, Some((fd, offset)), false), host, replies);
}

/// A builder's mapping has the builder's size, file, place in the file, alignment and protection.
/// What is left open is the beginning of the file, no alignment, and reading and writing. No file
/// is kept.
pub proof fn law_build(
    builder: MemoryMappingBuilder,
    host: Host,
    step: Step<BuildOp, CrateMemoryMapping>,
    replies: Seq<SysReply>,
)
    requires
        host.wf(),
        has_room(host, builder.size, builder.align),
        call_ensures(MemoryMappingBuilder::build, (builder, host), step),
        accepted(step, replies),
    ensures
        ({
            let prot = match builder.protection {
                Some(prot) => prot,
                None => read_write(),
            };
            let file = match (builder.descriptor, builder.offset) {
                (None, _) => None,
                (Some(fd), Some(offset)) => Some((fd, offset)),
                (Some(fd), None) => Some((fd, 0u64)),
            };
            let request = asked(None, builder.size, builder.align, prot, file, false);
            match after(step, replies) {
                Step::Await(op) => right_wait(op, request, host, replies),
                Step::Done(Ok(built)) => {
                    &&& succeeded_at(built.mapping.spec_addr() as int, request, host, replies)
                    &&& built.mapping.spec_size() == builder.size
                    &&& built.file_descriptor is None
                },
                Step::Done(Err(error)) => right_error(error, request, host, replies),
            }
        }),
{
    let request = builder.spec_request();
    let start = MapOp::spec_start(request, host);
    lemma_from_map(start, replies, Set::empty(), host.pagesize as int, Set::empty());
    lemma_runs(request, host, replies);
}

/// A builder begins with its size, and with everything else left open.
pub proof fn law_new_builder(size: usize, builder: MemoryMappingBuilder)
    requires
        call_ensures(MemoryMappingBuilder::new, (size,), builder),
    ensures
        builder.size == size,
        builder.descriptor is None,
        builder.offset is None,
        builder.align is None,
        builder.protection is None,
{
}

/// Choosing a file changes the file of a builder and nothing else.
pub proof fn law_choosing_a_file(
    before: MemoryMappingBuilder,
    fd: RawDescriptor,
    builder: MemoryMappingBuilder,
)
    requires
        call_ensures(
            <MemoryMappingBuilder as MemoryMappingBuilderUnix>::from_file,
            (before, fd),
            builder,
        ) || call_ensures(
            <MemoryMappingBuilder as MemoryMappingBuilderUnix>::from_descriptor,
            (before, fd),
            builder,
        ),
    ensures
        builder.descriptor == Some(fd),
        builder.size == before.size,
        builder.offset == before.offset,
        builder.align == before.align,
        builder.protection == before.protection,
{
}

/// A mapping that is wrapped with a file keeps a duplicate of its descriptor, and is itself
/// unchanged. Where there is no duplicate, the mapping is given back and the reason told.
pub proof fn law_wrap(
    mapping: MemoryMapping,
    file: Option<RawDescriptor>,
    step: Step<WrapOp, CrateMemoryMapping>,
    first: SysReply,
    second: SysReply,
)
    requires
        mapping.wf(),
        call_ensures(MemoryMappingBuilder::wrap, (mapping, file), step),
    ensures
        file is None ==> (step matches Step::Done(Ok(kept)) && kept.mapping == mapping
            && kept.file_descriptor is None),
        file matches Some(fd) ==> (step matches Step::Await(op) && {
            &&& op.spec_call() == (SysCall::Duplicate { fd })
            &&& op.spec_accepts(first) <==> (first matches Ok(duplicate) ==> duplicate
                <= 0x7fff_ffff)
            &&& match first {
                Ok(duplicate) => duplicate <= 0x7fff_ffff ==> (op.spec_resume(first)
                    matches Step::Done(Ok(kept)) && kept.mapping == mapping && (
                kept.file_descriptor matches Some(held) && held.descriptor == duplicate)),
                Err(errno) => op.spec_resume(first) matches Step::Await(releasing) && {
                    &&& releasing.spec_call() == (SysCall::Munmap {
                        addr: mapping.spec_addr(),
                        len: mapping.spec_size(),
                    })
                    &&& releasing.spec_accepts(second)
                    &&& releasing.spec_resume(second) == Step::<WrapOp, CrateMemoryMapping>::Done(
                        Err(MmapError::SystemCallFailed(errno)),
                    )
                },
            }
        }),
{
}

/// The mapping of a builder is wrapped as any mapping is.
pub proof fn law_build_wraps(wrapping: WrapOp, reply: SysReply)
    ensures
        ({
            let op = BuildOp::Wrapping(wrapping);
            &&& op.spec_call() == wrapping.spec_call()
            &&& op.spec_accepts(reply) == wrapping.spec_accepts(reply)
            &&& match wrapping.spec_resume(reply) {
                Step::Await(next) => op.spec_resume(reply) == Step::<
                    BuildOp,
                    CrateMemoryMapping,
                >::Await(BuildOp::Wrapping(next)),
                Step::Done(result) => op.spec_resume(reply) == Step::<
                    BuildOp,
                    CrateMemoryMapping,
                >::Done(result),
            }
        }),
{
}

/// The step awaits one call, and ends as its reply says.
pub open spec fn one_call(step: Step<Single, ()>, call: SysCall) -> bool {
    step matches Step::Await(op) && {
        &&& op.spec_call() == call
        &&& forall|reply: SysReply| #[trigger] op.spec_accepts(reply)
        &&& forall|reply: SysReply|
            #[trigger] op.spec_resume(reply) == (match reply {
                Ok(_) => Step::<Single, ()>::Done(Ok(())),
                Err(errno) => Step::Done(Err(MmapError::SystemCallFailed(errno))),
            })
    }
}

/// An operation on a range of a mapping makes its call on exactly that range, and refuses a range
/// that reaches past the end of the mapping: what is asked for, and how large the mapping is, is
/// told.
pub proof fn law_operations_on_a_range(
    mapping: MemoryMapping,
    offset: usize,
    count: usize,
    removing: Step<Single, ()>,
    prefetching: Step<Single, ()>,
    dropping: Step<Single, ()>,
    locking: Step<Single, ()>,
    unlocking: Step<Single, ()>,
)
    requires
        mapping.wf(),
        call_ensures(MemoryMapping::remove_range, (&mapping, offset, count), removing),
        call_ensures(MemoryMapping::async_prefetch, (&mapping, offset, count), prefetching),
        call_ensures(MemoryMapping::drop_page_cache, (&mapping, offset, count), dropping),
        call_ensures(MemoryMapping::lock_on_fault, (&mapping, offset, count), locking),
        call_ensures(MemoryMapping::unlock, (&mapping, offset, count), unlocking),
    ensures
        offset + count <= mapping.spec_size() ==> {
            let addr = (mapping.spec_addr() + offset) as usize;
            &&& addr == mapping.spec_addr() + offset
            &&& one_call(removing, SysCall::Madvise { addr, len: count, advice: Advice::Remove })
            &&& one_call(
                prefetching,
                SysCall::Madvise { addr, len: count, advice: Advice::WillNeed },
            )
            &&& one_call(dropping, SysCall::Madvise { addr, len: count, advice: Advice::DontNeed })
            &&& one_call(locking, SysCall::LockOnFault { addr, len: count })
            &&& one_call(unlocking, SysCall::Unlock { addr, len: count })
        },
        offset + count > mapping.spec_size() ==> {
            let refused = Step::<Single, ()>::Done(
                Err(MmapError::InvalidRange(offset, count, mapping.spec_size())),
            );
            &&& removing == refused
            &&& prefetching == refused
            &&& dropping == refused
            &&& locking == refused
            &&& unlocking == refused
        },
{
}

/// An operation on a whole mapping makes its call on exactly that mapping. Huge pages are asked for
/// from two mebibytes on.
pub proof fn law_operations_on_the_whole(
    mapping: MemoryMapping,
    syncing: Step<Single, ()>,
    unforking: Step<Single, ()>,
    enlarging: Step<Single, ()>,
)
    requires
        call_ensures(MemoryMapping::msync, (&mapping,), syncing),
        call_ensures(MemoryMapping::use_dontfork, (&mapping,), unforking),
        call_ensures(MemoryMapping::use_hugepages, (&mapping,), enlarging),
    ensures
        ({
            let addr = mapping.spec_addr();
            let len = mapping.spec_size();
            &&& one_call(syncing, SysCall::Msync { addr, len })
            &&& one_call(unforking, SysCall::Madvise { addr, len, advice: Advice::DontFork })
            &&& len >= 0x20_0000 ==> one_call(
                enlarging,
                SysCall::Madvise { addr, len, advice: Advice::HugePage },
            )
            &&& len < 0x20_0000 ==> enlarging == Step::<Single, ()>::Done(Ok(()))
        }),
{
}

/// Writing back a range of a region, or giving advice on it, makes its call on exactly that range,
/// and a range that reaches past the end of the region is refused.
pub open spec fn on_region(
    syncing: Step<Single, ()>,
    advising: Step<Single, ()>,
    base: usize,
    len: usize,
    offset: usize,
    size: usize,
    advice: c_int,
) -> bool {
    if offset + size <= len {
        let addr = (base + offset) as usize;
        &&& addr == base + offset
        &&& one_call(syncing, SysCall::Msync { addr, len: size })
        &&& one_call(
            advising,
            SysCall::Madvise { addr, len: size, advice: Advice::Other(advice) },
        )
    } else {
        let refused = Step::<Single, ()>::Done(Err(MmapError::InvalidAddress));
        syncing == refused && advising == refused
    }
}

/// A mapping, an arena and a plain range are each a region of their own address and size.
pub proof fn law_regions(
    mapping: MemoryMapping,
    arena: MemoryMappingArena,
    region: Region,
    offset: usize,
    size: usize,
    advice: c_int,
    syncing: (Step<Single, ()>, Step<Single, ()>, Step<Single, ()>),
    advising: (Step<Single, ()>, Step<Single, ()>, Step<Single, ()>),
)
    requires
        mapping.wf(),
        arena.wf(),
        region.addr + region.len <= usize::MAX,
        call_ensures(<MemoryMapping as MappedRegion>::msync, (&mapping, offset, size), syncing.0),
        call_ensures(<MemoryMappingArena as MappedRegion>::msync, (&arena, offset, size), syncing.1),
        call_ensures(<Region as MappedRegion>::msync, (&region, offset, size), syncing.2),
        call_ensures(
            <MemoryMapping as MappedRegion>::madvise,
            (&mapping, offset, size, advice),
            advising.0,
        ),
        call_ensures(
            <MemoryMappingArena as MappedRegion>::madvise,
            (&arena, offset, size, advice),
            advising.1,
        ),
        call_ensures(
            <Region as MappedRegion>::madvise,
            (&region, offset, size, advice),
            advising.2,
        ),
    ensures
        on_region(
            syncing.0,
            advising.0,
            mapping.spec_addr(),
            mapping.spec_size(),
            offset,
            size,
            advice,
        ),
        on_region(
            syncing.1,
            advising.1,
            arena.spec_addr(),
            arena.spec_size(),
            offset,
            size,
            advice,
        ),
        on_region(syncing.2, advising.2, region.addr, region.len, offset, size, advice),
{
}

/// What a region says of itself is where it begins and how many bytes it has, whatever kind it is.
pub proof fn law_regions_tell_where_they_are(
    mapping: MemoryMapping,
    arena: MemoryMappingArena,
    region: Region,
    addrs: (usize, usize, usize),
    sizes: (usize, usize, usize),
)
    requires
        call_ensures(<MemoryMapping as MappedRegion>::as_ptr, (&mapping,), addrs.0),
        call_ensures(<MemoryMappingArena as MappedRegion>::as_ptr, (&arena,), addrs.1),
        call_ensures(<Region as MappedRegion>::as_ptr, (&region,), addrs.2),
        call_ensures(<MemoryMapping as MappedRegion>::size, (&mapping,), sizes.0),
        call_ensures(<MemoryMappingArena as MappedRegion>::size, (&arena,), sizes.1),
        call_ensures(<Region as MappedRegion>::size, (&region,), sizes.2),
    ensures
        addrs == (mapping.spec_addr(), arena.spec_addr(), region.addr),
        sizes == (mapping.spec_size(), arena.spec_size(), region.len),
{
}

/// A range is let through exactly where it ends within the memory, and its end is the sum of its
/// offset and its count.
pub proof fn law_ranges(
    mapping: MemoryMapping,
    size: usize,
    offset: usize,
    count: usize,
    valid: Result<(), MmapError>,
    end: Result<usize, MmapError>,
)
    requires
        call_ensures(validate_includes_range, (size, offset, count), valid),
        call_ensures(MemoryMapping::range_end, (&mapping, offset, count), end),
    ensures
        offset + count <= size ==> valid is Ok,
        offset + count > size ==> valid == Err::<(), MmapError>(MmapError::InvalidAddress),
        offset + count <= mapping.spec_size() ==> (end matches Ok(end) && end == offset + count),
        offset + count > mapping.spec_size() ==> end == Err::<usize, MmapError>(
            MmapError::InvalidAddress,
        ),
{
}

/// What a mapping or an arena says of itself is where it begins and how many bytes it has; that is
/// what it unmaps, and what an arena takes over from a mapping.
pub proof fn law_memory_tells_where_it_is(
    mapping: MemoryMapping,
    arena: MemoryMappingArena,
    built: CrateMemoryMapping,
    mapping_tells: (usize, usize, SysCall),
    arena_tells: (usize, usize, SysCall),
    taken: MemoryMappingArena,
    taken_built: MemoryMappingArena,
)
    requires
        call_ensures(MemoryMapping::as_ptr, (&mapping,), mapping_tells.0),
        call_ensures(MemoryMapping::size, (&mapping,), mapping_tells.1),
        call_ensures(MemoryMapping::unmap, (mapping,), mapping_tells.2),
        call_ensures(MemoryMappingArena::as_ptr, (&arena,), arena_tells.0),
        call_ensures(MemoryMappingArena::size, (&arena,), arena_tells.1),
        call_ensures(MemoryMappingArena::unmap, (arena,), arena_tells.2),
        call_ensures(<MemoryMappingArena as From<MemoryMapping>>::from, (mapping,), taken),
        call_ensures(<MemoryMappingArena as From<CrateMemoryMapping>>::from, (built,), taken_built),
    ensures
        mapping_tells.0 == mapping.spec_addr(),
        mapping_tells.1 == mapping.spec_size(),
        mapping_tells.2 == (SysCall::Munmap {
            addr: mapping.spec_addr(),
            len: mapping.spec_size(),
        }),
        arena_tells.0 == arena.spec_addr(),
        arena_tells.1 == arena.spec_size(),
        arena_tells.2 == (SysCall::Munmap { addr: arena.spec_addr(), len: arena.spec_size() }),
        taken.spec_addr() == mapping.spec_addr(),
        taken.spec_size() == mapping.spec_size(),
        taken_built.spec_addr() == built.mapping.spec_addr(),
        taken_built.spec_size() == built.mapping.spec_size(),
{
    broadcast use MemoryMappingArena::lemma_spec_at;

}

/// The call makes memory that cannot be touched: no file is behind it.
pub open spec fn blanks(call: SysCall, at: int, size: usize, over: bool) -> bool {
    &&& call matches SysCall::Mmap { addr, len, prot, flags, fd, offset }
    &&& addr == at
    &&& len == size
    &&& prot == 0
    &&& flags.private && flags.anonymous
    &&& !flags.shared && !flags.populate && !flags.noreserve
    &&& flags.fixed <==> over
    &&& fd == -1
    &&& offset == 0
}

/// A new arena is memory that can only be read on Linux, and memory that cannot be touched on
/// macOS, of the size that was asked for and where the kernel says.
pub proof fn law_new_arena(
    host: Host,
    size: usize,
    step: Step<ArenaNew, MemoryMappingArena>,
    replies: Seq<SysReply>,
)
    requires
        host.wf(),
        call_ensures(MemoryMappingArena::new, (host, size), step),
        accepted(step, replies),
    ensures
        ({
            let request = asked(
                None,
                size,
                None,
                Protection { read: true, write: false },
                None,
                false,
            );
            match (host.os, after(step, replies)) {
                (Os::Linux, Step::Await(op)) => right_wait(op, request, host, replies),
                (Os::Linux, Step::Done(Ok(arena))) => {
                    &&& succeeded_at(arena.spec_addr() as int, request, host, replies)
                    &&& arena.spec_size() == size
                },
                (Os::Linux, Step::Done(Err(error))) => right_error(error, request, host, replies),
                (Os::Macos, Step::Await(op)) => {
                    &&& replies.len() == 0
                    &&& blanks(op.spec_call(), 0, size, false)
                    &&& forall|reply: SysReply| #[trigger]
                        op.spec_accepts(reply) <==> (reply matches Ok(at) ==> at + size
                            <= usize::MAX)
                },
                (Os::Macos, Step::Done(Ok(arena))) => {
                    &&& replies.len() > 0
                    &&& replies[0] == Ok::<usize, Errno>(arena.spec_addr())
                    &&& arena.spec_size() == size
                },
                (Os::Macos, Step::Done(Err(error))) => {
                    &&& replies.len() > 0
                    &&& replies[0] matches Err(errno) && error == MmapError::SystemCallFailed(errno)
                },
            }
        }),
{
    broadcast use MemoryMappingArena::lemma_spec_at;

    let request = asked(None, size, None, Protection { read: true, write: false }, None, false);
    let page = host.pagesize;
    match host.os {
        Os::Linux => {
            let start = LinuxMap::spec_start(request, page);
            lemma_new_from_linux(start, replies, Set::empty(), page as int, Set::empty());
            crate::linux::call_laws::law_mapping_makes_the_right_calls(request, page, replies);
        },
        Os::Macos => {
            reveal_with_fuel(after::<ArenaNew>, 2);
        },
    }
}

/// What a step of a Linux mapping leads to is what the same step of changing an arena leads to.
proof fn lemma_change_from_linux(step: Step<LinuxMap, MemoryMapping>, replies: Seq<SysReply>)
    ensures
        after(change_from_linux(step), replies) == change_from_linux(after(step, replies)),
        accepted(change_from_linux(step), replies) == accepted(step, replies),
    decreases replies.len(),
{
    match step {
        Step::Await(op) if replies.len() > 0 => {
            lemma_change_from_linux(op.spec_resume(replies[0]), replies.skip(1));
        },
        _ => {},
    }
}

/// Memory is added to an arena: where the range lies within it, and begins at a page on Linux, the
/// calls are those that map the file or anonymous memory at that place of the arena, with the
/// protection that was asked for.
pub open spec fn adds(
    step: Step<ArenaChange, ()>,
    arena: MemoryMappingArena,
    host: Host,
    offset: usize,
    size: usize,
    prot: Protection,
    file: Option<(RawDescriptor, u64)>,
    replies: Seq<SysReply>,
) -> bool {
    if host.os == Os::Linux && offset as int % host.pagesize as int != 0 {
        step == Step::<ArenaChange, ()>::Done(Err(MmapError::NotPageAligned))
    } else if offset + size > arena.spec_size() {
        step == Step::<ArenaChange, ()>::Done(Err(MmapError::InvalidAddress))
    } else {
        let addr = (arena.spec_addr() + offset) as usize;
        let request = asked(Some(addr), size, None, prot, file, false);
        &&& addr == arena.spec_addr() + offset
        &&& match after(step, replies) {
            Step::Await(op) => {
                &&& right_call(op.spec_call(), request, host, replies)
                &&& forall|reply: SysReply| #[trigger]
                    op.spec_accepts(reply) <==> host.os == Os::Macos || right_reply(
                        reply,
                        request,
                        host,
                        replies,
                    )
            },
            Step::Done(Ok(())) => exists|at: int| #[trigger]
                succeeded_at(at, request, host, replies),
            Step::Done(Err(error)) => right_error(error, request, host, replies),
        }
    }
}

proof fn lemma_linux_adds(
    arena: MemoryMappingArena,
    host: Host,
    offset: usize,
    size: usize,
    prot: Protection,
    file: Option<(RawDescriptor, u64)>,
    replies: Seq<SysReply>,
)
    requires
        host.wf(),
        host.os == Os::Linux,
        arena.wf(),
        accepted(arena.spec_try_add(host.pagesize, offset, size, prot, file), replies),
    ensures
        adds(
            arena.spec_try_add(host.pagesize, offset, size, prot, file),
            arena,
            host,
            offset,
            size,
            prot,
            file,
            replies,
        ),
{
    let page = host.pagesize;
    if offset % page == 0 && offset + size <= arena.spec_size() {
        let addr = (arena.spec_addr() + offset) as usize;
        let request = asked(Some(addr), size, None, prot, file, false);
        let start = LinuxMap::spec_start(request, page);
        lemma_change_from_linux(start, replies);
        crate::linux::call_laws::law_mapping_makes_the_right_calls(request, page, replies);
        if let Step::Done(Ok(mapping)) = after(start, replies) {
            assert(succeeded_at(mapping.spec_addr() as int, request, host, replies));
        }
    }
}

proof fn lemma_adds_file(
    arena: MemoryMappingArena,
    host: Host,
    offset: usize,
    size: usize,
    prot: Protection,
    fd: RawDescriptor,
    from: u64,
    replies: Seq<SysReply>,
)
    requires
        host.wf(),
        arena.wf(),
        accepted(arena.spec_add_fd(host, offset, size, fd, from, prot), replies),
    ensures
        adds(
            arena.spec_add_fd(host, offset, size, fd, from, prot),
            arena,
            host,
            offset,
            size,
            prot,
            Some((fd, from)),
            replies,
        ),
{
    match host.os {
        Os::Linux => lemma_linux_adds(arena, host, offset, size, prot, Some((fd, from)), replies),
        Os::Macos => {
            reveal_with_fuel(after::<ArenaChange>, 2);
            crate::macos::call_laws::lemma_signed(from);
            if replies.len() > 0 && replies[0] is Ok && offset + size <= arena.spec_size() {
                let addr = (arena.spec_addr() + offset) as usize;
                let request = asked(Some(addr), size, None, prot, Some((fd, from)), false);
                assert(succeeded_at(replies[0]->Ok_0 as int, request, host, replies));
            }
        },
    }
}

/// `add_anon_protection` adds anonymous memory with the protection that was asked for.
pub proof fn law_add_anon_protection(
    arena: &mut MemoryMappingArena,
    pagesize: usize,
    offset: usize,
    size: usize,
    prot: Protection,
    step: Step<ArenaChange, ()>,
    replies: Seq<SysReply>,
)
    requires
        old(arena).wf(),
        pagesize > 0,
        call_ensures(
            MemoryMappingArena::add_anon_protection,
            (arena, pagesize, offset, size, prot),
            step,
        ),
        accepted(step, replies),
    ensures
        adds(
            step,
            *old(arena),
            (Host { os: Os::Linux, pagesize }),
            offset,
            size,
            prot,
            None,
            replies,
        ),
{
    let host = Host { os: Os::Linux, pagesize };
    lemma_linux_adds(*arena, host, offset, size, prot, None, replies);
}

/// `add_anon` adds anonymous memory that can be read and written.
pub proof fn law_add_anon(
    arena: &mut MemoryMappingArena,
    pagesize: usize,
    offset: usize,
    size: usize,
    step: Step<ArenaChange, ()>,
    replies: Seq<SysReply>,
)
    requires
        old(arena).wf(),
        pagesize > 0,
        call_ensures(MemoryMappingArena::add_anon, (arena, pagesize, offset, size), step),
        accepted(step, replies),
    ensures
        adds(
            step,
            *old(arena),
            (Host { os: Os::Linux, pagesize }),
            offset,
            size,
            read_write(),
            None,
            replies,
        ),
{
    let host = Host { os: Os::Linux, pagesize };
    lemma_linux_adds(*arena, host, offset, size, read_write(), None, replies);
}

/// `add_fd` adds the first bytes of the file, to be read and written.
pub proof fn law_add_fd(
    arena: &mut MemoryMappingArena,
    host: Host,
    offset: usize,
    size: usize,
    fd: RawDescriptor,
    step: Step<ArenaChange, ()>,
    replies: Seq<SysReply>,
)
    requires
        old(arena).wf(),
        host.wf(),
        call_ensures(MemoryMappingArena::add_fd, (arena, host, offset, size, fd), step),
        accepted(step, replies),
    ensures
        adds(step, *old(arena), host, offset, size, read_write(), Some((fd, 0)), replies),
{
    lemma_adds_file(*arena, host, offset, size, read_write(), fd, 0, replies);
}

/// `add_fd_offset` adds the bytes of the file from the offset on, to be read and written.
pub proof fn law_add_fd_offset(
    arena: &mut MemoryMappingArena,
    host: Host,
    offset: usize,
    size: usize,
    fd: RawDescriptor,
    from: u64,
    step: Step<ArenaChange, ()>,
    replies: Seq<SysReply>,
)
    requires
        old(arena).wf(),
        host.wf(),
        call_ensures(MemoryMappingArena::add_fd_offset, (arena, host, offset, size, fd, from), step),
        accepted(step, replies),
    ensures
        adds(step, *old(arena), host, offset, size, read_write(), Some((fd, from)), replies),
{
    lemma_adds_file(*arena, host, offset, size, read_write(), fd, from, replies);
}

/// `add_fd_offset_protection` and `add_fd_mapping` add the bytes of the file from the offset on,
/// with the protection that was asked for.
pub proof fn law_add_fd_offset_protection(
    arena: &mut MemoryMappingArena,
    host: Host,
    offset: usize,
    size: usize,
    fd: RawDescriptor,
    from: u64,
    prot: Protection,
    step: Step<ArenaChange, ()>,
    replies: Seq<SysReply>,
)
    requires
        old(arena).wf(),
        host.wf(),
        call_ensures(
            MemoryMappingArena::add_fd_offset_protection,
            (arena, host, offset, size, fd, from, prot),
            step,
        ) || call_ensures(
            MemoryMappingArena::add_fd_mapping,
            (arena, host, offset, size, fd, from, prot),
            step,
        ),
        accepted(step, replies),
    ensures
        adds(step, *old(arena), host, offset, size, prot, Some((fd, from)), replies),
{
    lemma_adds_file(*arena, host, offset, size, prot, fd, from, replies);
}

/// `remove` and `remove_mapping` put anonymous memory in the place of what the arena has there:
/// memory that can only be read on Linux, and memory that cannot be touched on macOS.
pub proof fn law_remove(
    arena: &mut MemoryMappingArena,
    host: Host,
    offset: usize,
    size: usize,
    step: Step<ArenaChange, ()>,
    replies: Seq<SysReply>,
)
    requires
        old(arena).wf(),
        host.wf(),
        call_ensures(MemoryMappingArena::remove, (arena, host, offset, size), step)
            || call_ensures(MemoryMappingArena::remove_mapping, (arena, host, offset, size), step),
        accepted(step, replies),
    ensures
        match host.os {
            Os::Linux => adds(
                step,
                *old(arena),
                host,
                offset,
                size,
                Protection { read: true, write: false },
                None,
                replies,
            ),
            Os::Macos => if offset + size > old(arena).spec_size() {
                step == Step::<ArenaChange, ()>::Done(Err(MmapError::InvalidAddress))
            } else {
                match after(step, replies) {
                    Step::Await(op) => {
                        &&& replies.len() == 0
                        &&& blanks(op.spec_call(), old(arena).spec_addr() + offset, size, true)
                        &&& forall|reply: SysReply| #[trigger] op.spec_accepts(reply)
                    },
                    Step::Done(result) => {
                        &&& replies.len() > 0
                        &&& result == (match replies[0] {
                            Ok(_) => Ok::<(), MmapError>(()),
                            Err(errno) => Err(MmapError::SystemCallFailed(errno)),
                        })
                    },
                }
            },
        },
{
    match host.os {
        Os::Linux => lemma_linux_adds(
            *arena,
            host,
            offset,
            size,
            Protection { read: true, write: false },
            None,
            replies,
        ),
        Os::Macos => {
            reveal_with_fuel(after::<ArenaChange>, 2);
        },
    }
}

/// Changing what is mapped within an arena leaves the arena itself where it is and as large as it
/// is.
pub proof fn law_arena_stays_where_it_is(
    host: Host,
    offset: usize,
    size: usize,
    fd: RawDescriptor,
    from: u64,
    prot: Protection,
)
    ensures
        forall|arena: &mut MemoryMappingArena, step: Step<ArenaChange, ()>| #[trigger]
            call_ensures(
                MemoryMappingArena::add_anon_protection,
                (arena, host.pagesize, offset, size, prot),
                step,
            ) ==> *final(arena) == *arena,
        forall|arena: &mut MemoryMappingArena, step: Step<ArenaChange, ()>| #[trigger]
            call_ensures(MemoryMappingArena::add_anon, (arena, host.pagesize, offset, size), step)
                ==> *final(arena) == *arena,
        forall|arena: &mut MemoryMappingArena, step: Step<ArenaChange, ()>| #[trigger]
            call_ensures(MemoryMappingArena::add_fd, (arena, host, offset, size, fd), step)
                ==> *final(arena) == *arena,
        forall|arena: &mut MemoryMappingArena, step: Step<ArenaChange, ()>| #[trigger]
            call_ensures(
                MemoryMappingArena::add_fd_offset,
                (arena, host, offset, size, fd, from),
                step,
            ) ==> *final(arena) == *arena,
        forall|arena: &mut MemoryMappingArena, step: Step<ArenaChange, ()>| #[trigger]
            call_ensures(
                MemoryMappingArena::add_fd_offset_protection,
                (arena, host, offset, size, fd, from, prot),
                step,
            ) ==> *final(arena) == *arena,
        forall|arena: &mut MemoryMappingArena, step: Step<ArenaChange, ()>| #[trigger]
            call_ensures(
                MemoryMappingArena::add_fd_mapping,
                (arena, host, offset, size, fd, from, prot),
                step,
            ) ==> *final(arena) == *arena,
        forall|arena: &mut MemoryMappingArena, step: Step<ArenaChange, ()>| #[trigger]
            call_ensures(MemoryMappingArena::remove, (arena, host, offset, size), step)
                ==> *final(arena) == *arena,
        forall|arena: &mut MemoryMappingArena, step: Step<ArenaChange, ()>| #[trigger]
            call_ensures(MemoryMappingArena::remove_mapping, (arena, host, offset, size), step)
                ==> *final(arena) == *arena,
{
}

} // verus!
