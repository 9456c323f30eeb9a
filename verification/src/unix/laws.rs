//! What holds of mappings and arenas on either system.

use vstd::prelude::*;

use crate::address_space::{
    as_requested, asked_for, effect, gives_back, held_mapping, honest, spares, space_after, span,
};
use crate::align::{
    is_pow2, lemma_mod_shift, lemma_pow2_positive, lemma_round_up, lemma_round_up_monotonic,
    lemma_round_up_shift, round_up,
};
use crate::linux::laws::{acceptable, lemma_nothing_to_give_back};
use crate::linux::mmap::{LinuxMap, Place};
use crate::macos::mmap::MacosMap;
use crate::operation::{
    accepted, after, law_operation_ends, Host, MmapError, Operation, Os, Single, Step,
};
use crate::protection::Protection;
use crate::syscall::{MapFlags, RawDescriptor, SysCall, SysReply};
use crate::unix::arena::{new_from_linux, ArenaChange, ArenaNew, MemoryMappingArena};
use crate::unix::builder::{from_map, MemoryMappingBuilder, WrapOp};
use crate::unix::mmap::{
    from_linux, from_macos, includes_range, spec_anonymous, MapOp, MapRequest, MemoryMapping,
};

verus! {

/// What a step of a Linux mapping leads to is what the same step on either system leads to.
pub(crate) proof fn lemma_from_linux(
    step: Step<LinuxMap, MemoryMapping>,
    replies: Seq<SysReply>,
    space: Set<int>,
    page: int,
    lost: Set<int>,
)
    ensures
        after(from_linux(step), replies) == from_linux(after(step, replies)),
        accepted(from_linux(step), replies) == accepted(step, replies),
        gives_back(from_linux(step), replies) == gives_back(step, replies),
        space_after(from_linux(step), replies, space, lost, page) == space_after(
            step,
            replies,
            space,
            lost,
            page,
        ),
        honest(from_linux(step), replies, space, lost, page) == honest(
            step,
            replies,
            space,
            lost,
            page,
        ),
    decreases replies.len(),
{
    match step {
        Step::Await(op) if replies.len() > 0 => {
            lemma_from_linux(
                op.spec_resume(replies[0]),
                replies.skip(1),
                effect(space, op.spec_call(), replies[0], lost, page),
                page,
                lost,
            );
        },
        _ => {},
    }
}

/// What a step of a macOS mapping leads to is what the same step on either system leads to.
pub(crate) proof fn lemma_from_macos(
    step: Step<MacosMap, MemoryMapping>,
    replies: Seq<SysReply>,
    space: Set<int>,
    page: int,
    lost: Set<int>,
)
    ensures
        after(from_macos(step), replies) == from_macos(after(step, replies)),
        accepted(from_macos(step), replies) == accepted(step, replies),
        gives_back(from_macos(step), replies) == gives_back(step, replies),
        space_after(from_macos(step), replies, space, lost, page) == space_after(
            step,
            replies,
            space,
            lost,
            page,
        ),
        honest(from_macos(step), replies, space, lost, page) == honest(
            step,
            replies,
            space,
            lost,
            page,
        ),
    decreases replies.len(),
{
    match step {
        Step::Await(op) if replies.len() > 0 => {
            lemma_from_macos(
                op.spec_resume(replies[0]),
                replies.skip(1),
                effect(space, op.spec_call(), replies[0], lost, page),
                page,
                lost,
            );
        },
        _ => {},
    }
}

/// Where address space has to be set aside to align a mapping, the alignment is a power of two. Linux
/// refuses any other.
pub open spec fn alignable(request: MapRequest, host: Host) -> bool {
    host.os == Os::Macos ==> crate::macos::laws::alignable(request)
}

/// Where address space has to be set aside to align a mapping, the mapping consists of whole pages.
pub open spec fn whole_pages(request: MapRequest, host: Host) -> bool {
    match host.os {
        Os::Linux => crate::linux::laws::whole_pages(request, host.pagesize),
        Os::Macos => crate::macos::laws::whole_pages(request, host.pagesize),
    }
}

/// A mapping that was made is the one that was asked for. Nothing but its own pages has been added
/// to what is mapped, unless part of a page had to be aligned or an unmapping failed: whatever was
/// set aside has been given back. No reply comes up that the operation could not go on from.
pub proof fn law_mapping_is_as_requested(
    request: MapRequest,
    host: Host,
    base: Set<int>,
    replies: Seq<SysReply>,
    lost: Set<int>,
)
    requires
        is_pow2(host.pagesize as int),
        request.fits_on(host),
        alignable(request, host),
        honest(MapOp::spec_start(request, host), replies, base, lost, host.pagesize as int),
    ensures
        accepted(MapOp::spec_start(request, host), replies),
        after(MapOp::spec_start(request, host), replies) matches Step::Done(Ok(mapping)) ==> {
            &&& as_requested(mapping, request, host, base)
            &&& whole_pages(request, host) && gives_back(
                MapOp::spec_start(request, host),
                replies,
            ) ==> space_after(
                MapOp::spec_start(request, host),
                replies,
                base,
                lost,
                host.pagesize as int,
            ) == base.union(held_mapping(mapping, host.pagesize as int))
        },
{
    let page = host.pagesize;
    match host.os {
        Os::Linux => {
            lemma_from_linux(LinuxMap::spec_start(request, page), replies, base, page as int, lost);
            crate::linux::laws::law_mapping_is_as_requested(request, page, base, replies, lost);
        },
        Os::Macos => {
            lemma_from_macos(MacosMap::spec_start(request), replies, base, page as int, lost);
            crate::macos::laws::law_mapping_is_as_requested(request, page, base, replies, lost);
        },
    }
}

/// What a mapping that fails may take away: what it was to go over at a fixed address.
pub open spec fn goes_over(request: MapRequest, host: Host) -> Set<int> {
    match host.os {
        Os::Linux => asked_for(request, host.pagesize as int),
        Os::Macos => crate::macos::laws::goes_over(request, host.pagesize as int),
    }
}

/// A mapping that could not be made leaves the address space as it was, unless it is one for which
/// Linux had set address space aside, or macOS could not give back what it had. Where it was to go
/// to a fixed address, what lay there may be gone.
pub proof fn law_failed_mapping_leaves_nothing(
    request: MapRequest,
    host: Host,
    base: Set<int>,
    replies: Seq<SysReply>,
    lost: Set<int>,
)
    requires
        is_pow2(host.pagesize as int),
        request.fits_on(host),
        host.os == Os::Linux && request.reserves(host.pagesize) ==> replies.len() > 0
            && replies[0] is Err,
        host.os == Os::Macos ==> gives_back(MapOp::spec_start(request, host), replies),
        honest(MapOp::spec_start(request, host), replies, base, lost, host.pagesize as int),
    ensures
        after(MapOp::spec_start(request, host), replies) matches Step::Done(Err(_)) ==> {
            let left = space_after(
                MapOp::spec_start(request, host),
                replies,
                base,
                lost,
                host.pagesize as int,
            );
            &&& spares(left, base, goes_over(request, host))
            &&& request.addr is None ==> left == base
        },
{
    let page = host.pagesize;
    match host.os {
        Os::Linux => {
            let step = LinuxMap::spec_start(request, page);
            lemma_from_linux(step, replies, base, page as int, lost);
            crate::linux::laws::law_failed_mapping_leaves_nothing(
                request,
                page,
                base,
                replies,
                lost,
            );
        },
        Os::Macos => {
            let step = MacosMap::spec_start(request);
            lemma_from_macos(step, replies, base, page as int, lost);
            crate::macos::laws::law_failed_mapping_leaves_nothing(
                request,
                page,
                base,
                replies,
                lost,
            );
        },
    }
}

/// A request that the host does not refuse succeeds where every call does.
pub proof fn law_mapping_succeeds(request: MapRequest, host: Host, replies: Seq<SysReply>)
    requires
        host.os == Os::Linux ==> acceptable(request, host.pagesize),
        replies.len() >= 7,
        forall|i: int| 0 <= i < replies.len() ==> (#[trigger] replies[i]) is Ok,
    ensures
        after(MapOp::spec_start(request, host), replies) matches Step::Done(Ok(_)),
{
    let page = host.pagesize;
    match host.os {
        Os::Linux => {
            lemma_from_linux(
                LinuxMap::spec_start(request, page),
                replies,
                Set::empty(),
                page as int,
                Set::empty(),
            );
            crate::linux::laws::law_mapping_succeeds(request, page, replies);
        },
        Os::Macos => {
            lemma_from_macos(
                MacosMap::spec_start(request),
                replies,
                Set::empty(),
                page as int,
                Set::empty(),
            );
            crate::macos::laws::law_mapping_succeeds(request, replies);
        },
    }
}

/// A mapping is over after at most seven replies, whatever they are.
pub proof fn law_mapping_ends(request: MapRequest, host: Host, replies: Seq<SysReply>)
    requires
        replies.len() >= 7,
    ensures
        after(MapOp::spec_start(request, host), replies) is Done,
{
    law_operation_ends(MapOp::spec_start(request, host), replies);
}

/// Unmapping undoes a mapping: nothing but what was mapped before is left.
pub proof fn law_unmapping_undoes_a_mapping(
    mapping: MemoryMapping,
    page: int,
    base: Set<int>,
    reply: SysReply,
    lost: Set<int>,
)
    requires
        base.disjoint(held_mapping(mapping, page)),
        reply is Ok,
    ensures
        effect(
            base.union(held_mapping(mapping, page)),
            (SysCall::Munmap { addr: mapping.spec_addr(), len: mapping.spec_size() }),
            reply,
            lost,
            page,
        ) == base,
{
    let pages = held_mapping(mapping, page);
    assert(base.union(pages).difference(pages) =~= base) by {
        assert forall|a: int| base.union(pages).difference(pages).contains(a) == base.contains(
            a,
        ) by {
            if base.contains(a) {
                assert(!pages.contains(a));
            }
        }
    }
}

/// A mapping whose file could not be kept is given back: where that succeeds, nothing but what was
/// mapped before is left.
pub proof fn law_failed_wrap_gives_the_mapping_back(
    mapping: MemoryMapping,
    descriptor: RawDescriptor,
    page: int,
    base: Set<int>,
    replies: Seq<SysReply>,
    lost: Set<int>,
)
    requires
        base.disjoint(held_mapping(mapping, page)),
        gives_back(MemoryMappingBuilder::spec_wrap(mapping, Some(descriptor)), replies),
    ensures
        after(MemoryMappingBuilder::spec_wrap(mapping, Some(descriptor)), replies) matches Step::Done(
            Err(_),
        ) ==> space_after(
            MemoryMappingBuilder::spec_wrap(mapping, Some(descriptor)),
            replies,
            base.union(held_mapping(mapping, page)),
            lost,
            page,
        ) == base,
{
    reveal_with_fuel(after::<WrapOp>, 3);
    reveal_with_fuel(gives_back::<WrapOp>, 3);
    reveal_with_fuel(space_after::<WrapOp>, 3);
    if replies.len() > 1 && replies[0] is Err {
        let rest = replies.skip(1);
        assert(rest[0] == replies[1]);
        let space = base.union(held_mapping(mapping, page));
        assert(space.difference(lost.intersect(Set::empty())) =~= space);
        law_unmapping_undoes_a_mapping(mapping, page, base, rest[0], lost);
    }
}

/// What a step of a mapping leads to is what the same step of a builder leads to.
pub(crate) proof fn lemma_from_map(
    step: Step<MapOp, MemoryMapping>,
    replies: Seq<SysReply>,
    space: Set<int>,
    page: int,
    lost: Set<int>,
)
    ensures
        after(from_map(step), replies) == from_map(after(step, replies)),
        accepted(from_map(step), replies) == accepted(step, replies),
        gives_back(from_map(step), replies) == gives_back(step, replies),
        space_after(from_map(step), replies, space, lost, page) == space_after(
            step,
            replies,
            space,
            lost,
            page,
        ),
        honest(from_map(step), replies, space, lost, page) == honest(
            step,
            replies,
            space,
            lost,
            page,
        ),
    decreases replies.len(),
{
    match step {
        Step::Await(op) if replies.len() > 0 => {
            lemma_from_map(
                op.spec_resume(replies[0]),
                replies.skip(1),
                effect(space, op.spec_call(), replies[0], lost, page),
                page,
                lost,
            );
        },
        _ => {},
    }
}

/// What a builder makes is the mapping that it describes, with no file kept. Nothing but its own
/// pages has been added to what is mapped, unless part of a page had to be aligned or an unmapping
/// failed.
pub proof fn law_built_mapping_is_as_described(
    builder: MemoryMappingBuilder,
    host: Host,
    base: Set<int>,
    replies: Seq<SysReply>,
    lost: Set<int>,
)
    requires
        is_pow2(host.pagesize as int),
        builder.spec_request().fits_on(host),
        alignable(builder.spec_request(), host),
        honest(
            from_map(MapOp::spec_start(builder.spec_request(), host)),
            replies,
            base,
            lost,
            host.pagesize as int,
        ),
    ensures
        accepted(from_map(MapOp::spec_start(builder.spec_request(), host)), replies),
        after(
            from_map(MapOp::spec_start(builder.spec_request(), host)),
            replies,
        ) matches Step::Done(Ok(built)) ==> {
            &&& built.file_descriptor is None
            &&& as_requested(built.mapping, builder.spec_request(), host, base)
            &&& whole_pages(builder.spec_request(), host) && gives_back(
                from_map(MapOp::spec_start(builder.spec_request(), host)),
                replies,
            ) ==> space_after(
                from_map(MapOp::spec_start(builder.spec_request(), host)),
                replies,
                base,
                lost,
                host.pagesize as int,
            ) == base.union(held_mapping(built.mapping, host.pagesize as int))
        },
{
    let request = builder.spec_request();
    lemma_from_map(MapOp::spec_start(request, host), replies, base, host.pagesize as int, lost);
    law_mapping_is_as_requested(request, host, base, replies, lost);
}

/// What a step of a Linux mapping leads to is what the same step of setting up an arena leads to.
pub(crate) proof fn lemma_new_from_linux(
    step: Step<LinuxMap, MemoryMapping>,
    replies: Seq<SysReply>,
    space: Set<int>,
    page: int,
    lost: Set<int>,
)
    ensures
        after(new_from_linux(step), replies) == new_from_linux(after(step, replies)),
        accepted(new_from_linux(step), replies) == accepted(step, replies),
        gives_back(new_from_linux(step), replies) == gives_back(step, replies),
        space_after(new_from_linux(step), replies, space, lost, page) == space_after(
            step,
            replies,
            space,
            lost,
            page,
        ),
        honest(new_from_linux(step), replies, space, lost, page) == honest(
            step,
            replies,
            space,
            lost,
            page,
        ),
    decreases replies.len(),
{
    match step {
        Step::Await(op) if replies.len() > 0 => {
            lemma_new_from_linux(
                op.spec_resume(replies[0]),
                replies.skip(1),
                effect(space, op.spec_call(), replies[0], lost, page),
                page,
                lost,
            );
        },
        _ => {},
    }
}

/// An arena that was set up has the size that was asked for and begins at a page, its pages were not
/// mapped before, and they are all that has been added to what is mapped.
pub proof fn law_new_arena_is_as_requested(
    host: Host,
    size: usize,
    base: Set<int>,
    replies: Seq<SysReply>,
    lost: Set<int>,
)
    requires
        is_pow2(host.pagesize as int),
        honest(MemoryMappingArena::spec_new(host, size), replies, base, lost, host.pagesize as int),
    ensures
        accepted(MemoryMappingArena::spec_new(host, size), replies),
        after(MemoryMappingArena::spec_new(host, size), replies) matches Step::Done(Ok(arena)) ==> {
            &&& arena.spec_size() == size > 0
            &&& arena.wf()
            &&& arena.spec_addr() as int % host.pagesize as int == 0
            &&& base.disjoint(held_arena(arena, host.pagesize as int))
            &&& space_after(
                MemoryMappingArena::spec_new(host, size),
                replies,
                base,
                lost,
                host.pagesize as int,
            ) == base.union(held_arena(arena, host.pagesize as int))
        },
{
    broadcast use MemoryMappingArena::lemma_spec_at;

    let page = host.pagesize;
    lemma_pow2_positive(page as int);
    match host.os {
        Os::Linux => {
            let request = spec_anonymous(None, size, None, Protection { read: true, write: false });
            let step = LinuxMap::spec_start(request, page);
            lemma_new_from_linux(step, replies, base, page as int, lost);
            lemma_nothing_to_give_back(step, request, page, replies);
            crate::linux::laws::law_mapping_is_as_requested(request, page, base, replies, lost);
        },
        Os::Macos => {
            reveal_with_fuel(after::<ArenaNew>, 2);
            reveal_with_fuel(accepted::<ArenaNew>, 2);
            reveal_with_fuel(honest::<ArenaNew>, 2);
            reveal_with_fuel(space_after::<ArenaNew>, 2);
            lemma_round_up(size as int, page as int);
        },
    }
}

/// Of all that is mapped, the call changes `size` bytes from `addr` on and nothing else: it maps them
/// anew, over what is there.
pub open spec fn changes_only(call: SysCall, addr: int, size: usize) -> bool {
    match call {
        SysCall::Mmap { addr: at, len, flags, .. } => flags.fixed && at == addr && len == size,
        SysCall::Munmap { .. } => false,
        _ => true,
    }
}

/// The pages of an arena.
pub open spec fn held_arena(arena: MemoryMappingArena, page: int) -> Set<int> {
    span(arena.spec_addr() as int, round_up(arena.spec_size() as int, page))
}

/// The step begins to change what is mapped at `offset` of an arena: memory is added, which only
/// Linux does without a file, or it is taken out.
pub open spec fn changes_arena(
    step: Step<ArenaChange, ()>,
    arena: MemoryMappingArena,
    host: Host,
    offset: usize,
    size: usize,
    prot: Protection,
    fd: RawDescriptor,
    fd_offset: u64,
) -> bool {
    ||| step == arena.spec_add_fd(host, offset, size, fd, fd_offset, prot)
    ||| step == arena.spec_remove(host, offset, size)
    ||| host.os == Os::Linux && step == arena.spec_try_add(host.pagesize, offset, size, prot, None)
}

spec fn arena_on_track(
    step: Step<ArenaChange, ()>,
    arena: MemoryMappingArena,
    offset: usize,
    size: usize,
) -> bool {
    match step {
        Step::Await(op) => {
            &&& includes_range(arena.spec_size(), offset, size)
            &&& match op {
                ArenaChange::Linux(LinuxMap::Sealing { request, place }) => placed_at(
                    request,
                    place,
                    arena.spec_addr() + offset,
                    size,
                ),
                ArenaChange::Linux(LinuxMap::Mapping { request, place, sealed }) => placed_at(
                    request,
                    place,
                    arena.spec_addr() + offset,
                    size,
                ),
                ArenaChange::Linux(LinuxMap::MarkingDontDump { .. }) => true,
                ArenaChange::Linux(LinuxMap::MarkingMergeable { .. }) => true,
                ArenaChange::Linux(_) => false,
                ArenaChange::Macos(Single { call }) => changes_only(
                    call,
                    arena.spec_addr() + offset,
                    size,
                ),
            }
        },
        Step::Done(_) => true,
    }
}

spec fn placed_at(request: MapRequest, place: Place, addr: int, size: usize) -> bool {
    &&& request.addr is Some
    &&& request.size == size
    &&& place.reserved is None
    &&& place.addr == addr
}

proof fn lemma_arena_run(
    step: Step<ArenaChange, ()>,
    arena: MemoryMappingArena,
    offset: usize,
    size: usize,
    replies: Seq<SysReply>,
)
    requires
        arena_on_track(step, arena, offset, size),
    ensures
        arena_on_track(after(step, replies), arena, offset, size),
    decreases replies.len(),
{
    match step {
        Step::Await(op) if replies.len() > 0 => {
            lemma_arena_run(op.spec_resume(replies[0]), arena, offset, size, replies.skip(1));
        },
        _ => {},
    }
}

/// Whatever is added to an arena or taken out of it, and whatever the replies are, every call keeps
/// to the range that was asked for, and that range lies within the arena. The rest of the arena, and
/// everything outside of it, stays as it is.
pub proof fn law_arena_changes_stay_within(
    step: Step<ArenaChange, ()>,
    arena: MemoryMappingArena,
    host: Host,
    offset: usize,
    size: usize,
    prot: Protection,
    fd: RawDescriptor,
    fd_offset: u64,
    replies: Seq<SysReply>,
)
    requires
        arena.wf(),
        changes_arena(step, arena, host, offset, size, prot, fd, fd_offset),
    ensures
        after(step, replies) matches Step::Await(op) ==> {
            &&& includes_range(arena.spec_size(), offset, size)
            &&& changes_only(op.spec_call(), arena.spec_addr() + offset, size)
        },
{
    lemma_arena_run(step, arena, offset, size, replies);
}

/// A range that reaches past the end of an arena is refused before any call is made.
pub proof fn law_arena_refuses_what_does_not_fit(
    step: Step<ArenaChange, ()>,
    arena: MemoryMappingArena,
    host: Host,
    offset: usize,
    size: usize,
    prot: Protection,
    fd: RawDescriptor,
    fd_offset: u64,
)
    requires
        arena.wf(),
        changes_arena(step, arena, host, offset, size, prot, fd, fd_offset),
        offset + size > arena.spec_size(),
    ensures
        step matches Step::Done(Err(_)),
        host.os == Os::Macos || offset % host.pagesize == 0 ==> step == Step::<ArenaChange, ()>::Done(
            Err(MmapError::InvalidAddress),
        ),
{
}

/// The pages of a range within an arena are pages of the arena.
proof fn lemma_placed_within(arena: MemoryMappingArena, offset: usize, size: usize, page: int)
    requires
        page > 0,
        offset as int % page == 0,
        includes_range(arena.spec_size(), offset, size),
    ensures
        span(arena.spec_addr() + offset, round_up(size as int, page)).subset_of(
            held_arena(arena, page),
        ),
{
    lemma_round_up_shift(offset as int, size as int, page);
    lemma_round_up_monotonic(offset + size, arena.spec_size() as int, page);
}

proof fn lemma_arena_space(
    step: Step<ArenaChange, ()>,
    arena: MemoryMappingArena,
    offset: usize,
    size: usize,
    replies: Seq<SysReply>,
    space: Set<int>,
    page: int,
    lost: Set<int>,
)
    requires
        page > 0,
        arena.spec_addr() as int % page == 0,
        arena_on_track(step, arena, offset, size),
        held_arena(arena, page).subset_of(space),
        honest(step, replies, space, lost, page),
    ensures
        arena_spared(
            after(step, replies),
            space_after(step, replies, space, lost, page),
            arena,
            offset,
            size,
            space,
            page,
        ),
    decreases replies.len(),
{
    match step {
        Step::Await(op) if replies.len() > 0 => {
            let call = op.spec_call();
            let then = effect(space, call, replies[0], lost, page);
            let next = op.spec_resume(replies[0]);
            if let (SysCall::Mmap { addr, .. }, Err(_)) = (call, replies[0]) {
                reveal_with_fuel(space_after::<ArenaChange>, 2);
                reveal_with_fuel(after::<ArenaChange>, 2);
                assert(next is Done);
            } else {
                assert(then =~= space) by {
                    if let SysCall::Mmap { addr, .. } = call {
                        lemma_mod_shift(arena.spec_addr() as int, offset as int, page);
                        lemma_placed_within(arena, offset, size, page);
                    }
                }
                lemma_arena_space(next, arena, offset, size, replies.skip(1), space, page, lost);
            }
        },
        _ => {},
    }
}

/// What is mapped at a step of a change is what was mapped before it began. Where the change failed,
/// part of its range may be gone.
pub open spec fn arena_spared(
    step: Step<ArenaChange, ()>,
    then: Set<int>,
    arena: MemoryMappingArena,
    offset: usize,
    size: usize,
    space: Set<int>,
    page: int,
) -> bool {
    if step matches Step::Done(Err(_)) {
        spares(then, space, span(arena.spec_addr() + offset, round_up(size as int, page)))
    } else {
        then == space
    }
}

/// The pages of an arena stay mapped while mappings come and go within it, and nothing else is
/// mapped or unmapped. A change that failed may leave part of its own range unmapped, and no more.
pub proof fn law_arena_stays_mapped(
    step: Step<ArenaChange, ()>,
    arena: MemoryMappingArena,
    host: Host,
    offset: usize,
    size: usize,
    prot: Protection,
    fd: RawDescriptor,
    fd_offset: u64,
    space: Set<int>,
    replies: Seq<SysReply>,
    lost: Set<int>,
)
    requires
        host.wf(),
        arena.wf(),
        arena.spec_addr() as int % host.pagesize as int == 0,
        held_arena(arena, host.pagesize as int).subset_of(space),
        changes_arena(step, arena, host, offset, size, prot, fd, fd_offset),
        honest(step, replies, space, lost, host.pagesize as int),
    ensures
        arena_spared(
            after(step, replies),
            space_after(step, replies, space, lost, host.pagesize as int),
            arena,
            offset,
            size,
            space,
            host.pagesize as int,
        ),
{
    lemma_arena_space(step, arena, offset, size, replies, space, host.pagesize as int, lost);
}

/// What is removed from an arena becomes what the arena was made of: the same protection, and the
/// same kind of memory.
pub proof fn law_removing_restores_the_arena(
    arena: MemoryMappingArena,
    host: Host,
    offset: usize,
    size: usize,
)
    requires
        host.wf(),
        arena.wf(),
    ensures
        arena.spec_remove(host, offset, size) matches Step::Await(removing) ==> (
        MemoryMappingArena::spec_new(host, arena.spec_size()) matches Step::Await(making) && (
        making.spec_call() matches SysCall::Mmap { prot, flags, fd, offset: o, .. } && (
        removing.spec_call() matches SysCall::Mmap {
            addr,
            len,
            prot: prot2,
            flags: flags2,
            fd: fd2,
            offset: o2,
        } && {
            &&& addr == (arena.spec_addr() + offset) as usize
            &&& len == size
            &&& prot2 == prot
            &&& flags2 == (MapFlags { fixed: true, ..flags })
            &&& fd2 == fd
            &&& o2 == o
        }))),
{
}

/// A builder that is told nothing but a size makes what [`MemoryMapping::new`] makes.
pub proof fn law_plain_builder_makes_a_plain_mapping(size: usize, host: Host)
    ensures
        ({
            let builder = MemoryMappingBuilder {
                descriptor: None,
                size,
                offset: None,
                align: None,
                protection: None,
            };
            from_map(MapOp::spec_start(builder.spec_request(), host)) == from_map(
                MapOp::spec_start(
                    spec_anonymous(None, size, None, Protection { read: true, write: true }),
                    host,
                ),
            )
        }),
{
}

/// Turning a mapping into an arena keeps the memory: where it begins and how many bytes it has.
pub proof fn law_arena_keeps_the_mapping(mapping: MemoryMapping)
    ensures
        MemoryMappingArena::spec_of(mapping).spec_addr() == mapping.spec_addr(),
        MemoryMappingArena::spec_of(mapping).spec_size() == mapping.spec_size(),
        mapping.wf() ==> MemoryMappingArena::spec_of(mapping).wf(),
{
    broadcast use MemoryMappingArena::lemma_spec_at;

}

/// A range is let through exactly where each of its bytes lies within the memory.
pub proof fn law_ranges_are_checked_byte_by_byte(size: usize, offset: usize, count: usize)
    requires
        count > 0,
    ensures
        includes_range(size, offset, count) <==> (forall|i: int|
            offset <= i < offset + count ==> #[trigger] in_memory(size, i)),
{
    if !includes_range(size, offset, count) {
        assert(!in_memory(size, offset + count - 1));
    }
}

/// The byte at `i` is one of the first `size`.
pub open spec fn in_memory(size: usize, i: int) -> bool {
    0 <= i < size
}

} // verus!
