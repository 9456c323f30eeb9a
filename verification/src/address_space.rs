//! What the calls of an operation do to the address space of the process.
//!
//! The address space is the set of addresses that are mapped. A call that succeeds changes it as
//! `mmap(2)` and `munmap(2)` say: whole pages come and go. A call that fails may have unmapped part of
//! the pages that it was to map over or to unmap; which ones, the laws leave open. What the manual
//! pages promise of a reply is [`keeps_promises`]. They do not promise that memory can be unmapped:
//! a law that needs it says so with [`gives_back`].

use vstd::prelude::*;

use crate::align::round_up;
use crate::macos::mmap::spec_align;
use crate::operation::{Host, Operation, Os, Step};
use crate::syscall::{SysCall, SysReply};
use crate::unix::mmap::{MapRequest, MemoryMapping};

verus! {

/// The addresses from `start` up to `start + len`.
pub open spec fn span(start: int, len: int) -> Set<int> {
    Set::new(|addr: int| start <= addr < start + len)
}

/// The pages that a call maps over or unmaps. A call on an address that is not that of a page is
/// refused as it stands.
pub open spec fn at_stake(call: SysCall, page: int) -> Set<int> {
    match call {
        SysCall::Mmap { addr, len, flags, .. } if flags.fixed && addr as int % page == 0 => span(
            addr as int,
            round_up(len as int, page),
        ),
        SysCall::Munmap { addr, len } if addr as int % page == 0 => span(
            addr as int,
            round_up(len as int, page),
        ),
        _ => Set::empty(),
    }
}

/// The addresses that are mapped once a call has been replied to. A call that failed has taken away
/// what is `lost` of the pages at stake.
pub open spec fn effect(
    space: Set<int>,
    call: SysCall,
    reply: SysReply,
    lost: Set<int>,
    page: int,
) -> Set<int> {
    match (call, reply) {
        (SysCall::Mmap { len, .. }, Ok(at)) => space.union(
            span(at as int, round_up(len as int, page)),
        ),
        (SysCall::Munmap { addr, len }, Ok(_)) => space.difference(
            span(addr as int, round_up(len as int, page)),
        ),
        (_, Err(_)) => space.difference(lost.intersect(at_stake(call, page))),
        _ => space,
    }
}

/// The reply is one that the manual pages allow. A mapping is never empty, begins at a page and lies
/// within the address space; it goes exactly to a fixed address, and otherwise to addresses that
/// were not mapped.
pub open spec fn keeps_promises(
    space: Set<int>,
    call: SysCall,
    reply: SysReply,
    page: int,
) -> bool {
    match call {
        SysCall::Mmap { addr, len, flags, .. } => reply matches Ok(at) ==> {
            &&& len > 0
            &&& at as int % page == 0
            &&& at + round_up(len as int, page) <= usize::MAX
            &&& if flags.fixed {
                at == addr
            } else {
                span(at as int, round_up(len as int, page)).disjoint(space)
            }
        },
        _ => true,
    }
}

/// Everything that was mapped still is, but for what lay where the operation was to map over it; and
/// nothing else is.
pub open spec fn spares(space: Set<int>, base: Set<int>, over: Set<int>) -> bool {
    &&& space.subset_of(base)
    &&& base.difference(over).subset_of(space)
}

/// The pages that a mapping goes over where it is made at the address that was asked for.
pub open spec fn asked_for(request: MapRequest, page: int) -> Set<int> {
    match request.addr {
        Some(addr) => span(addr as int, round_up(request.size as int, page)),
        None => Set::empty(),
    }
}

/// No alignment stands in the way of the address that was asked for: there is none, or on Linux none
/// beyond that of a page.
pub open spec fn plain(request: MapRequest, host: Host) -> bool {
    match host.os {
        Os::Linux => request.spec_align(host.pagesize) == 0,
        Os::Macos => spec_align(request) == 0,
    }
}

/// The addresses of the pages of a mapping.
pub open spec fn held_mapping(mapping: MemoryMapping, page: int) -> Set<int> {
    span(mapping.spec_addr() as int, round_up(mapping.spec_size() as int, page))
}

/// The mapping is the one that was asked for, and not an empty one: its size, a multiple of its
/// alignment, its address where one was given and no alignment stands in the way, and nothing that
/// was mapped before where the place was left open.
pub open spec fn as_requested(
    mapping: MemoryMapping,
    request: MapRequest,
    host: Host,
    base: Set<int>,
) -> bool {
    let page = host.pagesize as int;
    &&& mapping.spec_size() == request.size > 0
    &&& mapping.wf()
    &&& mapping.spec_addr() as int % page == 0
    &&& request.align matches Some(align) ==> align > 0 ==> mapping.spec_addr() as int % align as int
        == 0
    &&& plain(request, host) ==> (request.addr matches Some(addr) ==> mapping.spec_addr() == addr)
    &&& request.addr is None ==> base.disjoint(held_mapping(mapping, page))
}

/// The addresses that are mapped once an operation has had its replies.
pub open spec fn space_after<O: Operation>(
    step: Step<O, O::Output>,
    replies: Seq<SysReply>,
    space: Set<int>,
    lost: Set<int>,
    page: int,
) -> Set<int>
    decreases replies.len(),
{
    match step {
        Step::Await(op) if replies.len() > 0 => space_after(
            op.spec_resume(replies[0]),
            replies.skip(1),
            effect(space, op.spec_call(), replies[0], lost, page),
            lost,
            page,
        ),
        _ => space,
    }
}

/// Every reply is one that the manual pages allow.
pub open spec fn honest<O: Operation>(
    step: Step<O, O::Output>,
    replies: Seq<SysReply>,
    space: Set<int>,
    lost: Set<int>,
    page: int,
) -> bool
    decreases replies.len(),
{
    match step {
        Step::Await(op) if replies.len() > 0 => {
            &&& keeps_promises(space, op.spec_call(), replies[0], page)
            &&& honest(
                op.spec_resume(replies[0]),
                replies.skip(1),
                effect(space, op.spec_call(), replies[0], lost, page),
                lost,
                page,
            )
        },
        _ => true,
    }
}

/// Everything that an operation unmaps is unmapped: no `munmap` fails.
pub open spec fn gives_back<O: Operation>(step: Step<O, O::Output>, replies: Seq<SysReply>) -> bool
    decreases replies.len(),
{
    match step {
        Step::Await(op) if replies.len() > 0 => {
            &&& op.spec_call() is Munmap ==> replies[0] is Ok
            &&& gives_back(op.spec_resume(replies[0]), replies.skip(1))
        },
        _ => true,
    }
}

} // verus!
