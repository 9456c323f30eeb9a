//! What holds of every run of a Linux mapping, from its first call to its last.

use vstd::prelude::*;

use crate::address_space::{
    as_requested, asked_for, effect, gives_back, held_mapping, honest, keeps_promises, spares,
    space_after, span,
};
use crate::align::{
    is_pow2, lemma_mod_shift, lemma_mod_trans, lemma_pow2_divides, lemma_pow2_positive,
    lemma_round_up, lemma_round_up_monotonic, lemma_round_up_shift, round_up, wrapped,
};
use crate::linux::mmap::{spec_aligned_addr, LinuxMap, Place};
use crate::operation::{accepted, after, law_operation_ends, Host, Operation, Os, Step};
use crate::syscall::{SysCall, SysReply, NO_DESCRIPTOR};
use crate::unix::mmap::{MapRequest, MemoryMapping, Region};

verus! {

/// A Linux machine with pages of this size.
pub open spec fn linux(pagesize: usize) -> Host {
    Host { os: Os::Linux, pagesize }
}

/// The addresses that an operation holds at a step, beyond those that were mapped before it began.
pub open spec fn held(step: Step<LinuxMap, MemoryMapping>, page: int) -> Set<int> {
    match step {
        Step::Await(LinuxMap::Reserving { .. }) => Set::empty(),
        Step::Await(LinuxMap::Sealing { place, .. }) => held_place(place, page),
        Step::Await(LinuxMap::Mapping { place, .. }) => held_place(place, page),
        Step::Await(LinuxMap::TrimmingFront { mapping, front, back }) => span(
            front.addr as int,
            back.addr + round_up(back.len as int, page) - front.addr,
        ),
        Step::Await(LinuxMap::TrimmingBack { mapping, back }) => span(
            mapping.spec_addr() as int,
            back.addr + round_up(back.len as int, page) - mapping.spec_addr(),
        ),
        Step::Await(LinuxMap::MarkingDontDump { mapping }) => held_mapping(mapping, page),
        Step::Await(LinuxMap::MarkingMergeable { mapping }) => held_mapping(mapping, page),
        Step::Done(Ok(mapping)) => held_mapping(mapping, page),
        Step::Done(Err(_)) => Set::empty(),
    }
}

/// The addresses of what was set aside.
pub open spec fn held_place(place: Place, page: int) -> Set<int> {
    match place.reserved {
        Some(reserved) => span(reserved.addr as int, round_up(reserved.len as int, page)),
        None => Set::empty(),
    }
}

/// What was set aside holds an aligned place for the mapping, and was not mapped before.
spec fn place_ok(place: Place, request: MapRequest, page: usize, base: Set<int>) -> bool {
    let align = request.spec_align(page);
    match place.reserved {
        Some(reserved) => {
            &&& request.reserves(page)
            &&& reserved.len == request.size + align
            &&& reserved.addr as int % page as int == 0
            &&& reserved.addr + round_up(reserved.len as int, page as int) <= usize::MAX
            &&& reserved.addr <= place.addr < reserved.addr + align
            &&& place.addr as int % align as int == 0
            &&& place.addr as int % page as int == 0
            &&& base.disjoint(held_place(place, page as int))
        },
        None => align == 0 && place.addr == request.spec_addr_or_null() && !request.off_page(page),
    }
}

/// Where address space has to be set aside, the mapping consists of whole pages.
pub open spec fn whole_pages(request: MapRequest, page: usize) -> bool {
    request.reserves(page) ==> request.size as int % page as int == 0
}

/// What is still to be given back lies right behind the mapping and was not mapped before.
spec fn back_ok(mapping: MemoryMapping, back: Region, page: int, base: Set<int>) -> bool {
    &&& back.addr == mapping.spec_addr() + mapping.spec_size()
    &&& back.addr as int % page == 0
    &&& back.len > 0
    &&& back.end() <= usize::MAX
    &&& base.disjoint(span(back.addr as int, round_up(back.len as int, page)))
}

spec fn on_track(
    step: Step<LinuxMap, MemoryMapping>,
    request: MapRequest,
    page: usize,
    base: Set<int>,
) -> bool {
    match step {
        Step::Await(LinuxMap::Reserving { request: q, align }) => {
            &&& q == request
            &&& request.reserves(page)
            &&& request.fits(page)
            &&& align == request.spec_align(page)
        },
        Step::Await(LinuxMap::Sealing { request: q, place }) => q == request && place_ok(
            place,
            request,
            page,
            base,
        ),
        Step::Await(LinuxMap::Mapping { request: q, place, sealed }) => q == request && place_ok(
            place,
            request,
            page,
            base,
        ),
        Step::Await(LinuxMap::TrimmingFront { mapping, front, back }) => {
            &&& request.reserves(page)
            &&& as_requested(mapping, request, linux(page), base)
            &&& whole_pages(request, page) ==> {
                &&& back_ok(mapping, back, page as int, base)
                &&& front.len > 0
                &&& front.end() == mapping.spec_addr()
                &&& front.addr as int % page as int == 0
                &&& base.disjoint(span(front.addr as int, front.len as int))
            }
        },
        Step::Await(LinuxMap::TrimmingBack { mapping, back }) => {
            &&& request.reserves(page)
            &&& as_requested(mapping, request, linux(page), base)
            &&& whole_pages(request, page) ==> back_ok(mapping, back, page as int, base)
        },
        Step::Await(LinuxMap::MarkingDontDump { mapping }) => as_requested(
            mapping,
            request,
            linux(page),
            base,
        ),
        Step::Await(LinuxMap::MarkingMergeable { mapping }) => as_requested(
            mapping,
            request,
            linux(page),
            base,
        ),
        Step::Done(Ok(mapping)) => as_requested(mapping, request, linux(page), base),
        Step::Done(Err(_)) => true,
    }
}

/// Address space that was set aside holds an aligned place.
proof fn lemma_reserved(request: MapRequest, start: usize, page: usize, base: Set<int>)
    requires
        is_pow2(page as int),
        request.reserves(page),
        request.fits(page),
        start as int % page as int == 0,
        start + round_up(request.size + request.spec_align(page), page as int) <= usize::MAX,
        base.disjoint(
            span(
                start as int,
                round_up(request.size + request.spec_align(page), page as int),
            ),
        ),
    ensures
        ({
            let align = request.spec_align(page) as usize;
            place_ok(
                Place {
                    addr: spec_aligned_addr(start, align),
                    reserved: Some(Region { addr: start, len: (request.size + align) as usize }),
                },
                request,
                page,
                base,
            )
        }),
{
    let align = request.spec_align(page) as int;
    let p = page as int;
    lemma_pow2_positive(p);
    lemma_pow2_positive(align);
    lemma_round_up(request.size + align, p);
    vstd::arithmetic::div_mod::lemma_small_mod(
        (start + align - 1) as nat,
        (usize::MAX + 1) as nat,
    );
    assert(wrapped(start + align - 1) == start + align - 1);
    lemma_round_up(start as int, align);
    let addr = round_up(start as int, align);
    assert(addr == spec_aligned_addr(start, align as usize));
    if align < p {
        lemma_pow2_divides(align, p);
        lemma_mod_trans(start as int, p, align);
    } else {
        lemma_pow2_divides(p, align);
        lemma_mod_trans(addr, align, p);
    }
}

/// The books at a step: what is mapped is what was mapped before and what the operation holds. They
/// are kept as long as the mapping has not been made, and to the end where whole pages are aligned
/// and everything that is unmapped is `given` back. A mapping that failed with nothing set aside has
/// at most taken away what it was to go over.
spec fn balanced(
    step: Step<LinuxMap, MemoryMapping>,
    space: Set<int>,
    request: MapRequest,
    page: usize,
    base: Set<int>,
    given: bool,
) -> bool {
    match step {
        Step::Await(LinuxMap::Reserving { .. }) | Step::Await(LinuxMap::Sealing { .. })
        | Step::Await(LinuxMap::Mapping { .. }) => space == base.union(held(step, page as int)),
        Step::Done(Err(_)) => !request.reserves(page) ==> spares(
            space,
            base,
            asked_for(request, page as int),
        ),
        _ => given && whole_pages(request, page) ==> space == base.union(held(step, page as int)),
    }
}

/// The pages of a mapping lie within what was set aside for it.
proof fn lemma_pages_within(place: Place, request: MapRequest, page: usize, base: Set<int>)
    requires
        page > 0,
        place_ok(place, request, page, base),
        place.reserved is Some,
    ensures
        base.disjoint(span(place.addr as int, round_up(request.size as int, page as int))),
{
    let p = page as int;
    let reserved = place.reserved->0;
    let front = place.addr - reserved.addr;
    lemma_mod_shift(reserved.addr as int, front, p);
    lemma_round_up_shift(front, request.size as int, p);
    lemma_round_up_monotonic(front + request.size, reserved.len as int, p);
    let pages = span(place.addr as int, round_up(request.size as int, p));
    assert forall|a: int| pages.contains(a) implies !(#[trigger] base.contains(a)) by {
        assert(held_place(place, p).contains(a));
    }
}

/// What was set aside for whole pages ends with the last page behind the mapping.
proof fn lemma_whole_place(place: Place, request: MapRequest, page: usize, base: Set<int>)
    requires
        is_pow2(page as int),
        place_ok(place, request, page, base),
        place.reserved is Some,
        request.size as int % page as int == 0,
    ensures
        ({
            let p = page as int;
            let reserved = place.reserved->0;
            let front = LinuxMap::spec_front(reserved, place.addr);
            let back = LinuxMap::spec_back(reserved, place.addr, request.size);
            &&& held_place(place, p) == span(
                reserved.addr as int,
                front.len + request.size + round_up(back.len as int, p),
            )
            &&& round_up(request.size as int, p) == request.size
            &&& back_ok(MemoryMapping::spec_at(place.addr, request.size), back, p, base)
            &&& round_up(back.len as int, p) >= back.len
            &&& base.disjoint(span(front.addr as int, front.len as int))
        }),
{
    broadcast use MemoryMapping::lemma_spec_at;

    let p = page as int;
    lemma_pow2_positive(p);
    let reserved = place.reserved->0;
    let addr = place.addr;
    let size = request.size;
    let front = LinuxMap::spec_front(reserved, addr);
    let back = LinuxMap::spec_back(reserved, addr, size);
    lemma_round_up(size as int, p);
    lemma_round_up(reserved.len as int, p);
    lemma_round_up(back.len as int, p);
    lemma_mod_shift(addr as int, size as int, p);
    lemma_mod_shift(reserved.addr as int, front.len as int, p);
    lemma_mod_shift(front.len as int, size as int, p);
    lemma_round_up_shift(front.len + size, back.len as int, p);
    assert(reserved.len == front.len + size + back.len);
    let behind = span(back.addr as int, round_up(back.len as int, p));
    assert(base.disjoint(behind)) by {
        assert forall|a: int| behind.contains(a) implies !(#[trigger] base.contains(a)) by {
            assert(held_place(place, p).contains(a));
        }
    }
    let before = span(front.addr as int, front.len as int);
    assert(base.disjoint(before)) by {
        assert forall|a: int| before.contains(a) implies !(#[trigger] base.contains(a)) by {
            assert(held_place(place, p).contains(a));
        }
    }
}

/// One reply keeps the books.
proof fn lemma_step(
    op: LinuxMap,
    reply: SysReply,
    space: Set<int>,
    request: MapRequest,
    page: usize,
    base: Set<int>,
    lost: Set<int>,
    given: bool,
)
    requires
        is_pow2(page as int),
        given && op.spec_call() is Munmap ==> reply is Ok,
        on_track(Step::Await(op), request, page, base),
        balanced(Step::Await(op), space, request, page, base, given),
        keeps_promises(space, op.spec_call(), reply, page as int),
    ensures
        op.spec_accepts(reply),
        on_track(op.spec_resume(reply), request, page, base),
        balanced(
            op.spec_resume(reply),
            effect(space, op.spec_call(), reply, lost, page as int),
            request,
            page,
            base,
            given,
        ),
{
    broadcast use MemoryMapping::lemma_spec_at;

    let p = page as int;
    lemma_pow2_positive(p);
    let next = op.spec_resume(reply);
    let space2 = effect(space, op.spec_call(), reply, lost, p);
    match op {
        LinuxMap::Reserving { request: q, align } => {
            if let Ok(start) = reply {
                assert(span(start as int, round_up(q.size + align, p)).disjoint(space));
                assert(space =~= base);
                assert(base.disjoint(span(start as int, round_up(q.size + align, p))));
                lemma_reserved(request, start, page, base);
                if !(next matches Step::Done(Err(_))) {
                    assert(space2 =~= base.union(held(next, p)));
                }
            }
        },
        LinuxMap::Sealing { request: q, place } => {
            assert(space2 =~= base.union(held(next, p)));
        },
        LinuxMap::Mapping { request: q, place, sealed } => {
            if place.reserved is None {
                assert(space =~= base);
            }
            if let Ok(addr) = reply {
                lemma_round_up(q.size as int, p);
                match place.reserved {
                    Some(reserved) => {
                        assert(addr == place.addr);
                        lemma_round_up(reserved.len as int, p);
                        lemma_pages_within(place, request, page, base);
                        let mapping = MemoryMapping::spec_at(addr, q.size);
                        assert(as_requested(mapping, request, linux(page), base));
                        if whole_pages(request, page) {
                            lemma_whole_place(place, request, page, base);
                            assert(space2 =~= base.union(held(next, p)));
                        }
                    },
                    None => {
                        let mapping = MemoryMapping::spec_at(addr, q.size);
                        if request.addr is None {
                            assert(span(addr as int, round_up(q.size as int, p)).disjoint(space));
                            assert(base.disjoint(held_mapping(mapping, p)));
                        }
                        assert(as_requested(mapping, request, linux(page), base));
                        assert(space2 =~= base.union(held(next, p)));
                    },
                }
            }
        },
        LinuxMap::TrimmingFront { mapping, front, back } => {
            if given && whole_pages(request, page) {
                lemma_mod_shift(front.addr as int, front.len as int, p);
                lemma_round_up(front.len as int, p);
                lemma_round_up(back.len as int, p);
                lemma_round_up(request.size as int, p);
                assert(reply is Ok);
                assert(space2 =~= base.union(held(next, p))) by {
                    assert forall|a: int| space2.contains(a) == base.union(
                        held(next, p),
                    ).contains(a) by {
                        if base.contains(a) {
                            assert(!span(front.addr as int, front.len as int).contains(a));
                        }
                    }
                }
            }
        },
        LinuxMap::TrimmingBack { mapping, back } => {
            if given && whole_pages(request, page) {
                lemma_round_up(back.len as int, p);
                lemma_round_up(request.size as int, p);
                assert(reply is Ok);
                assert(space2 =~= base.union(held(next, p))) by {
                    assert forall|a: int| space2.contains(a) == base.union(
                        held(next, p),
                    ).contains(a) by {
                        if base.contains(a) {
                            let pages = span(back.addr as int, round_up(back.len as int, p));
                            assert(!pages.contains(a));
                        }
                    }
                }
            }
        },
        LinuxMap::MarkingDontDump { .. } | LinuxMap::MarkingMergeable { .. } => {
            assert(space2 =~= space);
        },
    }
}

/// A run keeps the books from its first reply to its last.
proof fn lemma_run(
    step: Step<LinuxMap, MemoryMapping>,
    replies: Seq<SysReply>,
    space: Set<int>,
    request: MapRequest,
    page: usize,
    base: Set<int>,
    lost: Set<int>,
    given: bool,
)
    requires
        is_pow2(page as int),
        given ==> gives_back(step, replies),
        on_track(step, request, page, base),
        balanced(step, space, request, page, base, given),
        honest(step, replies, space, lost, page as int),
    ensures
        accepted(step, replies),
        on_track(after(step, replies), request, page, base),
        balanced(
            after(step, replies),
            space_after(step, replies, space, lost, page as int),
            request,
            page,
            base,
            given,
        ),
    decreases replies.len(),
{
    match step {
        Step::Await(op) if replies.len() > 0 => {
            lemma_step(op, replies[0], space, request, page, base, lost, given);
            lemma_run(
                op.spec_resume(replies[0]),
                replies.skip(1),
                effect(space, op.spec_call(), replies[0], lost, page as int),
                request,
                page,
                base,
                lost,
                given,
            );
        },
        _ => {},
    }
}

/// A mapping that was made is the one that was asked for. Nothing but its own pages has been added
/// to what is mapped, unless part of a page had to be aligned or an unmapping failed: whatever was
/// set aside has been given back. No reply comes up that the operation could not go on from.
pub proof fn law_mapping_is_as_requested(
    request: MapRequest,
    page: usize,
    base: Set<int>,
    replies: Seq<SysReply>,
    lost: Set<int>,
)
    requires
        is_pow2(page as int),
        request.fits(page),
        honest(LinuxMap::spec_start(request, page), replies, base, lost, page as int),
    ensures
        accepted(LinuxMap::spec_start(request, page), replies),
        after(LinuxMap::spec_start(request, page), replies) matches Step::Done(Ok(mapping)) ==> {
            &&& as_requested(mapping, request, linux(page), base)
            &&& whole_pages(request, page) && gives_back(
                LinuxMap::spec_start(request, page),
                replies,
            ) ==> space_after(
                LinuxMap::spec_start(request, page),
                replies,
                base,
                lost,
                page as int,
            ) == base.union(held_mapping(mapping, page as int))
        },
{
    let step = LinuxMap::spec_start(request, page);
    lemma_pow2_positive(page as int);
    assert(base.union(held(step, page as int)) =~= base);
    lemma_run(step, replies, base, request, page, base, lost, gives_back(step, replies));
}

/// A mapping that could not be made leaves the address space as it was, unless address space had
/// been set aside for it. Where it was to go to a fixed address, what lay there may be gone.
pub proof fn law_failed_mapping_leaves_nothing(
    request: MapRequest,
    page: usize,
    base: Set<int>,
    replies: Seq<SysReply>,
    lost: Set<int>,
)
    requires
        is_pow2(page as int),
        request.fits(page),
        request.reserves(page) ==> replies.len() > 0 && replies[0] is Err,
        honest(LinuxMap::spec_start(request, page), replies, base, lost, page as int),
    ensures
        after(LinuxMap::spec_start(request, page), replies) matches Step::Done(Err(_)) ==> {
            let left = space_after(
                LinuxMap::spec_start(request, page),
                replies,
                base,
                lost,
                page as int,
            );
            &&& spares(left, base, asked_for(request, page as int))
            &&& request.addr is None ==> left == base
        },
{
    let step = LinuxMap::spec_start(request, page);
    lemma_pow2_positive(page as int);
    assert(base.union(held(step, page as int)) =~= base);
    if request.reserves(page) {
        reveal_with_fuel(space_after::<LinuxMap>, 2);
        assert(step matches Step::Await(op) && op is Reserving);
        assert(base.difference(lost.intersect(Set::empty())) =~= base);
    } else {
        lemma_run(step, replies, base, request, page, base, lost, false);
        if request.addr is None && after(step, replies) is Done {
            let left = space_after(step, replies, base, lost, page as int);
            assert(spares(left, base, Set::empty()) ==> left =~= base);
        }
    }
}

/// A mapping for which nothing is set aside unmaps nothing.
pub proof fn lemma_nothing_to_give_back(
    step: Step<LinuxMap, MemoryMapping>,
    request: MapRequest,
    page: usize,
    replies: Seq<SysReply>,
)
    requires
        !request.reserves(page),
        step == LinuxMap::spec_start(request, page) || sets_nothing_aside(step),
    ensures
        gives_back(step, replies),
    decreases replies.len(),
{
    match step {
        Step::Await(op) if replies.len() > 0 => {
            lemma_nothing_to_give_back(
                op.spec_resume(replies[0]),
                request,
                page,
                replies.skip(1),
            );
        },
        _ => {},
    }
}

/// Nothing has been set aside at this step, and nothing will be.
pub open spec fn sets_nothing_aside(step: Step<LinuxMap, MemoryMapping>) -> bool {
    match step {
        Step::Await(LinuxMap::Sealing { place, .. }) => place.reserved is None,
        Step::Await(LinuxMap::Mapping { place, .. }) => place.reserved is None,
        Step::Await(LinuxMap::MarkingDontDump { .. }) => true,
        Step::Await(LinuxMap::MarkingMergeable { .. }) => true,
        Step::Await(_) => false,
        Step::Done(_) => true,
    }
}

/// The request is one that is not refused: its address is that of a page, its alignment is zero or a
/// power of two without an address, and its file offset is one that a file can have.
pub open spec fn acceptable(request: MapRequest, page: usize) -> bool {
    &&& !request.off_page(page)
    &&& request.spec_align(page) == 0 || request.reserves(page)
    &&& request.offset_ok()
}

spec fn unrefused(step: Step<LinuxMap, MemoryMapping>) -> bool {
    match step {
        Step::Await(LinuxMap::Reserving { request, align }) => request.offset_ok(),
        Step::Await(_) => true,
        Step::Done(result) => result is Ok,
    }
}

proof fn lemma_unrefused(step: Step<LinuxMap, MemoryMapping>, replies: Seq<SysReply>)
    requires
        unrefused(step),
        forall|i: int| 0 <= i < replies.len() ==> (#[trigger] replies[i]) is Ok,
    ensures
        unrefused(after(step, replies)),
    decreases replies.len(),
{
    match step {
        Step::Await(op) if replies.len() > 0 => {
            let rest = replies.skip(1);
            assert forall|i: int| 0 <= i < rest.len() implies (#[trigger] rest[i]) is Ok by {
                assert(rest[i] == replies[i + 1]);
            }
            assert(replies[0] is Ok);
            lemma_unrefused(op.spec_resume(replies[0]), rest);
        },
        _ => {},
    }
}

/// A request that is not refused succeeds where every call does.
pub proof fn law_mapping_succeeds(request: MapRequest, page: usize, replies: Seq<SysReply>)
    requires
        acceptable(request, page),
        replies.len() >= 7,
        forall|i: int| 0 <= i < replies.len() ==> (#[trigger] replies[i]) is Ok,
    ensures
        after(LinuxMap::spec_start(request, page), replies) matches Step::Done(Ok(_)),
{
    lemma_unrefused(LinuxMap::spec_start(request, page), replies);
    law_mapping_ends(request, page, replies);
}

/// A mapping is over after at most seven replies, whatever they are.
pub proof fn law_mapping_ends(request: MapRequest, page: usize, replies: Seq<SysReply>)
    requires
        replies.len() >= 7,
    ensures
        after(LinuxMap::spec_start(request, page), replies) is Done,
{
    law_operation_ends(LinuxMap::spec_start(request, page), replies);
}

/// Every mapping that is made is either shared or private, and it is private exactly where address
/// space is set aside or the file is sealed against writing. It goes over what is there only where
/// the caller gave the address or the operation had set it aside.
pub proof fn law_mapping_flags(op: LinuxMap)
    requires
        op.wf(),
    ensures
        op.spec_call() matches SysCall::Mmap { addr, flags, fd, .. } ==> {
            &&& flags.shared != flags.private
            &&& flags.private == (op is Reserving || op matches LinuxMap::Mapping {
                sealed: true,
                ..
            })
            &&& flags.anonymous ==> fd == NO_DESCRIPTOR
            &&& flags.fixed ==> (op matches LinuxMap::Mapping { request, place, .. } && (
            request.addr is Some || place.reserved is Some))
        },
{
}

} // verus!
