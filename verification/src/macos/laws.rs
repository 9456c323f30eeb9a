//! What holds of every run of a macOS mapping, from its first call to its last.

use vstd::prelude::*;

use crate::address_space::{
    as_requested, asked_for, at_stake, effect, gives_back, held_mapping, honest, keeps_promises, spares,
    space_after, span,
};
use crate::align::{
    is_pow2, lemma_mask_rounds_down, lemma_mod_shift, lemma_mod_trans, lemma_pow2_divides,
    lemma_pow2_positive, lemma_round_up, lemma_round_up_monotonic, lemma_round_up_shift, round_up,
};
use crate::macos::mmap::{fits, spec_align, spec_masked_addr, MacosMap};
use crate::operation::{accepted, after, law_operation_ends, Host, Operation, Os, Step};
use crate::syscall::SysReply;
use crate::unix::mmap::{MapRequest, MemoryMapping, Region};

verus! {

/// A macOS machine with pages of this size.
pub open spec fn macos(pagesize: usize) -> Host {
    Host { os: Os::Macos, pagesize }
}

/// The addresses that an operation holds at a step, beyond those that were mapped before it began.
pub open spec fn held(step: Step<MacosMap, MemoryMapping>, page: int) -> Set<int> {
    match step {
        Step::Await(MacosMap::Aligning { request, align, start, addr }) => span(
            start as int,
            round_up(request.size + align, page),
        ),
        Step::Await(MacosMap::Abandoning { reserved, errno }) => span(
            reserved.addr as int,
            round_up(reserved.len as int, page),
        ),
        Step::Await(MacosMap::TrimmingFront { mapping, front, back }) => span(
            front.addr as int,
            back.addr + round_up(back.len as int, page) - front.addr,
        ),
        Step::Await(MacosMap::TrimmingBack { mapping, back }) => span(
            mapping.spec_addr() as int,
            back.addr + round_up(back.len as int, page) - mapping.spec_addr(),
        ),
        Step::Done(Ok(mapping)) => held_mapping(mapping, page),
        _ => Set::empty(),
    }
}

/// The alignment is a power of two, where there is one.
pub open spec fn alignable(request: MapRequest) -> bool {
    spec_align(request) > 0 ==> is_pow2(spec_align(request) as int)
}

/// Where there is an alignment, the mapping consists of whole pages.
pub open spec fn whole_pages(request: MapRequest, page: usize) -> bool {
    spec_align(request) > 0 ==> request.size as int % page as int == 0
}

spec fn on_track(
    step: Step<MacosMap, MemoryMapping>,
    request: MapRequest,
    page: usize,
    base: Set<int>,
) -> bool {
    let p = page as int;
    let a = spec_align(request);
    match step {
        Step::Await(MacosMap::Reserving { request: q, align }) => {
            &&& q == request
            &&& fits(request)
            &&& align == a
            &&& a > 0
        },
        Step::Await(MacosMap::Aligning { request: q, align, start, addr }) => {
            &&& q == request
            &&& fits(request)
            &&& align == a
            &&& a > 0
            &&& start <= addr < start + align
            &&& start as int % p == 0
            &&& start + round_up(request.size + align, p) <= usize::MAX
            &&& base.disjoint(span(start as int, round_up(request.size + align, p)))
            &&& alignable(request) ==> addr as int % align as int == 0 && addr as int % p == 0
        },
        Step::Await(MacosMap::Abandoning { reserved, errno }) => {
            &&& reserved.addr as int % p == 0
            &&& reserved.len > 0
            &&& base.disjoint(span(reserved.addr as int, round_up(reserved.len as int, p)))
        },
        Step::Await(MacosMap::TrimmingFront { mapping, front, back }) => alignable(request)
            ==> {
            &&& a > 0
            &&& as_requested(mapping, request, macos(page), base)
            &&& whole_pages(request, page) ==> {
                &&& back_ok(mapping, back, p, base)
                &&& front.len > 0
                &&& front.end() == mapping.spec_addr()
                &&& front.addr as int % p == 0
                &&& base.disjoint(span(front.addr as int, front.len as int))
            }
        },
        Step::Await(MacosMap::TrimmingBack { mapping, back }) => alignable(request) ==> {
            &&& a > 0
            &&& as_requested(mapping, request, macos(page), base)
            &&& whole_pages(request, page) ==> back_ok(mapping, back, p, base)
        },
        Step::Await(MacosMap::Mapping { request: q }) => q == request && a == 0,
        Step::Done(Ok(mapping)) => alignable(request) ==> as_requested(
            mapping,
            request,
            macos(page),
            base,
        ),
        Step::Done(Err(_)) => true,
    }
}

/// What is still to be given back lies right behind the mapping and was not mapped before.
spec fn back_ok(mapping: MemoryMapping, back: Region, page: int, base: Set<int>) -> bool {
    &&& back.addr == mapping.spec_addr() + mapping.spec_size()
    &&& back.addr as int % page == 0
    &&& back.len > 0
    &&& base.disjoint(span(back.addr as int, round_up(back.len as int, page)))
}

/// Where the alignment is a power of two, a mapping goes to the first multiple of it within what was
/// set aside.
pub proof fn lemma_masked_is_aligned(start: usize, align: usize, page: usize)
    requires
        is_pow2(align as int),
        is_pow2(page as int),
        start as int % page as int == 0,
        start + align <= usize::MAX,
    ensures
        spec_masked_addr(start, align) as int == round_up(start as int, align as int),
        spec_masked_addr(start, align) as int % align as int == 0,
        spec_masked_addr(start, align) as int % page as int == 0,
{
    let a = align as int;
    let p = page as int;
    lemma_pow2_positive(a);
    lemma_pow2_positive(p);
    lemma_mask_rounds_down((start + align - 1) as u64, align as u64);
    lemma_round_up(start as int, a);
    let addr = round_up(start as int, a);
    if a < p {
        lemma_pow2_divides(a, p);
        lemma_mod_trans(start as int, p, a);
    } else {
        lemma_pow2_divides(p, a);
        lemma_mod_trans(addr, a, p);
    }
}

/// What a mapping that fails may take away: what it was to go over at a fixed address. An aligned
/// mapping goes over nothing but what was set aside for it.
pub open spec fn goes_over(request: MapRequest, page: int) -> Set<int> {
    if spec_align(request) > 0 {
        Set::empty()
    } else {
        asked_for(request, page)
    }
}

/// The books at a step: what is mapped is what was mapped before and what the operation holds. They
/// are kept as long as the mapping has not been made, and to the end where whole pages are aligned to
/// a power of two and everything that is unmapped is `given` back. A mapping that failed may have
/// taken part of what is held, and at most what it was to go over beyond that.
spec fn balanced(
    step: Step<MacosMap, MemoryMapping>,
    space: Set<int>,
    request: MapRequest,
    page: usize,
    base: Set<int>,
    given: bool,
) -> bool {
    match step {
        Step::Await(MacosMap::TrimmingFront { .. }) | Step::Await(MacosMap::TrimmingBack { .. })
        | Step::Done(Ok(_)) => given && alignable(request) && whole_pages(request, page) ==> space
            == base.union(held(step, page as int)),
        Step::Await(MacosMap::Abandoning { .. }) => spares(
            space,
            base.union(held(step, page as int)),
            held(step, page as int),
        ),
        Step::Done(Err(_)) => given ==> spares(space, base, goes_over(request, page as int)),
        _ => space == base.union(held(step, page as int)),
    }
}

/// One reply keeps the books.
proof fn lemma_step(
    op: MacosMap,
    reply: SysReply,
    space: Set<int>,
    request: MapRequest,
    page: usize,
    base: Set<int>,
    lost: Set<int>,
    given: bool,
)
    requires
        is_pow2(page as int),
        given && op.spec_call() is Munmap ==> reply is Ok,
        on_track(Step::Await(op), request, page, base),
        balanced(Step::Await(op), space, request, page, base, given),
        keeps_promises(space, op.spec_call(), reply, page as int),
    ensures
        op.spec_accepts(reply),
        on_track(op.spec_resume(reply), request, page, base),
        balanced(
            op.spec_resume(reply),
            effect(space, op.spec_call(), reply, lost, page as int),
            request,
            page,
            base,
            given,
        ),
{
    broadcast use MemoryMapping::lemma_spec_at;

    let p = page as int;
    lemma_pow2_positive(p);
    let next = op.spec_resume(reply);
    let space2 = effect(space, op.spec_call(), reply, lost, p);
    match op {
        MacosMap::Reserving { request: q, align } => {
            assert(space =~= base);
            if let Ok(start) = reply {
                lemma_round_up(q.size + align, p);
                assert(base.disjoint(span(start as int, round_up(q.size + align, p))));
                let sum = (start + align - 1) as u64;
                crate::align::lemma_mask_bounds(sum, (align - 1) as u64);
                if alignable(request) {
                    lemma_masked_is_aligned(start, align, page);
                }
                assert(space2 =~= base.union(held(next, p)));
            } else {
                assert(space2 =~= base);
            }
        },
        MacosMap::Aligning { request: q, align, start, addr } => {
            lemma_round_up(q.size as int, p);
            lemma_round_up(q.size + align, p);
            if let Ok(_) = reply {
                if alignable(request) {
                    let mapping = MemoryMapping::spec_at(addr, q.size);
                    let front = MacosMap::spec_front(start, addr);
                    let back = MacosMap::spec_back(start, align, addr, q.size);
                    let kept = held(Step::Await(op), p);
                    lemma_mod_shift(start as int, front.len as int, p);
                    lemma_round_up_shift(front.len as int, q.size as int, p);
                    lemma_round_up_monotonic(front.len + q.size, q.size + align, p);
                    assert(base.disjoint(held_mapping(mapping, p))) by {
                        assert forall|x: int| held_mapping(mapping, p).contains(x) implies !(
                        #[trigger] base.contains(x)) by {
                            assert(kept.contains(x));
                        }
                    }
                    assert(as_requested(mapping, request, macos(page), base));
                    if whole_pages(request, page) {
                        lemma_round_up(back.len as int, p);
                        lemma_mod_shift(addr as int, q.size as int, p);
                        lemma_mod_shift(front.len as int, q.size as int, p);
                        lemma_round_up_shift(front.len + q.size, back.len as int, p);
                        assert(q.size + align == front.len + q.size + back.len);
                        assert(kept == span(
                            start as int,
                            front.len + q.size + round_up(back.len as int, p),
                        ));
                        let behind = span(back.addr as int, round_up(back.len as int, p));
                        assert(base.disjoint(behind)) by {
                            assert forall|x: int| behind.contains(x) implies !(
                            #[trigger] base.contains(x)) by {
                                assert(kept.contains(x));
                            }
                        }
                        let before = span(front.addr as int, front.len as int);
                        assert(base.disjoint(before)) by {
                            assert forall|x: int| before.contains(x) implies !(
                            #[trigger] base.contains(x)) by {
                                assert(kept.contains(x));
                            }
                        }
                        assert(space2 =~= base.union(held(next, p)));
                    }
                }
            } else {
                let kept = held(next, p);
                if addr as int % p == 0 {
                    lemma_mod_shift(start as int, addr - start, p);
                    lemma_round_up_shift(addr - start, q.size as int, p);
                    lemma_round_up_monotonic(addr - start + q.size, q.size + align, p);
                }
                assert(at_stake(op.spec_call(), p).subset_of(kept));
                assert(spares(space2, base.union(kept), kept));
            }
        },
        MacosMap::Abandoning { reserved, errno } => {
            if given {
                let kept = held(Step::Await(op), p);
                assert(space2 =~= base) by {
                    assert forall|x: int| space2.contains(x) == base.contains(x) by {
                        if base.contains(x) {
                            assert(!kept.contains(x));
                            assert(base.union(kept).difference(kept).contains(x));
                        }
                        if space.contains(x) {
                            assert(base.union(kept).contains(x));
                        }
                    }
                }
            }
        },
        MacosMap::TrimmingFront { mapping, front, back } => {
            if given && alignable(request) && whole_pages(request, page) {
                lemma_mod_shift(front.addr as int, front.len as int, p);
                lemma_round_up(front.len as int, p);
                lemma_round_up(back.len as int, p);
                lemma_round_up(request.size as int, p);
                assert(reply is Ok);
                assert(space2 =~= base.union(held(next, p))) by {
                    assert forall|x: int| space2.contains(x) == base.union(
                        held(next, p),
                    ).contains(x) by {
                        if base.contains(x) {
                            assert(!span(front.addr as int, front.len as int).contains(x));
                        }
                    }
                }
            }
        },
        MacosMap::TrimmingBack { mapping, back } => {
            if given && alignable(request) && whole_pages(request, page) {
                lemma_round_up(back.len as int, p);
                lemma_round_up(request.size as int, p);
                assert(reply is Ok);
                assert(space2 =~= base.union(held(next, p))) by {
                    assert forall|x: int| space2.contains(x) == base.union(
                        held(next, p),
                    ).contains(x) by {
                        if base.contains(x) {
                            assert(!span(
                                back.addr as int,
                                round_up(back.len as int, p),
                            ).contains(x));
                        }
                    }
                }
            }
        },
        MacosMap::Mapping { request: q } => {
            assert(space =~= base);
            lemma_round_up(q.size as int, p);
            if let Ok(addr) = reply {
                let mapping = MemoryMapping::spec_at(addr, q.size);
                if request.addr is None {
                    assert(span(addr as int, round_up(q.size as int, p)).disjoint(space));
                    assert(base.disjoint(held_mapping(mapping, p)));
                }
                assert(space2 =~= base.union(held(next, p)));
            } else {
                assert(at_stake(op.spec_call(), p).subset_of(goes_over(request, p)));
            }
        },
    }
}

/// A run keeps the books from its first reply to its last.
proof fn lemma_run(
    step: Step<MacosMap, MemoryMapping>,
    replies: Seq<SysReply>,
    space: Set<int>,
    request: MapRequest,
    page: usize,
    base: Set<int>,
    lost: Set<int>,
    given: bool,
)
    requires
        is_pow2(page as int),
        given ==> gives_back(step, replies),
        on_track(step, request, page, base),
        balanced(step, space, request, page, base, given),
        honest(step, replies, space, lost, page as int),
    ensures
        accepted(step, replies),
        on_track(after(step, replies), request, page, base),
        balanced(
            after(step, replies),
            space_after(step, replies, space, lost, page as int),
            request,
            page,
            base,
            given,
        ),
    decreases replies.len(),
{
    match step {
        Step::Await(op) if replies.len() > 0 => {
            lemma_step(op, replies[0], space, request, page, base, lost, given);
            lemma_run(
                op.spec_resume(replies[0]),
                replies.skip(1),
                effect(space, op.spec_call(), replies[0], lost, page as int),
                request,
                page,
                base,
                lost,
                given,
            );
        },
        _ => {},
    }
}

/// A mapping that was made is the one that was asked for. Nothing but its own pages has been added
/// to what is mapped, unless part of a page had to be aligned or an unmapping failed: whatever was
/// set aside has been given back. No reply comes up that the operation could not go on from.
pub proof fn law_mapping_is_as_requested(
    request: MapRequest,
    page: usize,
    base: Set<int>,
    replies: Seq<SysReply>,
    lost: Set<int>,
)
    requires
        is_pow2(page as int),
        fits(request),
        alignable(request),
        honest(MacosMap::spec_start(request), replies, base, lost, page as int),
    ensures
        accepted(MacosMap::spec_start(request), replies),
        after(MacosMap::spec_start(request), replies) matches Step::Done(Ok(mapping)) ==> {
            &&& as_requested(mapping, request, macos(page), base)
            &&& whole_pages(request, page) && gives_back(
                MacosMap::spec_start(request),
                replies,
            ) ==> space_after(
                MacosMap::spec_start(request),
                replies,
                base,
                lost,
                page as int,
            ) == base.union(held_mapping(mapping, page as int))
        },
{
    let step = MacosMap::spec_start(request);
    assert(base.union(held(step, page as int)) =~= base);
    lemma_run(step, replies, base, request, page, base, lost, gives_back(step, replies));
}

/// A mapping that could not be made leaves the address space as it was, where what had been set aside
/// for it could be given back. Where it was to go to a fixed address, what lay there may be gone.
pub proof fn law_failed_mapping_leaves_nothing(
    request: MapRequest,
    page: usize,
    base: Set<int>,
    replies: Seq<SysReply>,
    lost: Set<int>,
)
    requires
        is_pow2(page as int),
        fits(request),
        gives_back(MacosMap::spec_start(request), replies),
        honest(MacosMap::spec_start(request), replies, base, lost, page as int),
    ensures
        after(MacosMap::spec_start(request), replies) matches Step::Done(Err(_)) ==> {
            let left = space_after(MacosMap::spec_start(request), replies, base, lost, page as int);
            &&& spares(left, base, goes_over(request, page as int))
            &&& request.addr is None || spec_align(request) > 0 ==> left == base
        },
{
    let step = MacosMap::spec_start(request);
    assert(base.union(held(step, page as int)) =~= base);
    lemma_run(step, replies, base, request, page, base, lost, true);
    let left = space_after(step, replies, base, lost, page as int);
    assert(spares(left, base, Set::empty()) ==> left =~= base);
}

spec fn unrefused(step: Step<MacosMap, MemoryMapping>) -> bool {
    match step {
        Step::Await(op) => !(op is Abandoning),
        Step::Done(result) => result is Ok,
    }
}

proof fn lemma_unrefused(step: Step<MacosMap, MemoryMapping>, replies: Seq<SysReply>)
    requires
        unrefused(step),
        forall|i: int| 0 <= i < replies.len() ==> (#[trigger] replies[i]) is Ok,
    ensures
        unrefused(after(step, replies)),
    decreases replies.len(),
{
    match step {
        Step::Await(op) if replies.len() > 0 => {
            let rest = replies.skip(1);
            assert forall|i: int| 0 <= i < rest.len() implies (#[trigger] rest[i]) is Ok by {
                assert(rest[i] == replies[i + 1]);
            }
            assert(replies[0] is Ok);
            lemma_unrefused(op.spec_resume(replies[0]), rest);
        },
        _ => {},
    }
}

/// A mapping succeeds where every call does.
pub proof fn law_mapping_succeeds(request: MapRequest, replies: Seq<SysReply>)
    requires
        replies.len() >= 4,
        forall|i: int| 0 <= i < replies.len() ==> (#[trigger] replies[i]) is Ok,
    ensures
        after(MacosMap::spec_start(request), replies) matches Step::Done(Ok(_)),
{
    lemma_unrefused(MacosMap::spec_start(request), replies);
    law_mapping_ends(request, replies);
}

/// A mapping is over after at most four replies, whatever they are.
pub proof fn law_mapping_ends(request: MapRequest, replies: Seq<SysReply>)
    requires
        replies.len() >= 4,
    ensures
        after(MacosMap::spec_start(request), replies) is Done,
{
    law_operation_ends(MacosMap::spec_start(request), replies);
}

} // verus!
