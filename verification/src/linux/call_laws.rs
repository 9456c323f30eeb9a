//! Which calls a Linux mapping makes, in which order, and how it ends: all of it by what was asked
//! for and by the replies.

use vstd::prelude::*;

use crate::align::{is_pow2, lemma_pow2_positive, lemma_round_up, round_up, wrapped};
use crate::linux::mmap::{spec_aligned_addr, spec_write_sealed, LinuxMap, Place};
use crate::operation::{
    accepted, after, lemma_accepted_so_far, lemma_after_one_more, MmapError, Operation, Step,
};
use crate::syscall::{Advice, SysCall, SysReply};
use crate::unix::mmap::{MapRequest, MemoryMapping, Region};

verus! {

/// An alignment is asked for that not every mapping has: every mapping begins at a page.
pub open spec fn aligned(request: MapRequest, page: usize) -> bool {
    request.align matches Some(align) && align != 0 && align != page
}

/// How many calls come before the one that asks for seals, or before the mapping where there is no
/// file: one sets address space aside where that takes an alignment.
pub open spec fn calls_aside(request: MapRequest, page: usize) -> int {
    if aligned(request, page) {
        1
    } else {
        0
    }
}

/// How many calls come before the one that makes the mapping.
pub open spec fn calls_before(request: MapRequest, page: usize) -> int {
    if request.fd is Some {
        calls_aside(request, page) + 1
    } else {
        calls_aside(request, page)
    }
}

/// The request can be carried out: its address is that of a page, an alignment is a power of two
/// and comes without an address, and its offset is one that a file can have.
pub open spec fn in_order(request: MapRequest, page: usize) -> bool {
    &&& request.addr matches Some(addr) ==> addr as int % page as int == 0
    &&& aligned(request, page) ==> is_pow2(request.align->0 as int) && (request.addr matches Some(
        addr,
    ) ==> addr == 0)
    &&& request.fd matches Some((_, offset)) ==> offset <= 0x7fff_ffff_ffff_ffff
}

/// The first call where address space is set aside: enough of it for a mapping at a multiple of the
/// alignment, wherever it begins.
pub open spec fn sets_aside(call: SysCall, request: MapRequest) -> bool {
    &&& call matches SysCall::Mmap { addr, len, prot, flags, fd, offset }
    &&& addr == 0
    &&& len == request.size + request.align->0
    &&& prot == request.prot
    &&& flags.private && flags.anonymous && flags.noreserve
    &&& !flags.shared && !flags.fixed && !flags.populate
    &&& fd == -1
    &&& offset == 0
}

/// The call that makes the mapping: as many bytes as were asked for, of the file that was asked for
/// from the offset that was asked for, or of anonymous memory, and with the protection that was
/// asked for. A file that its seals keep from being written is mapped privately, everything else is
/// shared.
pub open spec fn maps(
    call: SysCall,
    request: MapRequest,
    page: usize,
    replies: Seq<SysReply>,
) -> bool {
    &&& call matches SysCall::Mmap { addr, len, prot, flags, fd, offset }
    &&& len == request.size
    &&& prot == request.prot
    &&& match request.fd {
        Some((file, from)) => fd == file && offset == from && !flags.anonymous,
        None => fd == -1 && offset == 0 && flags.anonymous,
    }
    &&& flags.private <==> request.fd is Some && (replies[calls_aside(request, page)] matches Ok(
        seals,
    ) && (seals as int / 8) % 2 == 1)
    &&& flags.shared <==> !flags.private
    &&& flags.fixed <==> request.addr is Some || aligned(request, page)
    &&& flags.noreserve <==> request.addr is Some || request.fd is None
    &&& flags.populate <==> request.populate
    &&& if aligned(request, page) {
        let align = request.align->0;
        let start = replies[0]->Ok_0;
        if start + align - 1 <= usize::MAX {
            addr as int % align as int == 0 && start <= addr < start + align
        } else {
            addr == 0
        }
    } else {
        addr == match request.addr {
            Some(wanted) => wanted,
            None => 0,
        }
    }
}

/// Where what was set aside begins and ends.
pub open spec fn aside(request: MapRequest, replies: Seq<SysReply>) -> (int, int) {
    let start = replies[0]->Ok_0;
    (start as int, start + request.size + request.align->0)
}

/// How many bytes that were set aside lie before the mapping.
pub open spec fn too_much_before(request: MapRequest, page: usize, replies: Seq<SysReply>) -> int {
    let at = replies[calls_before(request, page)]->Ok_0;
    if aligned(request, page) {
        at - aside(request, replies).0
    } else {
        0
    }
}

/// How many bytes that were set aside lie behind the mapping.
pub open spec fn too_much_behind(request: MapRequest, page: usize, replies: Seq<SysReply>) -> int {
    let at = replies[calls_before(request, page)]->Ok_0;
    if aligned(request, page) {
        aside(request, replies).1 - (at + request.size)
    } else {
        0
    }
}

/// How many calls come before the first advice: after the mapping, what was set aside before it and
/// behind it is unmapped, where there is any.
pub open spec fn calls_to_advice(request: MapRequest, page: usize, replies: Seq<SysReply>) -> int {
    calls_before(request, page) + 1 + (if too_much_before(request, page, replies) > 0 {
        1int
    } else {
        0
    }) + (if too_much_behind(request, page, replies) > 0 {
        1int
    } else {
        0
    })
}

/// The call that is awaited after these replies is the right one.
pub open spec fn right_call(
    call: SysCall,
    request: MapRequest,
    page: usize,
    replies: Seq<SysReply>,
) -> bool {
    let n = replies.len();
    let main = calls_before(request, page);
    if n < calls_aside(request, page) {
        sets_aside(call, request)
    } else if n < main {
        request.fd matches Some((file, _)) && call == (SysCall::GetSeals { fd: file })
    } else if n == main {
        maps(call, request, page, replies)
    } else {
        let at = replies[main]->Ok_0;
        let advice = calls_to_advice(request, page, replies);
        &&& replies[main] is Ok
        &&& if n < advice {
            &&& call matches SysCall::Munmap { addr, len }
            &&& len > 0
            &&& if n == main + 1 && too_much_before(request, page, replies) > 0 {
                addr == aside(request, replies).0 && addr + len == at
            } else {
                addr == at + request.size && addr + len == aside(request, replies).1
            }
        } else if n == advice {
            call == (SysCall::Madvise { addr: at, len: request.size, advice: Advice::DontDump })
        } else {
            &&& n == advice + 1
            &&& call == (SysCall::Madvise {
                addr: at,
                len: request.size,
                advice: Advice::Mergeable,
            })
        }
    }
}

/// The reply is one that the mapping can go on from: where the mapping has been made, it lies
/// within the address space, and within what was set aside for it.
pub open spec fn right_reply(
    reply: SysReply,
    request: MapRequest,
    page: usize,
    replies: Seq<SysReply>,
) -> bool {
    replies.len() == calls_before(request, page) ==> (reply matches Ok(at) ==> {
        &&& at + request.size <= usize::MAX
        &&& aligned(request, page) ==> {
            &&& aside(request, replies).0 <= at
            &&& at + request.size <= aside(request, replies).1 <= usize::MAX
        }
    })
}

/// What is awaited after these replies is the reply to the right call.
pub open spec fn right_wait<O: Operation>(
    op: O,
    request: MapRequest,
    page: usize,
    replies: Seq<SysReply>,
) -> bool {
    &&& right_call(op.spec_call(), request, page, replies)
    &&& forall|reply: SysReply| #[trigger]
        op.spec_accepts(reply) <==> right_reply(reply, request, page, replies)
}

/// Why a mapping failed: the request was not in order, or the first call that sets address space
/// aside or makes the mapping failed.
pub open spec fn right_error(
    error: MmapError,
    request: MapRequest,
    page: usize,
    replies: Seq<SysReply>,
) -> bool {
    let off_page = request.addr matches Some(addr) && addr as int % page as int != 0;
    let misaligned = aligned(request, page) && (!is_pow2(request.align->0 as int) || (
    request.addr matches Some(addr) && addr != 0));
    let no_room = aligned(request, page) && replies.len() > 0 && replies[0] is Err;
    let off_file = request.fd matches Some((_, offset)) && offset > 0x7fff_ffff_ffff_ffff;
    if off_page {
        error == MmapError::NotPageAligned
    } else if misaligned {
        error == MmapError::InvalidAlignment
    } else if no_room {
        error == MmapError::SystemCallFailed(replies[0]->Err_0)
    } else if off_file {
        &&& error == MmapError::InvalidOffset
        &&& aligned(request, page) ==> replies.len() > 0
    } else {
        let main = calls_before(request, page);
        &&& replies.len() > main
        &&& replies[main] is Err
        &&& error == MmapError::SystemCallFailed(replies[main]->Err_0)
    }
}

/// A mapping succeeded at an address: the kernel made it there, everything that had to be was
/// unmapped, and both pieces of advice were given.
pub open spec fn succeeded_at(
    place: int,
    request: MapRequest,
    page: usize,
    replies: Seq<SysReply>,
) -> bool {
    let main = calls_before(request, page);
    &&& place == replies[main]->Ok_0
    &&& in_order(request, page)
    &&& replies.len() > main
    &&& replies[main] is Ok
    &&& aligned(request, page) ==> replies[0] is Ok
    &&& replies.len() >= calls_to_advice(request, page, replies) + 2
}

/// Whether a request that is awaited is in order, and nothing that it needs has failed.
pub open spec fn under_way(request: MapRequest, page: usize, replies: Seq<SysReply>) -> bool {
    let main = calls_before(request, page);
    &&& in_order(request, page) || (aligned(request, page) && replies.len() == 0)
    &&& aligned(request, page) && replies.len() > 0 ==> replies[0] is Ok
    &&& replies.len() > main ==> replies[main] is Ok && replies.len() < calls_to_advice(
        request,
        page,
        replies,
    ) + 2
}

spec fn placed(place: Place, request: MapRequest, page: usize, replies: Seq<SysReply>) -> bool {
    if aligned(request, page) {
        &&& replies.len() > 0
        &&& replies[0] is Ok
        &&& place.addr == spec_aligned_addr(replies[0]->Ok_0, request.align->0 as usize)
        &&& place.reserved == Some(
            Region {
                addr: replies[0]->Ok_0,
                len: (request.size + request.align->0) as usize,
            },
        )
    } else {
        &&& place.addr == request.spec_addr_or_null()
        &&& place.reserved is None
    }
}

spec fn made(mapping: MemoryMapping, request: MapRequest, page: usize, replies: Seq<SysReply>) -> bool {
    let main = calls_before(request, page);
    &&& replies.len() > main
    &&& replies[main] is Ok
    &&& aligned(request, page) ==> replies[0] is Ok
    &&& mapping.spec_addr() == replies[main]->Ok_0
    &&& mapping.spec_size() == request.size
    &&& too_much_before(request, page, replies) >= 0
    &&& too_much_behind(request, page, replies) >= 0
    &&& aligned(request, page) ==> aside(request, replies).1 <= usize::MAX
}

spec fn stands(
    step: Step<LinuxMap, MemoryMapping>,
    request: MapRequest,
    page: usize,
    replies: Seq<SysReply>,
) -> bool {
    let n = replies.len();
    let main = calls_before(request, page);
    match step {
        Step::Await(op) => {
            &&& match op {
                LinuxMap::Reserving { request: q, align } => {
                    &&& q == request
                    &&& n == 0
                    &&& aligned(request, page)
                    &&& request.addr matches Some(addr) ==> addr as int % page as int == 0
                    &&& is_pow2(request.align->0 as int)
                    &&& request.addr matches Some(addr) ==> addr == 0
                    &&& align == request.align->0
                },
                LinuxMap::Sealing { request: q, place } => {
                    &&& q == request
                    &&& n == calls_aside(request, page)
                    &&& request.fd is Some
                    &&& in_order(request, page)
                    &&& placed(place, request, page, replies)
                },
                LinuxMap::Mapping { request: q, place, sealed } => {
                    &&& q == request
                    &&& n == main
                    &&& in_order(request, page)
                    &&& placed(place, request, page, replies)
                    &&& sealed <==> request.fd is Some && spec_write_sealed(
                        replies[calls_aside(request, page)],
                    )
                },
                LinuxMap::TrimmingFront { mapping, front, back } => {
                    &&& in_order(request, page)
                    &&& aligned(request, page)
                    &&& n == main + 1
                    &&& made(mapping, request, page, replies)
                    &&& too_much_before(request, page, replies) > 0
                    &&& front.addr == aside(request, replies).0
                    &&& front.len == too_much_before(request, page, replies)
                    &&& back.addr == replies[main]->Ok_0 + request.size
                    &&& back.len == too_much_behind(request, page, replies)
                },
                LinuxMap::TrimmingBack { mapping, back } => {
                    &&& in_order(request, page)
                    &&& aligned(request, page)
                    &&& n == calls_to_advice(request, page, replies) - 1
                    &&& made(mapping, request, page, replies)
                    &&& too_much_behind(request, page, replies) > 0
                    &&& back.addr == replies[main]->Ok_0 + request.size
                    &&& back.len == too_much_behind(request, page, replies)
                },
                LinuxMap::MarkingDontDump { mapping } => {
                    &&& in_order(request, page)
                    &&& n == calls_to_advice(request, page, replies)
                    &&& made(mapping, request, page, replies)
                },
                LinuxMap::MarkingMergeable { mapping } => {
                    &&& in_order(request, page)
                    &&& n == calls_to_advice(request, page, replies) + 1
                    &&& made(mapping, request, page, replies)
                },
            }
        },
        Step::Done(Ok(mapping)) => {
            &&& succeeded_at(mapping.spec_addr() as int, request, page, replies)
            &&& made(mapping, request, page, replies)
        },
        Step::Done(Err(error)) => right_error(error, request, page, replies),
    }
}

/// What the replies say so far does not change with the replies that follow.
proof fn lemma_more_replies(request: MapRequest, page: usize, replies: Seq<SysReply>, n: int)
    requires
        0 <= n < replies.len(),
        calls_before(request, page) < n,
    ensures
        too_much_before(request, page, replies.take(n)) == too_much_before(request, page, replies),
        too_much_behind(request, page, replies.take(n)) == too_much_behind(request, page, replies),
{
    assert(replies.take(n)[0] == replies[0]);
    assert(replies.take(n)[calls_before(request, page)] == replies[calls_before(request, page)]);
}

proof fn lemma_step(
    op: LinuxMap,
    request: MapRequest,
    page: usize,
    replies: Seq<SysReply>,
)
    requires
        page > 0,
        aligned(request, page) && is_pow2(request.align->0 as int) ==> request.size
            + request.align->0 <= usize::MAX,
        replies.len() > 0,
        stands(Step::Await(op), request, page, replies.drop_last()),
        op.spec_accepts(replies.last()),
    ensures
        stands(op.spec_resume(replies.last()), request, page, replies),
{
    broadcast use MemoryMapping::lemma_spec_at;

    let so_far = replies.drop_last();
    let n = so_far.len();
    let main = calls_before(request, page);
    assert(forall|i: int| 0 <= i < n ==> so_far[i] == replies[i]);
    assert(replies.last() == replies[n as int]);
    match op {
        LinuxMap::Reserving { request: q, align } => {},
        LinuxMap::Sealing { request: q, place } => {},
        LinuxMap::Mapping { request: q, place, sealed } => {},
        LinuxMap::TrimmingFront { mapping, front, back } => {
            assert(so_far =~= replies.take(n as int));
            lemma_more_replies(request, page, replies, n as int);
        },
        LinuxMap::TrimmingBack { mapping, back } => {
            assert(so_far =~= replies.take(n as int));
            lemma_more_replies(request, page, replies, n as int);
        },
        LinuxMap::MarkingDontDump { mapping } => {
            assert(so_far =~= replies.take(n as int));
            lemma_more_replies(request, page, replies, n as int);
        },
        LinuxMap::MarkingMergeable { mapping } => {
            assert(so_far =~= replies.take(n as int));
            lemma_more_replies(request, page, replies, n as int);
        },
    }
}

/// Replies that come after the end change nothing.
proof fn lemma_over(
    result: Result<MemoryMapping, MmapError>,
    request: MapRequest,
    page: usize,
    replies: Seq<SysReply>,
)
    requires
        replies.len() > 0,
        stands(Step::Done(result), request, page, replies.drop_last()),
    ensures
        stands(Step::Done(result), request, page, replies),
{
    let so_far = replies.drop_last();
    let n = so_far.len();
    let main = calls_before(request, page);
    assert(forall|i: int| 0 <= i < n ==> so_far[i] == replies[i]);
    if main < n {
        assert(so_far =~= replies.take(n as int));
        lemma_more_replies(request, page, replies, n as int);
    }
}

proof fn lemma_run(request: MapRequest, page: usize, replies: Seq<SysReply>)
    requires
        page > 0,
        aligned(request, page) && is_pow2(request.align->0 as int) ==> request.size
            + request.align->0 <= usize::MAX,
        accepted(LinuxMap::spec_start(request, page), replies),
    ensures
        stands(after(LinuxMap::spec_start(request, page), replies), request, page, replies),
    decreases replies.len(),
{
    let start = LinuxMap::spec_start(request, page);
    if replies.len() > 0 {
        let n = replies.len() - 1;
        let so_far = replies.drop_last();
        assert(so_far =~= replies.take(n));
        assert(replies.take(n + 1) =~= replies);
        lemma_accepted_so_far(start, replies);
        lemma_run(request, page, so_far);
        lemma_after_one_more(start, replies, n);
        match after(start, so_far) {
            Step::Await(op) => lemma_step(op, request, page, replies),
            Step::Done(result) => lemma_over(result, request, page, replies),
        }
    } else {
        assert(after(start, replies) == start);
    }
}

/// Every call that a mapping makes is the right one, whatever the replies, and it ends as it
/// should: with the memory that the kernel gave, or with the error that the request or a reply
/// calls for.
pub proof fn law_mapping_makes_the_right_calls(
    request: MapRequest,
    page: usize,
    replies: Seq<SysReply>,
)
    requires
        page > 0,
        aligned(request, page) && is_pow2(request.align->0 as int) ==> request.size
            + request.align->0 <= usize::MAX,
        accepted(LinuxMap::spec_start(request, page), replies),
    ensures
        match after(LinuxMap::spec_start(request, page), replies) {
            Step::Await(op) => under_way(request, page, replies) && right_wait(
                op,
                request,
                page,
                replies,
            ),
            Step::Done(Ok(mapping)) => {
                &&& succeeded_at(mapping.spec_addr() as int, request, page, replies)
                &&& mapping.spec_size() == request.size
            },
            Step::Done(Err(error)) => right_error(error, request, page, replies),
        },
{
    lemma_run(request, page, replies);
    if let Step::Await(LinuxMap::Mapping { place, .. }) = after(
        LinuxMap::spec_start(request, page),
        replies,
    ) {
        if aligned(request, page) {
            let align = request.align->0 as int;
            let start = replies[0]->Ok_0 as int;
            lemma_pow2_positive(align);
            if start + align - 1 <= usize::MAX {
                vstd::arithmetic::div_mod::lemma_small_mod(
                    (start + align - 1) as nat,
                    (usize::MAX + 1) as nat,
                );
                assert(wrapped(start + align - 1) == start + align - 1);
                lemma_round_up(start, align);
                assert(place.addr == round_up(start, align));
            } else {
                let past = start + align - 1 - (usize::MAX + 1);
                vstd::arithmetic::div_mod::lemma_mod_add_multiples_vanish(past, usize::MAX + 1);
                vstd::arithmetic::div_mod::lemma_small_mod(past as nat, (usize::MAX + 1) as nat);
                vstd::arithmetic::div_mod::lemma_small_mod(past as nat, align as nat);
                assert(wrapped(start + align - 1) == past);
            }
        }
    }
}

} // verus!
