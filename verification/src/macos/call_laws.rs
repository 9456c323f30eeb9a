//! Which calls a macOS mapping makes, in which order, and how it ends: all of it by what was asked
//! for and by the replies.

use vstd::prelude::*;

use crate::align::{
    is_pow2, lemma_mask_bounds, lemma_mask_rounds_down, lemma_pow2_positive, lemma_round_up, round_up,
};
use crate::macos::mmap::{spec_masked_addr, MacosMap};
use crate::operation::{
    accepted, after, lemma_accepted_so_far, lemma_after_one_more, MmapError, Operation, Step,
};
use crate::syscall::{SysCall, SysReply};
use crate::unix::mmap::{MapRequest, MemoryMapping};

verus! {

/// An alignment is asked for.
pub open spec fn aligned(request: MapRequest) -> bool {
    request.align matches Some(align) && align > 0
}

/// A place in a file, as the signed number that `mmap` takes it for.
pub open spec fn signed(offset: u64) -> int {
    if offset <= 0x7fff_ffff_ffff_ffff {
        offset as int
    } else {
        offset - 0x1_0000_0000_0000_0000
    }
}

/// Where an aligned mapping goes, within what was set aside from `start` on: the bits below the
/// alignment are cleared once `align - 1` has been added.
pub open spec fn aligned_place(start: int, align: u64) -> int {
    (((start + align - 1) as u64) & !((align - 1) as u64)) as int
}

/// The first call where address space is set aside: enough of it for a mapping at a multiple of the
/// alignment, wherever it begins, and none of it to be touched.
pub open spec fn sets_aside(call: SysCall, request: MapRequest) -> bool {
    &&& call matches SysCall::Mmap { addr, len, prot, flags, fd, offset }
    &&& addr == match request.addr {
        Some(wanted) => wanted,
        None => 0,
    }
    &&& len == request.size + request.align->0
    &&& prot == 0
    &&& flags.private && flags.anonymous
    &&& !flags.shared && !flags.fixed && !flags.populate && !flags.noreserve
    &&& fd == -1
    &&& offset == 0
}

/// The call that makes the mapping: as many bytes as were asked for, of the file that was asked for
/// from the offset that was asked for, or of anonymous memory, and with the protection that was
/// asked for. It goes to a fixed address where one was asked for or address space was set aside.
pub open spec fn maps(call: SysCall, request: MapRequest, replies: Seq<SysReply>) -> bool {
    &&& call matches SysCall::Mmap { addr, len, prot, flags, fd, offset }
    &&& len == request.size
    &&& prot == request.prot
    &&& match request.fd {
        Some((file, from)) => fd == file && offset == signed(from) && !flags.anonymous,
        None => fd == -1 && offset == 0 && flags.anonymous,
    }
    &&& flags.shared && !flags.private && !flags.noreserve && !flags.populate
    &&& flags.fixed <==> request.addr is Some || aligned(request)
    &&& if aligned(request) {
        let align = request.align->0;
        let start = replies[0]->Ok_0;
        &&& addr == aligned_place(start as int, align)
        &&& start <= addr < start + align
        &&& is_pow2(align as int) ==> addr as int % align as int == 0
    } else {
        addr == match request.addr {
            Some(wanted) => wanted,
            None => 0,
        }
    }
}

/// The call that is awaited after these replies is the right one.
pub open spec fn right_call(call: SysCall, request: MapRequest, replies: Seq<SysReply>) -> bool {
    if !aligned(request) {
        replies.len() == 0 && maps(call, request, replies)
    } else if replies.len() == 0 {
        sets_aside(call, request)
    } else {
        let align = request.align->0;
        let start = replies[0]->Ok_0;
        let at = aligned_place(start as int, align);
        let end = start + request.size + align;
        &&& replies[0] is Ok
        &&& if replies.len() == 1 {
            maps(call, request, replies)
        } else if replies[1] is Err {
            &&& replies.len() == 2
            &&& call matches SysCall::Munmap { addr, len }
            &&& addr == start
            &&& addr + len == end
        } else {
            &&& replies.len() == 2 || replies.len() == 3 && at > start
            &&& call matches SysCall::Munmap { addr, len }
            &&& if replies.len() == 2 && at > start {
                addr == start && addr + len == at
            } else {
                addr == at + request.size && addr + len == end
            }
        }
    }
}

/// The reply is one that the mapping can go on from: what was set aside or made lies within the
/// address space.
pub open spec fn right_reply(reply: SysReply, request: MapRequest, replies: Seq<SysReply>) -> bool {
    reply matches Ok(at) ==> if !aligned(request) {
        at + request.size <= usize::MAX
    } else if replies.len() == 0 {
        at + request.align->0 <= usize::MAX
    } else if replies.len() == 1 {
        aligned_place(replies[0]->Ok_0 as int, request.align->0) + request.size <= usize::MAX
    } else {
        true
    }
}

/// What is awaited after these replies is the reply to the right call.
pub open spec fn right_wait<O: Operation>(
    op: O,
    request: MapRequest,
    replies: Seq<SysReply>,
) -> bool {
    &&& right_call(op.spec_call(), request, replies)
    &&& forall|reply: SysReply| #[trigger]
        op.spec_accepts(reply) <==> right_reply(reply, request, replies)
}

/// Why a mapping failed. Where what was set aside could not be given back either, that is what is
/// told.
pub open spec fn right_error(error: MmapError, request: MapRequest, replies: Seq<SysReply>) -> bool {
    &&& replies.len() > 0
    &&& if replies[0] is Err {
        error == MmapError::SystemCallFailed(replies[0]->Err_0)
    } else {
        &&& aligned(request)
        &&& replies.len() > 2
        &&& replies[1] is Err
        &&& error == MmapError::SystemCallFailed(
            match replies[2] {
                Ok(_) => replies[1]->Err_0,
                Err(errno) => errno,
            },
        )
    }
}

/// A mapping succeeded at an address: it was made, and everything else that was set aside was
/// unmapped.
pub open spec fn succeeded_at(place: int, request: MapRequest, replies: Seq<SysReply>) -> bool {
    &&& replies.len() > 0
    &&& replies[0] is Ok
    &&& if aligned(request) {
        let start = replies[0]->Ok_0;
        let at = aligned_place(start as int, request.align->0);
        &&& replies.len() > 2
        &&& replies[1] is Ok
        &&& at > start ==> replies.len() > 3
        &&& place == at
    } else {
        place == replies[0]->Ok_0
    }
}

spec fn stands(
    step: Step<MacosMap, MemoryMapping>,
    request: MapRequest,
    replies: Seq<SysReply>,
) -> bool {
    let n = replies.len();
    let start = replies[0]->Ok_0;
    let align = request.align->0;
    let at = aligned_place(start as int, align);
    let under_way = {
        &&& aligned(request)
        &&& replies[0] is Ok
        &&& start + align <= usize::MAX
        &&& start <= at < start + align
    };
    match step {
        Step::Await(MacosMap::Reserving { request: q, align: a }) => {
            &&& q == request
            &&& n == 0
            &&& aligned(request)
            &&& a == align
        },
        Step::Await(MacosMap::Aligning { request: q, align: a, start: s, addr }) => {
            &&& under_way
            &&& n == 1
            &&& q == request
            &&& a == align
            &&& s == start
            &&& addr == at
        },
        Step::Await(MacosMap::Abandoning { reserved, errno }) => {
            &&& under_way
            &&& n == 2
            &&& replies[1] == Err::<usize, _>(errno)
            &&& reserved.addr == start
            &&& reserved.len == request.size + align
        },
        Step::Await(MacosMap::TrimmingFront { mapping, front, back }) => {
            &&& under_way
            &&& n == 2
            &&& replies[1] is Ok
            &&& at > start
            &&& at + request.size <= usize::MAX
            &&& mapping.spec_addr() == at
            &&& mapping.spec_size() == request.size
            &&& front.addr == start
            &&& front.len == at - start
            &&& back.addr == at + request.size
            &&& back.len == align - (at - start)
        },
        Step::Await(MacosMap::TrimmingBack { mapping, back }) => {
            &&& under_way
            &&& n == if at > start {
                3int
            } else {
                2
            }
            &&& replies[1] is Ok
            &&& at + request.size <= usize::MAX
            &&& mapping.spec_addr() == at
            &&& mapping.spec_size() == request.size
            &&& back.addr == at + request.size
            &&& back.len == align - (at - start)
        },
        Step::Await(MacosMap::Mapping { request: q }) => {
            &&& n == 0
            &&& !aligned(request)
            &&& q == request
        },
        Step::Done(Ok(mapping)) => {
            &&& succeeded_at(mapping.spec_addr() as int, request, replies)
            &&& mapping.spec_size() == request.size
        },
        Step::Done(Err(error)) => right_error(error, request, replies),
    }
}

proof fn lemma_step(op: MacosMap, request: MapRequest, replies: Seq<SysReply>)
    requires
        aligned(request) ==> request.size + request.align->0 <= usize::MAX,
        replies.len() > 0,
        stands(Step::Await(op), request, replies.drop_last()),
        op.spec_accepts(replies.last()),
    ensures
        stands(op.spec_resume(replies.last()), request, replies),
{
    broadcast use MemoryMapping::lemma_spec_at;

    let so_far = replies.drop_last();
    let n = so_far.len();
    assert(forall|i: int| 0 <= i < n ==> so_far[i] == replies[i]);
    assert(replies.last() == replies[n as int]);
    if let MacosMap::Reserving { request: q, align } = op {
        if let Ok(start) = replies.last() {
            lemma_mask_bounds((start + align - 1) as u64, (align - 1) as u64);
            assert(spec_masked_addr(start, align) == aligned_place(start as int, align as u64));
        }
    }
}

proof fn lemma_run(request: MapRequest, replies: Seq<SysReply>)
    requires
        aligned(request) ==> request.size + request.align->0 <= usize::MAX,
        accepted(MacosMap::spec_start(request), replies),
    ensures
        stands(after(MacosMap::spec_start(request), replies), request, replies),
    decreases replies.len(),
{
    let start = MacosMap::spec_start(request);
    if replies.len() > 0 {
        let n = replies.len() - 1;
        let so_far = replies.drop_last();
        assert(so_far =~= replies.take(n));
        assert(replies.take(n + 1) =~= replies);
        lemma_accepted_so_far(start, replies);
        lemma_run(request, so_far);
        lemma_after_one_more(start, replies, n);
        match after(start, so_far) {
            Step::Await(op) => lemma_step(op, request, replies),
            Step::Done(_) => {
                assert(forall|i: int| 0 <= i < n ==> so_far[i] == replies[i]);
            },
        }
    } else {
        assert(after(start, replies) == start);
    }
}

/// An offset beyond what a signed number holds is handed on as the number that its bits stand for.
pub proof fn lemma_signed(offset: u64)
    ensures
        offset as i64 == signed(offset),
{
    assert(offset <= 0x7fff_ffff_ffff_ffff ==> offset as i64 == offset) by (bit_vector);
    assert(offset > 0x7fff_ffff_ffff_ffff ==> offset as i64 == offset - 0x1_0000_0000_0000_0000)
        by (bit_vector);
}

/// Every call that a mapping makes is the right one, whatever the replies, and it ends as it
/// should: with the memory that was mapped, or with the error that a reply calls for.
pub proof fn law_mapping_makes_the_right_calls(request: MapRequest, replies: Seq<SysReply>)
    requires
        aligned(request) ==> request.size + request.align->0 <= usize::MAX,
        accepted(MacosMap::spec_start(request), replies),
    ensures
        match after(MacosMap::spec_start(request), replies) {
            Step::Await(op) => right_wait(op, request, replies),
            Step::Done(Ok(mapping)) => {
                &&& succeeded_at(mapping.spec_addr() as int, request, replies)
                &&& mapping.spec_size() == request.size
            },
            Step::Done(Err(error)) => right_error(error, request, replies),
        },
{
    lemma_run(request, replies);
    if let Some((_, offset)) = request.fd {
        lemma_signed(offset);
    }
    if let Step::Await(MacosMap::Aligning { align, start, .. }) = after(
        MacosMap::spec_start(request),
        replies,
    ) {
        if is_pow2(align as int) {
            lemma_pow2_positive(align as int);
            lemma_mask_rounds_down((start + align - 1) as u64, align as u64);
            lemma_round_up(start as int, align as int);
            assert(aligned_place(start as int, align as u64) == round_up(
                start as int,
                align as int,
            ));
        }
    }
}

} // verus!
