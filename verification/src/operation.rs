//! Operations that advance one system call at a time.
//!
//! Every operation on memory is a value that waits for the reply to one system call. Starting an
//! operation gives a [`Step`]: either the operation is over already, or it awaits a reply. Each
//! reply gives the next step.

use vstd::prelude::*;

use crate::syscall::{Errno, SysCall, SysReply};

verus! {

/// Why an operation on a memory mapping failed.
#[derive(Clone, Copy, Debug, PartialEq, Eq, Structural)]
pub enum MmapError {
    /// The requested range does not lie within the memory.
    InvalidAddress,
    /// The requested alignment is not one that the mapping can have.
    InvalidAlignment,
    /// The requested file offset is more than a file can have.
    InvalidOffset,
    /// The requested range ends past the end of the region: offset, count, size of the region.
    InvalidRange(usize, usize, usize),
    /// The requested address is not that of a page.
    NotPageAligned,
    /// A system call failed.
    SystemCallFailed(Errno),
}

/// The systems that an operation can run on.
#[derive(Clone, Copy, Debug, PartialEq, Eq, Structural)]
pub enum Os {
    Linux,
    Macos,
}

/// What an operation has to know of the machine that it runs on.
#[derive(Clone, Copy, Debug, PartialEq, Eq, Structural)]
pub struct Host {
    pub os: Os,
    /// The size of a page, in bytes.
    pub pagesize: usize,
}

impl Host {
    /// A machine has pages of some size.
    pub open spec fn wf(self) -> bool {
        self.pagesize > 0
    }
}

/// Where an operation stands: it awaits the reply to a system call, or it is over.
pub enum Step<K, T> {
    Await(K),
    Done(Result<T, MmapError>),
}

/// An operation that awaits the reply to a system call.
pub trait Operation: Sized {
    /// What the operation gives where it succeeds.
    type Output;

    /// What holds of every operation that this crate started.
    spec fn wf(self) -> bool;

    /// What holds of everything that an operation gives.
    spec fn sound(output: Self::Output) -> bool;

    /// An upper bound on the replies still to come.
    spec fn rank(self) -> nat;

    /// The call that the operation awaits the reply to.
    spec fn spec_call(self) -> SysCall;

    /// The reply is one that the operation can go on from.
    spec fn spec_accepts(self, reply: SysReply) -> bool;

    /// The step that a reply leads to.
    spec fn spec_resume(self, reply: SysReply) -> Step<Self, Self::Output>;

    /// Every reply brings an operation closer to its end.
    proof fn lemma_rank_falls(self, reply: SysReply)
        ensures
            self.rank() > 0,
            self.spec_resume(reply) matches Step::Await(op) ==> op.rank() < self.rank(),
    ;

    /// Returns the call that the operation awaits the reply to.
    fn call(&self) -> (call: SysCall)
        requires
            self.wf(),
        ensures
            call == self.spec_call(),
    ;

    /// Tells whether the operation can go on from a reply.
    fn accepts(&self, reply: &SysReply) -> (yes: bool)
        requires
            self.wf(),
        ensures
            yes == self.spec_accepts(*reply),
    ;

    /// Goes on from the reply to the call that was awaited.
    fn resume(self, reply: SysReply) -> (step: Step<Self, Self::Output>)
        requires
            self.wf(),
            self.spec_accepts(reply),
        ensures
            step == self.spec_resume(reply),
            step matches Step::Await(op) ==> op.wf(),
            step matches Step::Done(Ok(output)) ==> Self::sound(output),
    ;
}

/// An operation that ends with the reply to the one system call it makes: it fails exactly where
/// the call failed.
#[derive(Clone, Copy, Debug, PartialEq, Eq, Structural)]
pub struct Single {
    pub call: SysCall,
}

impl Operation for Single {
    type Output = ();

    open spec fn wf(self) -> bool {
        true
    }

    open spec fn sound(output: ()) -> bool {
        true
    }

    open spec fn rank(self) -> nat {
        1
    }

    open spec fn spec_call(self) -> SysCall {
        self.call
    }

    open spec fn spec_accepts(self, reply: SysReply) -> bool {
        true
    }

    open spec fn spec_resume(self, reply: SysReply) -> Step<Single, ()> {
        match reply {
            Ok(_) => Step::Done(Ok(())),
            Err(errno) => Step::Done(Err(MmapError::SystemCallFailed(errno))),
        }
    }

    proof fn lemma_rank_falls(self, reply: SysReply) {
    }

    fn call(&self) -> (call: SysCall) {
        self.call
    }

    fn accepts(&self, reply: &SysReply) -> (yes: bool) {
        true
    }

    fn resume(self, reply: SysReply) -> (step: Step<Single, ()>) {
        match reply {
            Ok(_) => Step::Done(Ok(())),
            Err(errno) => Step::Done(Err(MmapError::SystemCallFailed(errno))),
        }
    }
}

/// Where an operation stands once it has had its replies.
pub open spec fn after<O: Operation>(step: Step<O, O::Output>, replies: Seq<SysReply>) -> Step<
    O,
    O::Output,
>
    decreases replies.len(),
{
    match step {
        Step::Await(op) if replies.len() > 0 => after(
            op.spec_resume(replies[0]),
            replies.skip(1),
        ),
        _ => step,
    }
}

/// The operation can go on from each of its replies.
pub open spec fn accepted<O: Operation>(step: Step<O, O::Output>, replies: Seq<SysReply>) -> bool
    decreases replies.len(),
{
    match step {
        Step::Await(op) if replies.len() > 0 => {
            &&& op.spec_accepts(replies[0])
            &&& accepted(op.spec_resume(replies[0]), replies.skip(1))
        },
        _ => true,
    }
}

/// One more reply takes an operation one step further.
pub proof fn lemma_after_one_more<O: Operation>(
    step: Step<O, O::Output>,
    replies: Seq<SysReply>,
    n: int,
)
    requires
        0 <= n < replies.len(),
    ensures
        after(step, replies.take(n + 1)) == (match after(step, replies.take(n)) {
            Step::Await(op) => op.spec_resume(replies[n]),
            Step::Done(result) => Step::Done(result),
        }),
        accepted(step, replies) ==> (after(step, replies.take(n)) matches Step::Await(op)
            ==> op.spec_accepts(replies[n])),
    decreases n,
{
    let longer = replies.take(n + 1);
    let shorter = replies.take(n);
    if let Step::Await(op) = step {
        let rest = replies.skip(1);
        assert(longer.skip(1) =~= rest.take(n));
        assert(longer[0] == replies[0]);
        if n > 0 {
            assert(shorter.skip(1) =~= rest.take(n - 1));
            assert(shorter[0] == replies[0]);
            assert(rest[n - 1] == replies[n]);
            lemma_after_one_more(op.spec_resume(replies[0]), rest, n - 1);
        } else {
            assert(rest.take(0) =~= Seq::<SysReply>::empty());
            let next = op.spec_resume(replies[0]);
            assert(after(next, rest.take(0)) == next);
        }
    }
}

/// What was accepted so far was accepted without the last reply.
pub proof fn lemma_accepted_so_far<O: Operation>(step: Step<O, O::Output>, replies: Seq<SysReply>)
    requires
        replies.len() > 0,
        accepted(step, replies),
    ensures
        accepted(step, replies.drop_last()),
    decreases replies.len(),
{
    if let Step::Await(op) = step {
        if replies.len() > 1 {
            assert(replies.drop_last().skip(1) =~= replies.skip(1).drop_last());
            lemma_accepted_so_far(op.spec_resume(replies[0]), replies.skip(1));
        }
    }
}

/// An operation that runs asks for what it awaits, tells which replies it can go on from, and goes on as
/// the reply says.
pub proof fn law_operation_goes_on<O: Operation>(
    op: O,
    reply: SysReply,
    call: SysCall,
    yes: bool,
    step: Step<O, O::Output>,
)
    requires
        call_ensures(O::call, (&op,), call),
        call_ensures(O::accepts, (&op, &reply), yes),
        call_ensures(O::resume, (op, reply), step),
    ensures
        call == op.spec_call(),
        yes == op.spec_accepts(reply),
        step == op.spec_resume(reply),
{
}

/// An operation is over after as many replies as its rank says, whatever they are.
pub proof fn law_operation_ends<O: Operation>(step: Step<O, O::Output>, replies: Seq<SysReply>)
    requires
        step matches Step::Await(op) ==> op.rank() <= replies.len(),
    ensures
        after(step, replies) is Done,
    decreases replies.len(),
{
    if let Step::Await(op) = step {
        if replies.len() > 0 {
            op.lemma_rank_falls(replies[0]);
            law_operation_ends(op.spec_resume(replies[0]), replies.skip(1));
        } else {
            op.lemma_rank_falls(Ok(0));
        }
    }
}

} // verus!
