//! Receiving a message that is a packet.

use vstd::prelude::*;

use crate::tube::{
    Attempt, Format, Message, MessageView, RecvCall, RecvEvent, RecvReply, RecvStep, RecvStepView,
    TubeError,
};

verus! {

/// Receiving a packet: which reply is awaited.
#[derive(Clone, Copy, Debug, PartialEq, Eq, Structural)]
pub enum PacketRecv {
    /// The size of the packet.
    Sizing { max_fds: usize, format: Format },
    /// The packet itself.
    Receiving { len: usize, max_fds: usize, format: Format },
}

impl View for PacketRecv {
    type V = PacketRecv;

    open spec fn view(&self) -> PacketRecv {
        *self
    }
}

/// `bytes`, followed by zeros up to `len` bytes.
pub open spec fn padded(bytes: Seq<u8>, len: nat) -> Seq<u8> {
    Seq::new(
        len,
        |i: int|
            if i < bytes.len() {
                bytes[i]
            } else {
                0
            },
    )
}

fn pad(bytes: Vec<u8>, len: usize) -> (result: Vec<u8>)
    requires
        bytes@.len() <= len,
    ensures
        result@ == padded(bytes@, len as nat),
{
    let mut result: Vec<u8> = bytes;
    while result.len() < len
        invariant
            bytes@.len() <= result@.len() <= len,
            result@ == padded(bytes@, result@.len()),
        decreases len - result@.len(),
    {
        let ghost before = result@;
        result.push(0);
        assert(result@ =~= padded(bytes@, result@.len()));
    }
    result
}

impl PacketRecv {
    /// The message that a packet is. JSON ends with the bytes that were received; a proto takes the
    /// whole buffer that was made for it, and leaves the descriptors behind.
    pub open spec fn spec_message<D>(
        bytes: Seq<u8>,
        descriptors: Seq<D>,
        len: usize,
        format: Format,
    ) -> MessageView<D> {
        match format {
            Format::Json => MessageView { bytes, descriptors },
            Format::Proto => MessageView {
                bytes: padded(bytes, len as nat),
                descriptors: Seq::empty(),
            },
        }
    }

    /// The call that is awaited.
    pub open spec fn spec_call(self) -> RecvCall {
        match self {
            PacketRecv::Sizing { max_fds, format } => RecvCall::NextPacketSize,
            PacketRecv::Receiving { len, max_fds, format } => RecvCall::Receive { len, max_fds },
        }
    }

    /// Returns the call that is awaited.
    pub fn call(&self) -> (call: RecvCall)
        ensures
            call == self.spec_call(),
    {
        match *self {
            PacketRecv::Sizing { max_fds, format } => RecvCall::NextPacketSize,
            PacketRecv::Receiving { len, max_fds, format } => RecvCall::Receive { len, max_fds },
        }
    }

    /// The reply answers the call: a size where that was asked for, and no more bytes than there was
    /// room for.
    pub open spec fn spec_accepts<D>(self, event: RecvEvent<D>) -> bool {
        match event {
            RecvEvent::PacketSize(_) => self is Sizing,
            RecvEvent::Data(bytes, _) => self matches PacketRecv::Receiving { len, .. }
                && bytes.len() <= len,
            _ => true,
        }
    }

    /// Tells whether a reply answers the call.
    pub fn accepts<D>(&self, reply: &Attempt<RecvReply<D>>) -> (yes: bool)
        ensures
            yes == self.spec_accepts(reply@),
    {
        match reply {
            Attempt::Done(RecvReply::PacketSize(_)) => match *self {
                PacketRecv::Sizing { .. } => true,
                PacketRecv::Receiving { .. } => false,
            },
            Attempt::Done(RecvReply::Data { bytes, .. }) => match *self {
                PacketRecv::Sizing { .. } => false,
                PacketRecv::Receiving { len, .. } => bytes.len() <= len,
            },
            Attempt::Interrupted => true,
            Attempt::Failed(_) => true,
        }
    }

    /// The step that a reply leads to. An interrupted call is made again, and an empty packet means
    /// that the other end is gone.
    pub open spec fn spec_resume<D>(self, event: RecvEvent<D>) -> RecvStepView<PacketRecv, D> {
        match (event, self) {
            (RecvEvent::Interrupted, _) => RecvStepView::Await(self),
            (RecvEvent::Failed(error), _) => RecvStepView::Done(Err(TubeError::Recv(error))),
            (RecvEvent::PacketSize(len), PacketRecv::Sizing { max_fds, format }) =>
                RecvStepView::Await(PacketRecv::Receiving { len, max_fds, format }),
            (
                RecvEvent::Data(bytes, descriptors),
                PacketRecv::Receiving { len, max_fds, format },
            ) => if bytes.len() == 0 {
                RecvStepView::Done(Err(TubeError::Disconnected))
            } else {
                RecvStepView::Done(Ok(PacketRecv::spec_message(bytes, descriptors, len, format)))
            },
            _ => RecvStepView::Await(self),
        }
    }

    /// Goes on from the reply to the call that was awaited.
    pub fn resume<D>(self, reply: Attempt<RecvReply<D>>) -> (step: RecvStep<PacketRecv, D>)
        requires
            self.spec_accepts(reply@),
        ensures
            step@ == self.spec_resume(reply@),
    {
        match reply {
            Attempt::Interrupted => RecvStep::Await(self),
            Attempt::Failed(error) => RecvStep::Done(Err(TubeError::Recv(error))),
            Attempt::Done(RecvReply::PacketSize(len)) => match self {
                PacketRecv::Sizing { max_fds, format } => RecvStep::Await(
                    PacketRecv::Receiving { len, max_fds, format },
                ),
                PacketRecv::Receiving { .. } => RecvStep::Await(self),
            },
            Attempt::Done(RecvReply::Data { bytes, descriptors }) => match self {
                PacketRecv::Sizing { .. } => RecvStep::Await(self),
                PacketRecv::Receiving { len, max_fds, format } => {
                    if bytes.len() == 0 {
                        return RecvStep::Done(Err(TubeError::Disconnected));
                    }
                    match format {
                        Format::Json => RecvStep::Done(Ok(Message { bytes, descriptors })),
                        Format::Proto => RecvStep::Done(
                            Ok(Message { bytes: pad(bytes, len), descriptors: Vec::new() }),
                        ),
                    }
                },
            },
        }
    }
}

} // verus!
