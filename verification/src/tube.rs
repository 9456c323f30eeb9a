//! What every tube knows: how it can fail, and what comes in on it.
//!
//! As with memory, nothing here touches a socket. Receiving a message is a value that waits for the
//! reply to one call on the socket; each reply gives the next step.

use vstd::prelude::*;

use crate::operation::Os;

verus! {

/// `std::io::Error`, which says why a call on a socket failed. It is carried, never looked into.
#[verifier::external_type_specification]
#[verifier::external_body]
pub struct ExIoError(std::io::Error);

/// `serde_json::Error`, which says why a message could not be turned into JSON or back. It is
/// carried, never looked into.
#[verifier::external_type_specification]
#[verifier::external_body]
pub struct ExJsonError(serde_json::Error);

/// `protobuf::Error`, which says why a proto could not be turned into bytes or back. It is carried,
/// never looked into.
#[verifier::external_type_specification]
#[verifier::external_body]
pub struct ExProtoError(protobuf::Error);

/// The most descriptors that a message carries unless the sender and the receiver agree on more.
pub const TUBE_MAX_FDS: usize = 32;

/// The most descriptors that a socket passes along with a message.
pub const SCM_SOCKET_MAX_FD_COUNT: usize = 253;

/// Why an operation on a tube failed.
#[derive(Debug)]
pub enum TubeError {
    /// The socket could not be duplicated.
    Clone(std::io::Error),
    /// The other end is gone.
    Disconnected,
    /// The message is not JSON, or cannot be made into it.
    Json(serde_json::Error),
    /// No pair of sockets could be made.
    Pair(std::io::Error),
    /// The message is not the proto, or cannot be made into bytes.
    Proto(protobuf::Error),
    /// The message could not be received.
    Recv(std::io::Error),
    /// More descriptors were to be received than a socket passes along.
    RecvTooManyFds,
    /// The socket cannot pass descriptors along.
    ScmSocket(std::io::Error),
    /// The message could not be sent.
    Send(std::io::Error),
    /// More descriptors were to be sent than the message may carry.
    SendTooManyFds,
    /// The limit on how long to wait for a message could not be set.
    SetRecvTimeout(std::io::Error),
    /// The limit on how long to wait to send could not be set.
    SetSendTimeout(std::io::Error),
}

/// What came of a call that a signal can interrupt.
#[derive(Debug)]
pub enum Attempt<T> {
    Done(T),
    Interrupted,
    Failed(std::io::Error),
}

/// How a socket keeps messages apart.
#[derive(Clone, Copy, Debug, PartialEq, Eq, Structural)]
pub enum Transport {
    /// The socket does it: each message is a packet.
    Packets,
    /// The socket carries a stream of bytes: each message is sent behind its length.
    Stream,
}

impl Transport {
    /// Linux has sockets that carry packets, macOS has not.
    pub open spec fn spec_of(os: Os) -> Transport {
        match os {
            Os::Linux => Transport::Packets,
            Os::Macos => Transport::Stream,
        }
    }

    /// The kind of socket that a tube uses on a system.
    pub fn of(os: Os) -> (transport: Transport)
        ensures
            transport == Transport::spec_of(os),
    {
        match os {
            Os::Linux => Transport::Packets,
            Os::Macos => Transport::Stream,
        }
    }
}

/// What the bytes of a message are.
#[derive(Clone, Copy, Debug, PartialEq, Eq, Structural)]
pub enum Format {
    /// JSON, which is never empty, with the descriptors that it mentions.
    Json,
    /// A proto, which carries no descriptors.
    Proto,
}

/// A call that receiving a message makes on its socket.
#[derive(Clone, Copy, Debug, PartialEq, Eq, Structural)]
pub enum RecvCall {
    /// Wait for the next packet and tell its size.
    NextPacketSize,
    /// Receive up to `len` bytes and up to `max_fds` descriptors.
    Receive { len: usize, max_fds: usize },
}

/// What a call on a socket brought in.
#[derive(Debug)]
pub enum RecvReply<D> {
    /// The size of the next packet.
    PacketSize(usize),
    /// The bytes that were received, none where the other end is gone, and the descriptors that
    /// came with them.
    Data { bytes: Vec<u8>, descriptors: Vec<D> },
}

/// A message as it came in.
#[derive(Debug)]
pub struct Message<D> {
    pub bytes: Vec<u8>,
    pub descriptors: Vec<D>,
}

/// The contents of a message.
pub struct MessageView<D> {
    pub bytes: Seq<u8>,
    pub descriptors: Seq<D>,
}

impl<D> View for Message<D> {
    type V = MessageView<D>;

    open spec fn view(&self) -> MessageView<D> {
        MessageView { bytes: self.bytes@, descriptors: self.descriptors@ }
    }
}

/// What came of a call on the socket of a message that is being received.
pub enum RecvEvent<D> {
    Interrupted,
    Failed(std::io::Error),
    PacketSize(usize),
    Data(Seq<u8>, Seq<D>),
}

impl<D> View for Attempt<RecvReply<D>> {
    type V = RecvEvent<D>;

    open spec fn view(&self) -> RecvEvent<D> {
        match *self {
            Attempt::Interrupted => RecvEvent::Interrupted,
            Attempt::Failed(error) => RecvEvent::Failed(error),
            Attempt::Done(RecvReply::PacketSize(size)) => RecvEvent::PacketSize(size),
            Attempt::Done(RecvReply::Data { bytes, descriptors }) => RecvEvent::Data(
                bytes@,
                descriptors@,
            ),
        }
    }
}

/// How the contents of a message come out: a message, or why there is none.
pub open spec fn result_view<D>(result: Result<Message<D>, TubeError>) -> Result<
    MessageView<D>,
    TubeError,
> {
    match result {
        Ok(message) => Ok(message@),
        Err(error) => Err(error),
    }
}

/// Where receiving a message stands: it awaits the reply to a call, or it is over.
pub enum RecvStep<K, D> {
    Await(K),
    Done(Result<Message<D>, TubeError>),
}

/// Where receiving a message stands, by what has come in.
pub enum RecvStepView<K, D> {
    Await(K),
    Done(Result<MessageView<D>, TubeError>),
}

impl<K: View, D> View for RecvStep<K, D> {
    type V = RecvStepView<K::V, D>;

    open spec fn view(&self) -> RecvStepView<K::V, D> {
        match *self {
            RecvStep::Await(op) => RecvStepView::Await(op@),
            RecvStep::Done(result) => RecvStepView::Done(result_view(result)),
        }
    }
}

} // verus!
