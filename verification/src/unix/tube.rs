//! Tubes: both ends send and receive messages that can carry descriptors.

use std::time::Duration;

use vstd::prelude::*;

use crate::linux::tube::PacketRecv;
use crate::macos::tube::{StreamRecv, StreamRecvView};
use crate::operation::Os;
use crate::syscall::RawDescriptor;
use crate::tube::{
    Attempt, Format, RecvCall, RecvEvent, RecvReply, RecvStep, RecvStepView, Transport,
    TubeError, SCM_SOCKET_MAX_FD_COUNT, TUBE_MAX_FDS,
};
use crate::wire::{encode_length, le_bytes, LENGTH_BYTES};

verus! {

/// One end of a tube, over a socket of the operating system.
#[derive(Debug)]
pub struct Tube<S> {
    pub(crate) socket: S,
    pub(crate) transport: Transport,
}

/// A tube for protos. It carries no descriptors.
#[derive(Debug)]
pub struct ProtoTube<S>(pub(crate) Tube<S>);

/// A message that has been serialized: its bytes, and the descriptors that it mentions.
#[derive(Debug)]
pub struct Serialized {
    pub bytes: Vec<u8>,
    pub descriptors: Vec<RawDescriptor>,
}

/// A message on its way into a socket: what is sent in one call, the header before the body.
#[derive(Debug)]
pub struct Transmission {
    pub header: Vec<u8>,
    pub body: Vec<u8>,
    pub descriptors: Vec<RawDescriptor>,
}

/// What stands before the bytes of a message: nothing where the socket keeps messages apart, and
/// the length of the message where it does not.
pub open spec fn spec_header(transport: Transport, len: nat) -> Seq<u8> {
    match transport {
        Transport::Packets => Seq::empty(),
        Transport::Stream => le_bytes(len, LENGTH_BYTES as nat),
    }
}

/// Where sending a message stands.
pub enum SendStep {
    Await(Transmission),
    Done(Result<(), TubeError>),
}

impl Transmission {
    /// Everything that is sent, in order.
    pub open spec fn wire(self) -> Seq<u8> {
        self.header@ + self.body@
    }

    /// The message with these bytes and descriptors is what is sent.
    pub open spec fn carries(
        self,
        transport: Transport,
        bytes: Seq<u8>,
        descriptors: Seq<RawDescriptor>,
    ) -> bool {
        &&& self.header@ == spec_header(transport, bytes.len())
        &&& self.body@ == bytes
        &&& self.descriptors@ == descriptors
    }

    /// Prepares a message to be sent over a kind of socket.
    fn prepare(transport: Transport, bytes: Vec<u8>, descriptors: Vec<RawDescriptor>) -> (out:
        Transmission)
        ensures
            out.carries(transport, bytes@, descriptors@),
    {
        let header: Vec<u8> = match transport {
            Transport::Packets => Vec::new(),
            Transport::Stream => encode_length(bytes.len() as u64),
        };
        Transmission { header, body: bytes, descriptors }
    }

    /// Goes on from what came of sending: an interrupted call is made again as it was, and a message
    /// counts as sent however many of its bytes the call reports.
    pub fn resume(self, reply: Attempt<usize>) -> (step: SendStep)
        ensures
            step == (match reply {
                Attempt::Done(_) => SendStep::Done(Ok(())),
                Attempt::Interrupted => SendStep::Await(self),
                Attempt::Failed(error) => SendStep::Done(Err(TubeError::Send(error))),
            }),
    {
        match reply {
            Attempt::Done(_) => SendStep::Done(Ok(())),
            Attempt::Interrupted => SendStep::Await(self),
            Attempt::Failed(error) => SendStep::Done(Err(TubeError::Send(error))),
        }
    }
}

/// Receiving a message, from either kind of socket.
#[derive(Debug)]
pub enum RecvOp<D> {
    Packet(PacketRecv),
    Stream(StreamRecv<D>),
}

/// What has been received of a message.
pub enum RecvOpView<D> {
    Packet(PacketRecv),
    Stream(StreamRecvView<D>),
}

impl<D> View for RecvOp<D> {
    type V = RecvOpView<D>;

    open spec fn view(&self) -> RecvOpView<D> {
        match *self {
            RecvOp::Packet(op) => RecvOpView::Packet(op),
            RecvOp::Stream(op) => RecvOpView::Stream(op@),
        }
    }
}

impl<D> RecvOpView<D> {
    /// There is something left to receive.
    pub open spec fn wf(self) -> bool {
        match self {
            RecvOpView::Packet(op) => true,
            RecvOpView::Stream(op) => op.wf(),
        }
    }

    /// Begins to receive a message.
    pub open spec fn spec_start(transport: Transport, max_fds: usize, format: Format) -> RecvOpView<
        D,
    > {
        match transport {
            Transport::Packets => RecvOpView::Packet(PacketRecv::Sizing { max_fds, format }),
            Transport::Stream => RecvOpView::Stream(StreamRecvView::spec_start(max_fds, format)),
        }
    }

    /// The call that is awaited.
    pub open spec fn spec_call(self) -> RecvCall {
        match self {
            RecvOpView::Packet(op) => op.spec_call(),
            RecvOpView::Stream(op) => op.read().spec_call(),
        }
    }

    /// The reply answers the call.
    pub open spec fn spec_accepts(self, event: RecvEvent<D>) -> bool {
        match self {
            RecvOpView::Packet(op) => op.spec_accepts(event),
            RecvOpView::Stream(op) => op.read().spec_accepts(event),
        }
    }

    /// The step that a reply leads to.
    pub open spec fn spec_resume(self, event: RecvEvent<D>) -> RecvStepView<RecvOpView<D>, D> {
        match self {
            RecvOpView::Packet(op) => match op.spec_resume(event) {
                RecvStepView::Await(op) => RecvStepView::Await(RecvOpView::Packet(op)),
                RecvStepView::Done(result) => RecvStepView::Done(result),
            },
            RecvOpView::Stream(op) => match op.spec_resume(event) {
                RecvStepView::Await(op) => RecvStepView::Await(RecvOpView::Stream(op)),
                RecvStepView::Done(result) => RecvStepView::Done(result),
            },
        }
    }
}

impl<D> RecvOp<D> {
    /// Begins to receive a message.
    fn start(transport: Transport, max_fds: usize, format: Format) -> (op: RecvOp<D>)
        ensures
            op@ == RecvOpView::<D>::spec_start(transport, max_fds, format),
            op@.wf(),
    {
        match transport {
            Transport::Packets => RecvOp::Packet(PacketRecv::Sizing { max_fds, format }),
            Transport::Stream => RecvOp::Stream(StreamRecv::start(max_fds, format)),
        }
    }

    /// Returns the call that is awaited.
    pub fn call(&self) -> (call: RecvCall)
        requires
            self@.wf(),
        ensures
            call == self@.spec_call(),
    {
        match self {
            RecvOp::Packet(op) => op.call(),
            RecvOp::Stream(op) => op.call(),
        }
    }

    /// Tells whether a reply answers the call.
    pub fn accepts(&self, reply: &Attempt<RecvReply<D>>) -> (yes: bool)
        requires
            self@.wf(),
        ensures
            yes == self@.spec_accepts(reply@),
    {
        match self {
            RecvOp::Packet(op) => op.accepts(reply),
            RecvOp::Stream(op) => op.accepts(reply),
        }
    }

    /// Goes on from the reply to the call that was awaited.
    pub fn resume(self, reply: Attempt<RecvReply<D>>) -> (step: RecvStep<RecvOp<D>, D>)
        requires
            self@.wf(),
            self@.spec_accepts(reply@),
        ensures
            step@ == self@.spec_resume(reply@),
            step matches RecvStep::Await(op) ==> op@.wf(),
    {
        match self {
            RecvOp::Packet(op) => match op.resume(reply) {
                RecvStep::Await(op) => RecvStep::Await(RecvOp::Packet(op)),
                RecvStep::Done(result) => RecvStep::Done(result),
            },
            RecvOp::Stream(op) => match op.resume(reply) {
                RecvStep::Await(op) => RecvStep::Await(RecvOp::Stream(op)),
                RecvStep::Done(result) => RecvStep::Done(result),
            },
        }
    }
}

/// A socket that is being readied to pass descriptors along.
#[derive(Debug)]
pub struct Attach<S> {
    pub socket: S,
    pub transport: Transport,
}

impl<S> Attach<S> {
    /// Makes a tube of the socket once it is ready.
    pub fn finish(self, reply: Result<(), std::io::Error>) -> (result: Result<Tube<S>, TubeError>)
        ensures
            result == (match reply {
                Ok(()) => Ok::<Tube<S>, TubeError>(Tube::spec_over(self.socket, self.transport)),
                Err(error) => Err(TubeError::ScmSocket(error)),
            }),
    {
        match reply {
            Ok(()) => Ok(Tube { socket: self.socket, transport: self.transport }),
            Err(error) => Err(TubeError::ScmSocket(error)),
        }
    }
}

/// How far a pair of tubes is.
#[derive(Clone, Copy, Debug, PartialEq, Eq, Structural)]
pub enum PairStage {
    /// The first socket is being kept from programs that this one starts.
    CloexecFirst,
    /// The second socket is.
    CloexecSecond,
    /// The first socket is being readied to pass descriptors along.
    AttachFirst,
    /// The second socket is.
    AttachSecond,
}

/// Making a pair of tubes of a pair of sockets.
#[derive(Debug)]
pub struct PairOp<S> {
    pub stage: PairStage,
    pub first: S,
    pub second: S,
    pub transport: Transport,
}

/// What is to be done to a socket of a pair.
pub enum PairCall<'a, S> {
    SetCloexec(&'a S),
    Attach(&'a S),
}

/// Where making a pair of tubes stands.
pub enum PairStep<S> {
    Await(PairOp<S>),
    Done(Result<(Tube<S>, Tube<S>), TubeError>),
}

impl<S> PairOp<S> {
    /// What is to be done next.
    pub open spec fn spec_call(&self) -> PairCall<'_, S> {
        match self.stage {
            PairStage::CloexecFirst => PairCall::SetCloexec(&self.first),
            PairStage::CloexecSecond => PairCall::SetCloexec(&self.second),
            PairStage::AttachFirst => PairCall::Attach(&self.first),
            PairStage::AttachSecond => PairCall::Attach(&self.second),
        }
    }

    /// Returns what is to be done next.
    pub fn call(&self) -> (call: PairCall<'_, S>)
        ensures
            call == self.spec_call(),
    {
        match self.stage {
            PairStage::CloexecFirst => PairCall::SetCloexec(&self.first),
            PairStage::CloexecSecond => PairCall::SetCloexec(&self.second),
            PairStage::AttachFirst => PairCall::Attach(&self.first),
            PairStage::AttachSecond => PairCall::Attach(&self.second),
        }
    }

    /// The step that a reply leads to.
    pub open spec fn spec_resume(self, reply: Result<(), std::io::Error>) -> PairStep<S> {
        match reply {
            Ok(()) => match self.stage {
                PairStage::CloexecFirst => PairStep::Await(
                    PairOp { stage: PairStage::CloexecSecond, ..self },
                ),
                PairStage::CloexecSecond => PairStep::Await(
                    PairOp { stage: PairStage::AttachFirst, ..self },
                ),
                PairStage::AttachFirst => PairStep::Await(
                    PairOp { stage: PairStage::AttachSecond, ..self },
                ),
                PairStage::AttachSecond => PairStep::Done(
                    Ok(
                        (
                            Tube::spec_over(self.first, self.transport),
                            Tube::spec_over(self.second, self.transport),
                        ),
                    ),
                ),
            },
            Err(error) => match self.stage {
                PairStage::CloexecFirst => PairStep::Done(Err(TubeError::Pair(error))),
                PairStage::CloexecSecond => PairStep::Done(Err(TubeError::Pair(error))),
                PairStage::AttachFirst => PairStep::Done(Err(TubeError::ScmSocket(error))),
                PairStage::AttachSecond => PairStep::Done(Err(TubeError::ScmSocket(error))),
            },
        }
    }

    /// Goes on from what came of the last thing that was to be done.
    pub fn resume(self, reply: Result<(), std::io::Error>) -> (step: PairStep<S>)
        ensures
            step == self.spec_resume(reply),
    {
        let PairOp { stage, first, second, transport } = self;
        match reply {
            Ok(()) => match stage {
                PairStage::CloexecFirst => PairStep::Await(
                    PairOp { stage: PairStage::CloexecSecond, first, second, transport },
                ),
                PairStage::CloexecSecond => PairStep::Await(
                    PairOp { stage: PairStage::AttachFirst, first, second, transport },
                ),
                PairStage::AttachFirst => PairStep::Await(
                    PairOp { stage: PairStage::AttachSecond, first, second, transport },
                ),
                PairStage::AttachSecond => PairStep::Done(
                    Ok((Tube { socket: first, transport }, Tube { socket: second, transport })),
                ),
            },
            Err(error) => match stage {
                PairStage::CloexecFirst => PairStep::Done(Err(TubeError::Pair(error))),
                PairStage::CloexecSecond => PairStep::Done(Err(TubeError::Pair(error))),
                PairStage::AttachFirst => PairStep::Done(Err(TubeError::ScmSocket(error))),
                PairStage::AttachSecond => PairStep::Done(Err(TubeError::ScmSocket(error))),
            },
        }
    }
}

/// Which wait a timeout limits.
#[derive(Clone, Copy, Debug, PartialEq, Eq, Structural)]
pub enum Direction {
    Send,
    Recv,
}

/// Setting a limit on a wait.
#[derive(Debug)]
pub struct TimeoutOp {
    pub direction: Direction,
    pub timeout: Option<Duration>,
}

impl TimeoutOp {
    /// Tells what came of it.
    pub fn finish(self, reply: Result<(), std::io::Error>) -> (result: Result<(), TubeError>)
        ensures
            result == (match reply {
                Ok(()) => Ok::<(), TubeError>(()),
                Err(error) => match self.direction {
                    Direction::Send => Err(TubeError::SetSendTimeout(error)),
                    Direction::Recv => Err(TubeError::SetRecvTimeout(error)),
                },
            }),
    {
        match reply {
            Ok(()) => Ok(()),
            Err(error) => match self.direction {
                Direction::Send => Err(TubeError::SetSendTimeout(error)),
                Direction::Recv => Err(TubeError::SetRecvTimeout(error)),
            },
        }
    }
}

/// What sending a message begins with, or why it cannot be sent: the limit on descriptors has to be
/// one that a socket allows, the message has to be serialized, and it has to keep to the limit.
pub open spec fn send_ok(
    result: Result<Transmission, TubeError>,
    transport: Transport,
    msg: Result<Serialized, serde_json::Error>,
    max_fds: usize,
) -> bool {
    if max_fds > SCM_SOCKET_MAX_FD_COUNT {
        result == Err::<Transmission, TubeError>(TubeError::SendTooManyFds)
    } else {
        match msg {
            Err(error) => result == Err::<Transmission, TubeError>(TubeError::Json(error)),
            Ok(msg) => if msg.descriptors@.len() > max_fds {
                result == Err::<Transmission, TubeError>(TubeError::SendTooManyFds)
            } else {
                result matches Ok(out) && out.carries(
                    transport,
                    msg.bytes@,
                    msg.descriptors@,
                )
            },
        }
    }
}

/// What receiving a message begins with, or why it cannot begin: the limit on descriptors has to be
/// one that a socket allows.
pub open spec fn recv_ok<D>(
    result: Result<RecvOp<D>, TubeError>,
    transport: Transport,
    max_fds: usize,
) -> bool {
    if max_fds > SCM_SOCKET_MAX_FD_COUNT {
        result == Err::<RecvOp<D>, TubeError>(TubeError::RecvTooManyFds)
    } else {
        result matches Ok(op) && op@ == RecvOpView::<D>::spec_start(
            transport,
            max_fds,
            Format::Json,
        ) && op@.wf()
    }
}

impl<S> Tube<S> {
    /// The socket of the tube.
    pub closed spec fn spec_socket(self) -> S {
        self.socket
    }

    /// How its messages are kept apart.
    pub closed spec fn spec_transport(self) -> Transport {
        self.transport
    }

    /// The tube over a socket.
    pub closed spec fn spec_over(socket: S, transport: Transport) -> Tube<S> {
        Tube { socket, transport }
    }

    /// The tube over a socket has that socket, and keeps messages apart as it was told to.
    pub broadcast proof fn lemma_spec_over(socket: S, transport: Transport)
        ensures
            (#[trigger] Tube::spec_over(socket, transport)).spec_socket() == socket,
            Tube::spec_over(socket, transport).spec_transport() == transport,
    {
    }

    /// Returns the socket of the tube.
    pub fn socket(&self) -> (socket: &S)
        ensures
            *socket == self.spec_socket(),
    {
        &self.socket
    }

    /// Returns how the messages of the tube are kept apart.
    pub fn transport(&self) -> (transport: Transport)
        ensures
            transport == self.spec_transport(),
    {
        self.transport
    }

    /// The step that begins to make a pair of tubes.
    pub open spec fn spec_pair(os: Os, sockets: Result<(S, S), std::io::Error>) -> PairStep<S> {
        match sockets {
            Ok((first, second)) => PairStep::Await(
                PairOp {
                    stage: match os {
                        Os::Linux => PairStage::AttachFirst,
                        Os::Macos => PairStage::CloexecFirst,
                    },
                    first,
                    second,
                    transport: Transport::spec_of(os),
                },
            ),
            Err(error) => PairStep::Done(Err(TubeError::Pair(error))),
        }
    }

    /// Begins to make a pair of connected tubes of a pair of connected sockets. On macOS the sockets
    /// have yet to be kept from programs that this one starts.
    pub fn pair(os: Os, sockets: Result<(S, S), std::io::Error>) -> (step: PairStep<S>)
        ensures
            step == Tube::spec_pair(os, sockets),
    {
        match sockets {
            Ok((first, second)) => {
                let stage: PairStage = match os {
                    Os::Linux => PairStage::AttachFirst,
                    Os::Macos => PairStage::CloexecFirst,
                };
                PairStep::Await(PairOp { stage, first, second, transport: Transport::of(os) })
            },
            Err(error) => PairStep::Done(Err(TubeError::Pair(error))),
        }
    }

    /// Begins to make a tube of a socket.
    pub fn try_from(socket: S, transport: Transport) -> (op: Attach<S>)
        ensures
            op == (Attach { socket, transport }),
    {
        Attach { socket, transport }
    }

    /// Begins to make another tube of a duplicate of the socket.
    pub fn try_clone(&self, duplicate: Result<S, std::io::Error>) -> (result: Result<
        Attach<S>,
        TubeError,
    >)
        ensures
            result == (match duplicate {
                Ok(socket) => Ok::<Attach<S>, TubeError>(
                    Attach { socket, transport: self.spec_transport() },
                ),
                Err(error) => Err(TubeError::Clone(error)),
            }),
    {
        match duplicate {
            Ok(socket) => Ok(Tube::try_from(socket, self.transport)),
            Err(error) => Err(TubeError::Clone(error)),
        }
    }

    /// Begins to send a message. It can carry up to `TUBE_MAX_FDS` descriptors.
    pub fn send(&self, msg: Result<Serialized, serde_json::Error>) -> (result: Result<
        Transmission,
        TubeError,
    >)
        ensures
            send_ok(result, self.spec_transport(), msg, TUBE_MAX_FDS),
    {
        self.send_with_max_fds(msg, TUBE_MAX_FDS)
    }

    /// Begins to receive a message. It can carry up to `TUBE_MAX_FDS` descriptors.
    pub fn recv<D>(&self) -> (result: Result<RecvOp<D>, TubeError>)
        ensures
            recv_ok(result, self.spec_transport(), TUBE_MAX_FDS),
    {
        self.recv_with_max_fds(TUBE_MAX_FDS)
    }

    /// Begins to send a message with up to `max_fds` descriptors.
    pub fn send_with_max_fds(
        &self,
        msg: Result<Serialized, serde_json::Error>,
        max_fds: usize,
    ) -> (result: Result<Transmission, TubeError>)
        ensures
            send_ok(result, self.spec_transport(), msg, max_fds),
    {
        if max_fds > SCM_SOCKET_MAX_FD_COUNT {
            return Err(TubeError::SendTooManyFds);
        }
        match msg {
            Err(error) => Err(TubeError::Json(error)),
            Ok(msg) => {
                if msg.descriptors.len() > max_fds {
                    return Err(TubeError::SendTooManyFds);
                }
                Ok(Transmission::prepare(self.transport, msg.bytes, msg.descriptors))
            },
        }
    }

    /// Begins to receive a message with up to `max_fds` descriptors.
    pub fn recv_with_max_fds<D>(&self, max_fds: usize) -> (result: Result<RecvOp<D>, TubeError>)
        ensures
            recv_ok(result, self.spec_transport(), max_fds),
    {
        if max_fds > SCM_SOCKET_MAX_FD_COUNT {
            return Err(TubeError::RecvTooManyFds);
        }
        Ok(RecvOp::start(self.transport, max_fds, Format::Json))
    }

    /// Begins to read exactly `len` bytes from a socket that carries a stream, with up to `max_fds`
    /// descriptors in front.
    pub fn recv_stream_exact<D>(&self, len: usize, max_fds: usize) -> (step: RecvStep<
        crate::macos::tube::StreamRead<D>,
        D,
    >)
        ensures
            step@ == crate::macos::tube::StreamReadView::<D>::spec_start(len, max_fds),
            step matches RecvStep::Await(read) ==> read@.wf(),
    {
        crate::macos::tube::StreamRead::start(len, max_fds)
    }

    /// The value that a message was parsed into, or why it was not.
    pub fn parsed<T>(value: Result<T, serde_json::Error>) -> (result: Result<T, TubeError>)
        ensures
            result == (match value {
                Ok(value) => Ok::<T, TubeError>(value),
                Err(error) => Err(TubeError::Json(error)),
            }),
    {
        match value {
            Ok(value) => Ok(value),
            Err(error) => Err(TubeError::Json(error)),
        }
    }

    /// Begins to send a proto that has been turned into bytes.
    fn send_proto_impl(&self, msg: Result<Vec<u8>, protobuf::Error>) -> (result: Result<
        Transmission,
        TubeError,
    >)
        ensures
            match msg {
                Err(error) => result == Err::<Transmission, TubeError>(TubeError::Proto(error)),
                Ok(bytes) => result matches Ok(out) && out.carries(
                    self.spec_transport(),
                    bytes@,
                    Seq::empty(),
                ),
            },
    {
        match msg {
            Err(error) => Err(TubeError::Proto(error)),
            Ok(bytes) => Ok(Transmission::prepare(self.transport, bytes, Vec::new())),
        }
    }

    /// Begins to receive a proto.
    fn recv_proto_impl<D>(&self) -> (op: RecvOp<D>)
        ensures
            op@ == RecvOpView::<D>::spec_start(self.spec_transport(), TUBE_MAX_FDS, Format::Proto),
            op@.wf(),
    {
        RecvOp::start(self.transport, TUBE_MAX_FDS, Format::Proto)
    }

    /// Begins to limit how long sending can wait, or to lift the limit.
    pub fn set_send_timeout(&self, timeout: Option<Duration>) -> (op: TimeoutOp)
        ensures
            op == (TimeoutOp { direction: Direction::Send, timeout }),
    {
        TimeoutOp { direction: Direction::Send, timeout }
    }

    /// Begins to limit how long receiving can wait, or to lift the limit.
    pub fn set_recv_timeout(&self, timeout: Option<Duration>) -> (op: TimeoutOp)
        ensures
            op == (TimeoutOp { direction: Direction::Recv, timeout }),
    {
        TimeoutOp { direction: Direction::Recv, timeout }
    }
}

impl<S> ProtoTube<S> {
    /// The tube that carries the protos.
    pub closed spec fn spec_tube(self) -> Tube<S> {
        self.0
    }

    /// The proto tube over a tube.
    pub closed spec fn spec_over(tube: Tube<S>) -> ProtoTube<S> {
        ProtoTube(tube)
    }

    /// The proto tube over a tube uses that tube.
    pub broadcast proof fn lemma_spec_over(tube: Tube<S>)
        ensures
            (#[trigger] ProtoTube::spec_over(tube)).spec_tube() == tube,
    {
    }

    /// Returns the tube that carries the protos.
    pub fn tube(&self) -> (tube: &Tube<S>)
        ensures
            *tube == self.spec_tube(),
    {
        &self.0
    }

    /// Makes a pair of proto tubes of what came of making a pair of tubes.
    pub fn pair(tubes: Result<(Tube<S>, Tube<S>), TubeError>) -> (result: Result<
        (ProtoTube<S>, ProtoTube<S>),
        TubeError,
    >)
        ensures
            match tubes {
                Ok((t1, t2)) => result == Ok::<(ProtoTube<S>, ProtoTube<S>), TubeError>(
                    (ProtoTube::spec_over(t1), ProtoTube::spec_over(t2)),
                ),
                Err(error) => result == Err::<(ProtoTube<S>, ProtoTube<S>), TubeError>(error),
            },
    {
        match tubes {
            Ok((t1, t2)) => Ok((ProtoTube(t1), ProtoTube(t2))),
            Err(error) => Err(error),
        }
    }

    /// Begins to send a proto that has been turned into bytes.
    pub fn send_proto(&self, msg: Result<Vec<u8>, protobuf::Error>) -> (result: Result<
        Transmission,
        TubeError,
    >)
        ensures
            match msg {
                Err(error) => result == Err::<Transmission, TubeError>(TubeError::Proto(error)),
                Ok(bytes) => result matches Ok(out) && out.carries(
                    self.spec_tube().spec_transport(),
                    bytes@,
                    Seq::empty(),
                ),
            },
    {
        self.0.send_proto_impl(msg)
    }

    /// Begins to receive a proto.
    pub fn recv_proto<D>(&self) -> (op: RecvOp<D>)
        ensures
            op@ == RecvOpView::<D>::spec_start(
                self.spec_tube().spec_transport(),
                TUBE_MAX_FDS,
                Format::Proto,
            ),
            op@.wf(),
    {
        self.0.recv_proto_impl()
    }

    /// The proto that a message was parsed into, or why it was not.
    pub fn parsed<M>(value: Result<M, protobuf::Error>) -> (result: Result<M, TubeError>)
        ensures
            result == (match value {
                Ok(value) => Ok::<M, TubeError>(value),
                Err(error) => Err(TubeError::Proto(error)),
            }),
    {
        match value {
            Ok(value) => Ok(value),
            Err(error) => Err(TubeError::Proto(error)),
        }
    }
}

impl<S> From<Tube<S>> for ProtoTube<S> {
    fn from(tube: Tube<S>) -> (proto_tube: ProtoTube<S>) {
        ProtoTube(tube)
    }
}

impl<S> vstd::std_specs::convert::FromSpecImpl<Tube<S>> for ProtoTube<S> {
    open spec fn obeys_from_spec() -> bool {
        true
    }

    open spec fn from_spec(tube: Tube<S>) -> ProtoTube<S> {
        ProtoTube::spec_over(tube)
    }
}

} // verus!
