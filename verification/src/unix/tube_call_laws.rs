//! What each operation on a tube asks of its socket, and how it ends, by the arguments that it was
//! given.

use std::time::Duration;

use vstd::prelude::*;

use crate::linux::tube::PacketRecv;
use crate::macos::tube::{StreamRead, StreamReadView, StreamRecv, StreamRecvView};
use crate::operation::Os;
use crate::syscall::RawDescriptor;
use crate::tube::{
    Attempt, Format, MessageView, RecvCall, RecvEvent, RecvReply, RecvStep, RecvStepView, Transport,
    TubeError,
};
use crate::unix::tube::{
    Attach, PairCall, PairOp, PairStep, ProtoTube, RecvOp, RecvOpView, SendStep,
    Serialized, TimeoutOp, Transmission, Tube,
};
use crate::unix::tube_laws::{
    law_packet_message_comes_back, law_stream_is_read_exactly, law_stream_message_comes_back,
    packet_feeds, read_accepted, read_after, read_descriptors, read_feeds, read_left, received,
    recv_accepted, stream_feeds,
};
use crate::wire::{lemma_length_bytes, lemma_number, number};

verus! {

/// The header says how long the message is where the socket does not: eight bytes, the lowest
/// first.
pub open spec fn announces(header: Seq<u8>, transport: Transport, len: nat) -> bool {
    match transport {
        Transport::Packets => header.len() == 0,
        Transport::Stream => header.len() == 8 && number(header) == len,
    }
}

/// What is sent is the message: its length where that has to be told, its bytes, and its
/// descriptors.
pub open spec fn sends(
    out: Transmission,
    transport: Transport,
    bytes: Seq<u8>,
    descriptors: Seq<RawDescriptor>,
) -> bool {
    &&& announces(out.header@, transport, bytes.len())
    &&& out.body@ == bytes
    &&& out.descriptors@ == descriptors
}

/// What comes of sending a message with at most so many descriptors.
pub open spec fn sends_up_to(
    result: Result<Transmission, TubeError>,
    transport: Transport,
    msg: Result<Serialized, serde_json::Error>,
    most: int,
) -> bool {
    if most > 253 {
        result == Err::<Transmission, TubeError>(TubeError::SendTooManyFds)
    } else {
        match msg {
            Err(error) => result == Err::<Transmission, TubeError>(TubeError::Json(error)),
            Ok(msg) => if msg.descriptors@.len() > most {
                result == Err::<Transmission, TubeError>(TubeError::SendTooManyFds)
            } else {
                result matches Ok(out) && sends(out, transport, msg.bytes@, msg.descriptors@)
            },
        }
    }
}

/// A message is sent as it was serialized, unless it has more descriptors than it may carry or more
/// may be carried than a socket passes along: 253, and 32 where nothing else is said.
pub proof fn law_send<S>(
    tube: Tube<S>,
    msg: Result<Serialized, serde_json::Error>,
    max_fds: usize,
    limited: Result<Transmission, TubeError>,
    usual: Result<Transmission, TubeError>,
)
    requires
        call_ensures(Tube::<S>::send_with_max_fds, (&tube, msg, max_fds), limited),
        call_ensures(Tube::<S>::send, (&tube, msg), usual),
    ensures
        sends_up_to(limited, tube.spec_transport(), msg, max_fds as int),
        sends_up_to(usual, tube.spec_transport(), msg, 32),
{
    if let Ok(serialized) = msg {
        assert(serialized.bytes@.len() == serialized.bytes.len());
        lemma_length_bytes(serialized.bytes@.len());
    }
}

/// A proto is sent as its bytes, without descriptors, unless it could not be turned into bytes.
pub proof fn law_send_proto<S>(
    tube: ProtoTube<S>,
    msg: Result<Vec<u8>, protobuf::Error>,
    result: Result<Transmission, TubeError>,
)
    requires
        call_ensures(ProtoTube::<S>::send_proto, (&tube, msg), result),
    ensures
        match msg {
            Err(error) => result == Err::<Transmission, TubeError>(TubeError::Proto(error)),
            Ok(bytes) => result matches Ok(out) && sends(
                out,
                tube.spec_tube().spec_transport(),
                bytes@,
                Seq::empty(),
            ),
        },
{
    if let Ok(bytes) = msg {
        assert(bytes@.len() == bytes.len());
        lemma_length_bytes(bytes@.len());
    }
}

/// Sending is over once the socket has taken the message or has failed, and begins again where it
/// was interrupted.
pub proof fn law_sending_goes_on(out: Transmission, reply: Attempt<usize>, step: SendStep)
    requires
        call_ensures(Transmission::resume, (out, reply), step),
    ensures
        reply is Done ==> (step matches SendStep::Done(result) && result is Ok),
        reply is Interrupted ==> step == SendStep::Await(out),
        reply matches Attempt::Failed(error) ==> step == SendStep::Done(
            Err(TubeError::Send(error)),
        ),
{
}

/// One more reply takes receiving one step further.
proof fn lemma_received_one_more<D>(
    step: RecvStepView<RecvOpView<D>, D>,
    events: Seq<RecvEvent<D>>,
)
    requires
        events.len() > 0,
        recv_accepted(step, events),
    ensures
        recv_accepted(step, events.drop_last()),
        received(step, events) == (match received(step, events.drop_last()) {
            RecvStepView::Await(op) => op.spec_resume(events.last()),
            RecvStepView::Done(result) => RecvStepView::Done(result),
        }),
        received(step, events.drop_last()) matches RecvStepView::Await(op) ==> op.spec_accepts(
            events.last(),
        ),
    decreases events.len(),
{
    if let RecvStepView::Await(op) = step {
        let next = op.spec_resume(events[0]);
        let rest = events.skip(1);
        if events.len() > 1 {
            lemma_received_one_more(next, rest);
            assert(events.drop_last().skip(1) =~= rest.drop_last());
            assert(rest.last() == events.last());
        } else {
            assert(received(next, rest) == next);
        }
    }
}

/// The size of the packet, once it has been told.
pub open spec fn told_size<D>(events: Seq<RecvEvent<D>>) -> Option<usize>
    decreases events.len(),
{
    if events.len() == 0 {
        None
    } else {
        match events.last() {
            RecvEvent::PacketSize(size) => Some(size),
            _ => told_size(events.drop_last()),
        }
    }
}

/// Receiving a packet is under way: its size is asked for, then exactly as many bytes and up to as
/// many descriptors as the receiver was started with. An interrupted call is made again. A packet
/// without bytes stands for the end of the connection, any other is the message. Of a proto, the
/// descriptors are left behind and what was not filled of the buffer is zero.
pub open spec fn receives_packet<D>(
    op: RecvOpView<D>,
    size: Option<usize>,
    max_fds: usize,
    json: bool,
) -> bool {
    &&& op.spec_call() == (match size {
        None => RecvCall::NextPacketSize,
        Some(len) => RecvCall::Receive { len, max_fds },
    })
    &&& op.spec_accepts(RecvEvent::Interrupted)
    &&& op.spec_resume(RecvEvent::Interrupted) == RecvStepView::<RecvOpView<D>, D>::Await(op)
    &&& forall|error: std::io::Error|
        {
            &&& op.spec_accepts(RecvEvent::Failed(error))
            &&& #[trigger] op.spec_resume(RecvEvent::Failed(error)) == RecvStepView::<
                RecvOpView<D>,
                D,
            >::Done(Err(TubeError::Recv(error)))
        }
    &&& forall|len: usize| #[trigger]
        op.spec_accepts(RecvEvent::PacketSize(len)) <==> size is None
    &&& size is None ==> forall|len: usize| #[trigger]
        op.spec_resume(RecvEvent::PacketSize(len)) is Await
    &&& forall|bytes: Seq<u8>, fds: Seq<D>| #[trigger]
        op.spec_accepts(RecvEvent::Data(bytes, fds)) <==> (size matches Some(len) && bytes.len()
            <= len)
    &&& forall|bytes: Seq<u8>, fds: Seq<D>|
        size is Some && bytes.len() <= size->0 ==> match #[trigger] op.spec_resume(
            RecvEvent::Data(bytes, fds),
        ) {
            RecvStepView::Await(_) => false,
            RecvStepView::Done(Err(error)) => bytes.len() == 0 && error == TubeError::Disconnected,
            RecvStepView::Done(Ok(message)) => {
                &&& bytes.len() > 0
                &&& json ==> message.bytes == bytes && message.descriptors == fds
                &&& !json ==> {
                    &&& message.descriptors.len() == 0
                    &&& message.bytes.len() == size->0
                    &&& forall|i: int|
                        0 <= i < message.bytes.len() ==> #[trigger] message.bytes[i] == (if i
                            < bytes.len() {
                            bytes[i]
                        } else {
                            0
                        })
                }
            },
        }
}

proof fn lemma_packet_state<D>(max_fds: usize, format: Format, events: Seq<RecvEvent<D>>)
    requires
        recv_accepted(
            RecvStepView::Await(RecvOpView::<D>::Packet(PacketRecv::Sizing { max_fds, format })),
            events,
        ),
    ensures
        received(
            RecvStepView::Await(RecvOpView::<D>::Packet(PacketRecv::Sizing { max_fds, format })),
            events,
        ) matches RecvStepView::Await(op) ==> op == RecvOpView::<D>::Packet(
            match told_size(events) {
                None => PacketRecv::Sizing { max_fds, format },
                Some(len) => PacketRecv::Receiving { len, max_fds, format },
            },
        ),
    decreases events.len(),
{
    let start = RecvStepView::Await(
        RecvOpView::<D>::Packet(PacketRecv::Sizing { max_fds, format }),
    );
    if events.len() > 0 {
        lemma_received_one_more(start, events);
        lemma_packet_state::<D>(max_fds, format, events.drop_last());
    } else {
        assert(received(start, events) == start);
    }
}

/// Receiving over packets asks for what it was started with, whatever came before.
pub proof fn law_packets_are_received<S, D>(
    tube: Tube<S>,
    proto_tube: ProtoTube<S>,
    max_fds: usize,
    limited: Result<RecvOp<D>, TubeError>,
    usual: Result<RecvOp<D>, TubeError>,
    proto: RecvOp<D>,
    events: Seq<RecvEvent<D>>,
)
    requires
        tube.spec_transport() is Packets,
        proto_tube.spec_tube().spec_transport() is Packets,
        call_ensures(Tube::<S>::recv_with_max_fds::<D>, (&tube, max_fds), limited),
        call_ensures(Tube::<S>::recv::<D>, (&tube,), usual),
        call_ensures(ProtoTube::<S>::recv_proto::<D>, (&proto_tube,), proto),
    ensures
        max_fds > 253 ==> limited == Err::<RecvOp<D>, TubeError>(TubeError::RecvTooManyFds),
        max_fds <= 253 ==> (limited matches Ok(op) && (recv_accepted(
            RecvStepView::Await(op@),
            events,
        ) ==> (received(RecvStepView::Await(op@), events) matches RecvStepView::Await(next)
            ==> receives_packet(next, told_size(events), max_fds, true)))),
        usual matches Ok(op) && (recv_accepted(RecvStepView::Await(op@), events) ==> (received(
            RecvStepView::Await(op@),
            events,
        ) matches RecvStepView::Await(next) ==> receives_packet(
            next,
            told_size(events),
            32,
            true,
        ))),
        recv_accepted(RecvStepView::Await(proto@), events) ==> (received(
            RecvStepView::Await(proto@),
            events,
        ) matches RecvStepView::Await(next) ==> receives_packet(
            next,
            told_size(events),
            32,
            false,
        )),
{
    if max_fds <= 253 && recv_accepted(RecvStepView::Await((limited->Ok_0)@), events) {
        lemma_packet_state::<D>(max_fds, Format::Json, events);
    }
    if recv_accepted(RecvStepView::Await((usual->Ok_0)@), events) {
        lemma_packet_state::<D>(32, Format::Json, events);
    }
    if recv_accepted(RecvStepView::Await(proto@), events) {
        lemma_packet_state::<D>(32, Format::Proto, events);
    }
}

/// The bytes that have come in, in order.
pub open spec fn came_in<D>(events: Seq<RecvEvent<D>>) -> Seq<u8>
    decreases events.len(),
{
    if events.len() == 0 {
        Seq::empty()
    } else {
        match events.last() {
            RecvEvent::Data(bytes, _) => came_in(events.drop_last()) + bytes,
            _ => came_in(events.drop_last()),
        }
    }
}

/// The descriptors that have come in with the bytes of the length, in order.
pub open spec fn came_in_front<D>(events: Seq<RecvEvent<D>>) -> Seq<D>
    decreases events.len(),
{
    if events.len() == 0 {
        Seq::empty()
    } else {
        match events.last() {
            RecvEvent::Data(_, fds) if came_in(events.drop_last()).len() < 8 => came_in_front(
                events.drop_last(),
            ) + fds,
            _ => came_in_front(events.drop_last()),
        }
    }
}

/// How many bytes of the message are still missing: those of its length, then as many as the length
/// says. A length is cut to what a machine word holds.
pub open spec fn missing(bytes: Seq<u8>) -> int {
    if bytes.len() < 8 {
        8 - bytes.len()
    } else {
        8 + ((number(bytes.take(8)) as u64) as usize) - bytes.len()
    }
}

/// Receiving from a stream is under way: what is missing of the message is asked for, and
/// descriptors only with its first byte. An interrupted call is made again, and the end of the
/// stream disconnects. The piece that completes the message ends it: its bytes are those behind the
/// length, its descriptors those that came with the length, and a proto leaves them behind. A
/// length of zero stands for the end of the connection, unless it is that of a proto.
pub open spec fn receives_stream<D>(
    op: RecvOpView<D>,
    got: Seq<u8>,
    front: Seq<D>,
    max_fds: usize,
    json: bool,
) -> bool {
    &&& missing(got) > 0
    &&& op.spec_call() == (RecvCall::Receive {
        len: missing(got) as usize,
        max_fds: if got.len() == 0 {
            max_fds
        } else {
            0
        },
    })
    &&& op.spec_accepts(RecvEvent::Interrupted)
    &&& op.spec_resume(RecvEvent::Interrupted) == RecvStepView::<RecvOpView<D>, D>::Await(op)
    &&& forall|error: std::io::Error|
        {
            &&& op.spec_accepts(RecvEvent::Failed(error))
            &&& #[trigger] op.spec_resume(RecvEvent::Failed(error)) == RecvStepView::<
                RecvOpView<D>,
                D,
            >::Done(Err(TubeError::Recv(error)))
        }
    &&& forall|len: usize| !#[trigger] op.spec_accepts(RecvEvent::PacketSize(len))
    &&& forall|bytes: Seq<u8>, fds: Seq<D>| #[trigger]
        op.spec_accepts(RecvEvent::Data(bytes, fds)) <==> bytes.len() <= missing(got)
    &&& forall|bytes: Seq<u8>, fds: Seq<D>|
        bytes.len() <= missing(got) ==> ends_stream(
            #[trigger] op.spec_resume(RecvEvent::Data(bytes, fds)),
            got,
            bytes,
            if got.len() < 8 {
                front + fds
            } else {
                front
            },
            json,
        )
}

/// The step that a piece leads to: the message is over exactly where nothing is missing any more or
/// the stream has ended.
pub open spec fn ends_stream<D>(
    step: RecvStepView<RecvOpView<D>, D>,
    got: Seq<u8>,
    piece: Seq<u8>,
    front: Seq<D>,
    json: bool,
) -> bool {
    let all = got + piece;
    match step {
        RecvStepView::Await(_) => piece.len() > 0 && missing(all) > 0,
        RecvStepView::Done(Err(error)) => {
            &&& error == TubeError::Disconnected
            &&& piece.len() == 0 || (json && all.len() == 8 && missing(all) == 0)
        },
        RecvStepView::Done(Ok(message)) => {
            &&& piece.len() > 0
            &&& missing(all) == 0
            &&& json ==> all.len() > 8
            &&& message.bytes == all.skip(8)
            &&& json ==> message.descriptors == front
            &&& !json ==> message.descriptors.len() == 0
        },
    }
}

spec fn stream_stands<D>(
    op: RecvOpView<D>,
    got: Seq<u8>,
    front: Seq<D>,
    max_fds: usize,
    format: Format,
) -> bool {
    match op {
        RecvOpView::Stream(StreamRecvView::Header { read, format: f }) => {
            &&& f == format
            &&& read.want == 8
            &&& read.max_fds == max_fds
            &&& read.data == got
            &&& got.len() < 8
            &&& read.descriptors == front
        },
        RecvOpView::Stream(StreamRecvView::Body { read, descriptors }) => {
            &&& got.len() >= 8
            &&& read.want == (number(got.take(8)) as u64) as usize
            &&& read.max_fds == 0
            &&& read.data == got.skip(8)
            &&& read.data.len() < read.want
            &&& descriptors == match format {
                Format::Json => front,
                Format::Proto => Seq::empty(),
            }
        },
        RecvOpView::Packet(_) => false,
    }
}

proof fn lemma_stream_piece<D>(
    op: RecvOpView<D>,
    got: Seq<u8>,
    front: Seq<D>,
    max_fds: usize,
    format: Format,
    bytes: Seq<u8>,
    fds: Seq<D>,
)
    requires
        stream_stands(op, got, front, max_fds, format),
        bytes.len() <= missing(got),
    ensures
        ({
            let next = op.spec_resume(RecvEvent::Data(bytes, fds));
            let then = if got.len() < 8 {
                front + fds
            } else {
                front
            };
            &&& ends_stream(next, got, bytes, then, format is Json)
            &&& next matches RecvStepView::Await(op) ==> stream_stands(
                op,
                got + bytes,
                then,
                max_fds,
                format,
            )
        }),
{
    let all = got + bytes;
    if got.len() < 8 {
        if all.len() == 8 {
            lemma_number(all);
            assert(all.take(8) =~= all);
            assert(all.skip(8) =~= Seq::<u8>::empty());
        }
    } else {
        assert(all.take(8) =~= got.take(8));
        assert(all.skip(8) =~= got.skip(8) + bytes);
    }
}

proof fn lemma_stream_state<D>(max_fds: usize, format: Format, events: Seq<RecvEvent<D>>)
    requires
        recv_accepted(
            RecvStepView::Await(RecvOpView::<D>::spec_start(Transport::Stream, max_fds, format)),
            events,
        ),
    ensures
        received(
            RecvStepView::Await(RecvOpView::<D>::spec_start(Transport::Stream, max_fds, format)),
            events,
        ) matches RecvStepView::Await(op) ==> stream_stands(
            op,
            came_in(events),
            came_in_front(events),
            max_fds,
            format,
        ),
    decreases events.len(),
{
    let start = RecvStepView::Await(
        RecvOpView::<D>::spec_start(Transport::Stream, max_fds, format),
    );
    if events.len() > 0 {
        let before = events.drop_last();
        lemma_received_one_more(start, events);
        lemma_stream_state::<D>(max_fds, format, before);
        if let RecvStepView::Await(op) = received(start, before) {
            if let RecvEvent::Data(bytes, fds) = events.last() {
                let got = came_in(before);
                let front = came_in_front(before);
                lemma_stream_asks(op, got, front, max_fds, format);
                lemma_stream_piece(op, got, front, max_fds, format, bytes, fds);
            }
        }
    } else {
        assert(received(start, events) == start);
    }
}

proof fn lemma_stream_asks<D>(
    op: RecvOpView<D>,
    got: Seq<u8>,
    front: Seq<D>,
    max_fds: usize,
    format: Format,
)
    requires
        stream_stands(op, got, front, max_fds, format),
    ensures
        receives_stream(op, got, front, max_fds, format is Json),
{
    assert forall|bytes: Seq<u8>, fds: Seq<D>|
        bytes.len() <= missing(got) implies ends_stream(
        #[trigger] op.spec_resume(RecvEvent::Data(bytes, fds)),
        got,
        bytes,
        if got.len() < 8 {
            front + fds
        } else {
            front
        },
        format is Json,
    ) by {
        lemma_stream_piece(op, got, front, max_fds, format, bytes, fds);
    }
}

/// Receiving over a stream asks for what is missing, whatever came before.
pub proof fn law_streams_are_received<S, D>(
    tube: Tube<S>,
    proto_tube: ProtoTube<S>,
    max_fds: usize,
    limited: Result<RecvOp<D>, TubeError>,
    usual: Result<RecvOp<D>, TubeError>,
    proto: RecvOp<D>,
    events: Seq<RecvEvent<D>>,
)
    requires
        tube.spec_transport() is Stream,
        proto_tube.spec_tube().spec_transport() is Stream,
        call_ensures(Tube::<S>::recv_with_max_fds::<D>, (&tube, max_fds), limited),
        call_ensures(Tube::<S>::recv::<D>, (&tube,), usual),
        call_ensures(ProtoTube::<S>::recv_proto::<D>, (&proto_tube,), proto),
    ensures
        max_fds > 253 ==> limited == Err::<RecvOp<D>, TubeError>(TubeError::RecvTooManyFds),
        max_fds <= 253 ==> (limited matches Ok(op) && (recv_accepted(
            RecvStepView::Await(op@),
            events,
        ) ==> (received(RecvStepView::Await(op@), events) matches RecvStepView::Await(next)
            ==> receives_stream(next, came_in(events), came_in_front(events), max_fds, true)))),
        usual matches Ok(op) && (recv_accepted(RecvStepView::Await(op@), events) ==> (received(
            RecvStepView::Await(op@),
            events,
        ) matches RecvStepView::Await(next) ==> receives_stream(
            next,
            came_in(events),
            came_in_front(events),
            32,
            true,
        ))),
        recv_accepted(RecvStepView::Await(proto@), events) ==> (received(
            RecvStepView::Await(proto@),
            events,
        ) matches RecvStepView::Await(next) ==> receives_stream(
            next,
            came_in(events),
            came_in_front(events),
            32,
            false,
        )),
{
    let got = came_in(events);
    let front = came_in_front(events);
    if max_fds <= 253 && recv_accepted(RecvStepView::Await((limited->Ok_0)@), events) {
        lemma_stream_state::<D>(max_fds, Format::Json, events);
        if let RecvStepView::Await(op) = received(
            RecvStepView::Await((limited->Ok_0)@),
            events,
        ) {
            lemma_stream_asks(op, got, front, max_fds, Format::Json);
        }
    }
    if recv_accepted(RecvStepView::Await((usual->Ok_0)@), events) {
        lemma_stream_state::<D>(32, Format::Json, events);
        if let RecvStepView::Await(op) = received(RecvStepView::Await((usual->Ok_0)@), events) {
            lemma_stream_asks(op, got, front, 32, Format::Json);
        }
    }
    if recv_accepted(RecvStepView::Await(proto@), events) {
        lemma_stream_state::<D>(32, Format::Proto, events);
        if let RecvStepView::Await(op) = received(RecvStepView::Await(proto@), events) {
            lemma_stream_asks(op, got, front, 32, Format::Proto);
        }
    }
}

/// A message that one end sends comes out of the other end with all its bytes, and with a
/// descriptor for each that was sent, where the receiver takes as many: whatever the pieces and
/// interruptions.
pub proof fn law_what_is_sent_is_received<S, D>(
    sender: Tube<S>,
    receiver: Tube<S>,
    msg: Serialized,
    send_limit: usize,
    recv_limit: usize,
    sent: Result<Transmission, TubeError>,
    receiving: Result<RecvOp<D>, TubeError>,
    descriptors: Seq<D>,
    rest: Seq<u8>,
    events: Seq<RecvEvent<D>>,
)
    requires
        sender.spec_transport() == receiver.spec_transport(),
        call_ensures(
            Tube::<S>::send_with_max_fds,
            (&sender, Ok::<Serialized, serde_json::Error>(msg), send_limit),
            sent,
        ),
        call_ensures(Tube::<S>::recv_with_max_fds::<D>, (&receiver, recv_limit), receiving),
        sent is Ok,
        recv_limit <= 253,
        msg.bytes@.len() > 0,
        descriptors.len() == msg.descriptors@.len() <= recv_limit,
        match sender.spec_transport() {
            Transport::Packets => packet_feeds(
                RecvStepView::Await((receiving->Ok_0)@),
                (sent->Ok_0).header@ + (sent->Ok_0).body@,
                descriptors,
                events,
            ),
            Transport::Stream => stream_feeds(
                RecvStepView::Await((receiving->Ok_0)@),
                (sent->Ok_0).header@ + (sent->Ok_0).body@ + rest,
                descriptors,
                events,
            ),
        },
    ensures
        receiving is Ok,
        received(RecvStepView::Await((receiving->Ok_0)@), events) matches RecvStepView::Done(
            result,
        ) ==> result == Ok::<MessageView<D>, TubeError>(
            MessageView { bytes: msg.bytes@, descriptors },
        ),
        recv_accepted(RecvStepView::Await((receiving->Ok_0)@), events),
{
    let out = sent->Ok_0;
    let bytes = msg.bytes@;
    assert(bytes.len() == msg.bytes.len());
    match sender.spec_transport() {
        Transport::Packets => {
            assert(out.header@ + out.body@ =~= bytes);
            law_packet_message_comes_back(bytes, descriptors, recv_limit, Format::Json, events);
        },
        Transport::Stream => {
            assert(out.header@ + out.body@ + rest =~= out.header@ + (bytes + rest));
            law_stream_message_comes_back(
                bytes,
                descriptors,
                rest,
                recv_limit,
                Format::Json,
                events,
            );
        },
    }
}

/// A proto that one end sends comes out of the other end with all its bytes. One without bytes
/// comes through a stream only.
pub proof fn law_what_proto_is_sent_is_received<S, D>(
    sender: ProtoTube<S>,
    receiver: ProtoTube<S>,
    msg: Vec<u8>,
    sent: Result<Transmission, TubeError>,
    receiving: RecvOp<D>,
    rest: Seq<u8>,
    events: Seq<RecvEvent<D>>,
)
    requires
        sender.spec_tube().spec_transport() == receiver.spec_tube().spec_transport(),
        call_ensures(
            ProtoTube::<S>::send_proto,
            (&sender, Ok::<Vec<u8>, protobuf::Error>(msg)),
            sent,
        ),
        call_ensures(ProtoTube::<S>::recv_proto::<D>, (&receiver,), receiving),
        sender.spec_tube().spec_transport() is Packets ==> msg@.len() > 0,
        match sender.spec_tube().spec_transport() {
            Transport::Packets => packet_feeds(
                RecvStepView::Await(receiving@),
                (sent->Ok_0).header@ + (sent->Ok_0).body@,
                Seq::empty(),
                events,
            ),
            Transport::Stream => stream_feeds(
                RecvStepView::Await(receiving@),
                (sent->Ok_0).header@ + (sent->Ok_0).body@ + rest,
                Seq::empty(),
                events,
            ),
        },
    ensures
        sent is Ok,
        received(RecvStepView::Await(receiving@), events) matches RecvStepView::Done(result)
            ==> result == Ok::<MessageView<D>, TubeError>(
            MessageView { bytes: msg@, descriptors: Seq::empty() },
        ),
        recv_accepted(RecvStepView::Await(receiving@), events),
{
    let out = sent->Ok_0;
    let none = Seq::<D>::empty();
    assert(msg@.len() == msg.len());
    match sender.spec_tube().spec_transport() {
        Transport::Packets => {
            assert(out.header@ + out.body@ =~= msg@);
            law_packet_message_comes_back(msg@, none, 32, Format::Proto, events);
        },
        Transport::Stream => {
            assert(out.header@ + out.body@ + rest =~= out.header@ + (msg@ + rest));
            law_stream_message_comes_back(msg@, none, rest, 32, Format::Proto, events);
        },
    }
}

/// However much has come in, a reader wants as many bytes as it wanted at first.
proof fn lemma_read_wants<D>(read: StreamReadView<D>, events: Seq<RecvEvent<D>>)
    ensures
        read_after(RecvStepView::Await(read), events) matches RecvStepView::Await(next)
            ==> next.want == read.want,
    decreases events.len(),
{
    if events.len() > 0 {
        match read.spec_resume(events[0]) {
            RecvStepView::Await(next) => lemma_read_wants(next, events.skip(1)),
            RecvStepView::Done(_) => {
                reveal_with_fuel(read_after, 2);
            },
        }
    }
}

/// `recv_stream_exact` reads exactly what was asked for: the first `len` bytes of a stream that has
/// as many, nothing of one that has none, and no part of one that ends in between.
pub proof fn law_recv_stream_exact<S, D>(
    tube: Tube<S>,
    len: usize,
    max_fds: usize,
    step: RecvStep<StreamRead<D>, D>,
    stream: Seq<u8>,
    events: Seq<RecvEvent<D>>,
)
    requires
        call_ensures(Tube::<S>::recv_stream_exact::<D>, (&tube, len, max_fds), step),
        read_feeds(step@, stream, events),
    ensures
        match read_after(step@, events) {
            RecvStepView::Done(result) => if stream.len() >= len {
                &&& result == Ok::<MessageView<D>, TubeError>(
                    MessageView {
                        bytes: stream.take(len as int),
                        descriptors: read_descriptors(step@, events),
                    },
                )
                &&& read_left(step@, stream, events) == stream.skip(len as int)
            } else if stream.len() == 0 {
                result == Ok::<MessageView<D>, TubeError>(
                    MessageView { bytes: Seq::empty(), descriptors: Seq::empty() },
                )
            } else {
                result == Err::<MessageView<D>, TubeError>(TubeError::Disconnected)
            },
            RecvStepView::Await(read) => {
                &&& read.data.len() < len
                &&& read.data + read_left(step@, stream, events) == stream
                &&& read.descriptors == read_descriptors(step@, events)
                &&& read.spec_call() == (RecvCall::Receive {
                    len: (len - read.data.len()) as usize,
                    max_fds: if read.data.len() == 0 {
                        max_fds
                    } else {
                        0
                    },
                })
                &&& forall|size: usize| !#[trigger] read.spec_accepts(RecvEvent::PacketSize(size))
                &&& forall|bytes: Seq<u8>, fds: Seq<D>| #[trigger]
                    read.spec_accepts(RecvEvent::Data(bytes, fds)) <==> read.data.len()
                        + bytes.len() <= len
            },
        },
        read_accepted(step@, events),
{
    law_stream_is_read_exactly(len, max_fds, stream, events);
    if let RecvStepView::Await(start) = step@ {
        lemma_read_wants(start, events);
    }
}

/// A read that fails tells why, wherever it stands.
pub proof fn law_failed_read_tells_why<D>(read: StreamReadView<D>, error: std::io::Error)
    ensures
        read.spec_accepts(RecvEvent::Failed(error)),
        read.spec_resume(RecvEvent::Failed(error)) == RecvStepView::<StreamReadView<D>, D>::Done(
            Err(TubeError::Recv(error)),
        ),
        read.spec_resume(RecvEvent::Interrupted) == RecvStepView::<StreamReadView<D>, D>::Await(
            read,
        ),
{
}

/// What a reply says: that the call was interrupted or failed, or what it brought in.
pub open spec fn what_came<D>(reply: Attempt<RecvReply<D>>) -> RecvEvent<D> {
    match reply {
        Attempt::Interrupted => RecvEvent::Interrupted,
        Attempt::Failed(error) => RecvEvent::Failed(error),
        Attempt::Done(RecvReply::PacketSize(size)) => RecvEvent::PacketSize(size),
        Attempt::Done(RecvReply::Data { bytes, descriptors }) => RecvEvent::Data(
            bytes@,
            descriptors@,
        ),
    }
}

/// The step is the one that was told: it awaits the same, or it gives the same bytes and
/// descriptors, or the same error.
pub open spec fn comes_to<K: View, D>(step: RecvStep<K, D>, told: RecvStepView<K::V, D>) -> bool {
    match step {
        RecvStep::Await(op) => told == RecvStepView::<K::V, D>::Await(op@),
        RecvStep::Done(Err(error)) => told == RecvStepView::<K::V, D>::Done(Err(error)),
        RecvStep::Done(Ok(message)) => told matches RecvStepView::Done(Ok(contents))
            && contents.bytes == message.bytes@ && contents.descriptors == message.descriptors@,
    }
}

/// A receiver that runs asks for what it awaits, tells which replies answer that, and goes on as
/// the reply says.
pub proof fn law_receiving_goes_on<D>(
    op: RecvOp<D>,
    reply: Attempt<RecvReply<D>>,
    call: RecvCall,
    yes: bool,
    step: RecvStep<RecvOp<D>, D>,
)
    requires
        call_ensures(RecvOp::<D>::call, (&op,), call),
        call_ensures(RecvOp::<D>::accepts, (&op, &reply), yes),
        call_ensures(RecvOp::<D>::resume, (op, reply), step),
    ensures
        call == op@.spec_call(),
        yes == op@.spec_accepts(what_came(reply)),
        comes_to(step, op@.spec_resume(what_came(reply))),
{
}

/// So does the part of a receiver that a packet or a stream needs, and a reader of an exact number
/// of bytes.
pub proof fn law_parts_of_receiving_go_on<D>(
    packet: PacketRecv,
    stream: StreamRecv<D>,
    read: StreamRead<D>,
    reply: Attempt<RecvReply<D>>,
    calls: (RecvCall, RecvCall, RecvCall),
    answers: (bool, bool, bool),
    packet_step: RecvStep<PacketRecv, D>,
    stream_step: RecvStep<StreamRecv<D>, D>,
    read_step: RecvStep<StreamRead<D>, D>,
)
    requires
        call_ensures(PacketRecv::call, (&packet,), calls.0),
        call_ensures(StreamRecv::<D>::call, (&stream,), calls.1),
        call_ensures(StreamRead::<D>::call, (&read,), calls.2),
        call_ensures(PacketRecv::accepts::<D>, (&packet, &reply), answers.0),
        call_ensures(StreamRecv::<D>::accepts, (&stream, &reply), answers.1),
        call_ensures(StreamRead::<D>::accepts, (&read, &reply), answers.2),
        call_ensures(PacketRecv::resume::<D>, (packet, reply), packet_step),
        call_ensures(StreamRecv::<D>::resume, (stream, reply), stream_step),
        call_ensures(StreamRead::<D>::resume, (read, reply), read_step),
    ensures
        ({
            let event = what_came(reply);
            let whole_packet = RecvOpView::<D>::Packet(packet);
            let whole_stream = RecvOpView::<D>::Stream(stream@);
            &&& calls.0 == whole_packet.spec_call()
            &&& calls.1 == whole_stream.spec_call()
            &&& calls.2 == read@.spec_call()
            &&& answers.0 == whole_packet.spec_accepts(event)
            &&& answers.1 == whole_stream.spec_accepts(event)
            &&& answers.2 == read@.spec_accepts(event)
            &&& comes_to(packet_step, packet.spec_resume(event))
            &&& comes_to(stream_step, stream@.spec_resume(event))
            &&& comes_to(read_step, read@.spec_resume(event))
        }),
{
}

/// What a tube says of itself, and which kind of socket a system has.
pub proof fn law_tube_tells_what_it_is<S>(
    tube: Tube<S>,
    proto_tube: ProtoTube<S>,
    socket: &S,
    transport: Transport,
    carrier: &Tube<S>,
    os: Os,
    kind: Transport,
)
    requires
        call_ensures(Tube::<S>::socket, (&tube,), socket),
        call_ensures(Tube::<S>::transport, (&tube,), transport),
        call_ensures(ProtoTube::<S>::tube, (&proto_tube,), carrier),
        call_ensures(Transport::of, (os,), kind),
    ensures
        *socket == tube.spec_socket(),
        transport == tube.spec_transport(),
        *carrier == proto_tube.spec_tube(),
        kind is Packets <==> os is Linux,
{
}

/// The tube is over this socket, and keeps messages apart as this system does.
pub open spec fn is_tube_of<S>(tube: Tube<S>, socket: S, os: Os) -> bool {
    &&& tube.spec_socket() == socket
    &&& match os {
        Os::Linux => tube.spec_transport() is Packets,
        Os::Macos => tube.spec_transport() is Stream,
    }
}

/// Making a pair of tubes asks for the right things in the right order: on macOS both sockets are
/// first kept from programs that this one starts, and on both systems each is then readied to pass
/// descriptors along. The first thing that fails ends it with its own error.
pub proof fn law_pair<S>(
    os: Os,
    first: S,
    second: S,
    step: PairStep<S>,
    failed: PairStep<S>,
    error: std::io::Error,
)
    requires
        call_ensures(Tube::<S>::pair, (os, Ok::<(S, S), std::io::Error>((first, second))), step),
        call_ensures(Tube::<S>::pair, (os, Err::<(S, S), std::io::Error>(error)), failed),
    ensures
        failed == PairStep::<S>::Done(Err(TubeError::Pair(error))),
        os is Macos ==> (step matches PairStep::Await(op) && {
            &&& op.spec_call() == PairCall::SetCloexec(&first)
            &&& op.spec_resume(Err(error)) == PairStep::<S>::Done(Err(TubeError::Pair(error)))
            &&& op.spec_resume(Ok(())) matches PairStep::Await(op) && {
                &&& op.spec_call() == PairCall::SetCloexec(&second)
                &&& op.spec_resume(Err(error)) == PairStep::<S>::Done(Err(TubeError::Pair(error)))
                &&& op.spec_resume(Ok(())) matches PairStep::Await(op) && attaches(
                    op,
                    first,
                    second,
                    os,
                    error,
                )
            }
        }),
        os is Linux ==> (step matches PairStep::Await(op) && attaches(
            op,
            first,
            second,
            os,
            error,
        )),
{
    broadcast use Tube::lemma_spec_over;

}

/// Both sockets are readied to pass descriptors along, the first one first.
pub open spec fn attaches<S>(
    op: PairOp<S>,
    first: S,
    second: S,
    os: Os,
    error: std::io::Error,
) -> bool {
    &&& op.spec_call() == PairCall::Attach(&first)
    &&& op.spec_resume(Err(error)) == PairStep::<S>::Done(Err(TubeError::ScmSocket(error)))
    &&& op.spec_resume(Ok(())) matches PairStep::Await(op) && {
        &&& op.spec_call() == PairCall::Attach(&second)
        &&& op.spec_resume(Err(error)) == PairStep::<S>::Done(Err(TubeError::ScmSocket(error)))
        &&& op.spec_resume(Ok(())) matches PairStep::Done(Ok((t1, t2))) && is_tube_of(t1, first, os)
            && is_tube_of(t2, second, os)
    }
}

/// What is done to a pair is what is awaited, and what is awaited next is what the reply leads to.
pub proof fn law_pair_goes_on<S>(
    op: PairOp<S>,
    reply: Result<(), std::io::Error>,
    call: PairCall<'_, S>,
    step: PairStep<S>,
)
    requires
        call_ensures(PairOp::<S>::call, (&op,), call),
        call_ensures(PairOp::<S>::resume, (op, reply), step),
    ensures
        call == op.spec_call(),
        step == op.spec_resume(reply),
{
}

/// A socket becomes a tube over itself once it is ready; a clone is a tube over the duplicate that
/// keeps messages apart as its origin does.
pub proof fn law_tube_of_a_socket<S>(
    socket: S,
    transport: Transport,
    attach: Attach<S>,
    origin: Tube<S>,
    duplicate: S,
    error: std::io::Error,
    cloned: Result<Attach<S>, TubeError>,
    uncloned: Result<Attach<S>, TubeError>,
    ready: Result<Tube<S>, TubeError>,
    unready: Result<Tube<S>, TubeError>,
)
    requires
        call_ensures(Tube::<S>::try_from, (socket, transport), attach),
        call_ensures(Attach::<S>::finish, (attach, Ok::<(), std::io::Error>(())), ready),
        call_ensures(Attach::<S>::finish, (attach, Err::<(), std::io::Error>(error)), unready),
        call_ensures(
            Tube::<S>::try_clone,
            (&origin, Ok::<S, std::io::Error>(duplicate)),
            cloned,
        ),
        call_ensures(Tube::<S>::try_clone, (&origin, Err::<S, std::io::Error>(error)), uncloned),
    ensures
        ready matches Ok(tube) && tube.spec_socket() == socket && tube.spec_transport()
            == transport,
        unready == Err::<Tube<S>, TubeError>(TubeError::ScmSocket(error)),
        cloned matches Ok(op) && op.socket == duplicate && op.transport == origin.spec_transport(),
        uncloned == Err::<Attach<S>, TubeError>(TubeError::Clone(error)),
{
    broadcast use Tube::lemma_spec_over;

}

/// A limit on a wait is the one that was asked for, in the direction that was asked for, and a
/// limit that could not be set is told as such.
pub proof fn law_timeouts<S>(
    tube: Tube<S>,
    timeout: Option<Duration>,
    error: std::io::Error,
    sending: TimeoutOp,
    receiving: TimeoutOp,
    outcomes: (Result<(), TubeError>, Result<(), TubeError>),
    failures: (Result<(), TubeError>, Result<(), TubeError>),
)
    requires
        call_ensures(Tube::<S>::set_send_timeout, (&tube, timeout), sending),
        call_ensures(Tube::<S>::set_recv_timeout, (&tube, timeout), receiving),
        call_ensures(TimeoutOp::finish, (sending, Ok::<(), std::io::Error>(())), outcomes.0),
        call_ensures(TimeoutOp::finish, (receiving, Ok::<(), std::io::Error>(())), outcomes.1),
        call_ensures(TimeoutOp::finish, (sending, Err::<(), std::io::Error>(error)), failures.0),
        call_ensures(TimeoutOp::finish, (receiving, Err::<(), std::io::Error>(error)), failures.1),
    ensures
        sending.direction is Send && sending.timeout == timeout,
        receiving.direction is Recv && receiving.timeout == timeout,
        outcomes.0 is Ok && outcomes.1 is Ok,
        failures.0 == Err::<(), TubeError>(TubeError::SetSendTimeout(error)),
        failures.1 == Err::<(), TubeError>(TubeError::SetRecvTimeout(error)),
{
}

/// What was parsed is handed on as it is, and what could not be parsed is told as such.
pub proof fn law_parsed<S, T>(
    value: T,
    not_json: serde_json::Error,
    not_proto: protobuf::Error,
    json: (Result<T, TubeError>, Result<T, TubeError>),
    proto: (Result<T, TubeError>, Result<T, TubeError>),
)
    requires
        call_ensures(Tube::<S>::parsed::<T>, (Ok::<T, serde_json::Error>(value),), json.0),
        call_ensures(Tube::<S>::parsed::<T>, (Err::<T, serde_json::Error>(not_json),), json.1),
        call_ensures(ProtoTube::<S>::parsed::<T>, (Ok::<T, protobuf::Error>(value),), proto.0),
        call_ensures(ProtoTube::<S>::parsed::<T>, (Err::<T, protobuf::Error>(not_proto),), proto.1),
    ensures
        json.0 == Ok::<T, TubeError>(value),
        json.1 == Err::<T, TubeError>(TubeError::Json(not_json)),
        proto.0 == Ok::<T, TubeError>(value),
        proto.1 == Err::<T, TubeError>(TubeError::Proto(not_proto)),
{
}

/// A pair of proto tubes is over the two tubes, in their order; a proto tube is over the tube that
/// it was made of.
pub proof fn law_proto_tubes<S>(
    t1: Tube<S>,
    t2: Tube<S>,
    error: TubeError,
    pair: Result<(ProtoTube<S>, ProtoTube<S>), TubeError>,
    no_pair: Result<(ProtoTube<S>, ProtoTube<S>), TubeError>,
    over: ProtoTube<S>,
)
    requires
        call_ensures(
            ProtoTube::<S>::pair,
            (Ok::<(Tube<S>, Tube<S>), TubeError>((t1, t2)),),
            pair,
        ),
        call_ensures(
            ProtoTube::<S>::pair,
            (Err::<(Tube<S>, Tube<S>), TubeError>(error),),
            no_pair,
        ),
        call_ensures(<ProtoTube<S> as From<Tube<S>>>::from, (t1,), over),
    ensures
        pair matches Ok((p1, p2)) && p1.spec_tube() == t1 && p2.spec_tube() == t2,
        no_pair == Err::<(ProtoTube<S>, ProtoTube<S>), TubeError>(error),
        over.spec_tube() == t1,
{
    broadcast use ProtoTube::lemma_spec_over;

}

} // verus!
