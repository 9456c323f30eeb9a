//! What holds of every message that goes through a tube.

use vstd::prelude::*;

use crate::linux::tube::{padded, PacketRecv};
use crate::macos::tube::{StreamReadView, StreamRecvView};
use crate::operation::Os;
use crate::syscall::RawDescriptor;
use crate::tube::{
    Format, MessageView, RecvCall, RecvEvent, RecvStepView, Transport, TubeError,
    SCM_SOCKET_MAX_FD_COUNT,
};
use crate::unix::tube::{
    send_ok, spec_header, PairStep, RecvOpView, Serialized, Transmission, Tube,
};
use crate::wire::{law_length_survives_the_wire, le_value, lemma_pow_256_8, LENGTH_BYTES};

verus! {

/// Where receiving a message stands once it has had its replies.
pub open spec fn received<D>(
    step: RecvStepView<RecvOpView<D>, D>,
    events: Seq<RecvEvent<D>>,
) -> RecvStepView<RecvOpView<D>, D>
    decreases events.len(),
{
    match step {
        RecvStepView::Await(op) if events.len() > 0 => received(
            op.spec_resume(events[0]),
            events.skip(1),
        ),
        _ => step,
    }
}

/// The receiver can go on from each of its replies.
pub open spec fn recv_accepted<D>(
    step: RecvStepView<RecvOpView<D>, D>,
    events: Seq<RecvEvent<D>>,
) -> bool
    decreases events.len(),
{
    match step {
        RecvStepView::Await(op) if events.len() > 0 => {
            &&& op.spec_accepts(events[0])
            &&& recv_accepted(op.spec_resume(events[0]), events.skip(1))
        },
        _ => true,
    }
}

/// What is left of a stream once a reply has taken its bytes.
pub open spec fn stream_left<D>(stream: Seq<u8>, event: RecvEvent<D>) -> Seq<u8> {
    match event {
        RecvEvent::Data(bytes, _) => stream.skip(bytes.len() as int),
        _ => stream,
    }
}

/// What is left of a stream once receiving a message has had its replies.
pub open spec fn stream_after<D>(
    step: RecvStepView<RecvOpView<D>, D>,
    stream: Seq<u8>,
    events: Seq<RecvEvent<D>>,
) -> Seq<u8>
    decreases events.len(),
{
    match step {
        RecvStepView::Await(op) if events.len() > 0 => stream_after(
            op.spec_resume(events[0]),
            stream_left(stream, events[0]),
            events.skip(1),
        ),
        _ => stream,
    }
}

/// Where reading an exact number of bytes stands once it has had its replies.
pub open spec fn read_after<D>(
    step: RecvStepView<StreamReadView<D>, D>,
    events: Seq<RecvEvent<D>>,
) -> RecvStepView<StreamReadView<D>, D>
    decreases events.len(),
{
    match step {
        RecvStepView::Await(read) if events.len() > 0 => read_after(
            read.spec_resume(events[0]),
            events.skip(1),
        ),
        _ => step,
    }
}

/// What is left of a stream once reading an exact number of bytes has had its replies.
pub open spec fn read_left<D>(
    step: RecvStepView<StreamReadView<D>, D>,
    stream: Seq<u8>,
    events: Seq<RecvEvent<D>>,
) -> Seq<u8>
    decreases events.len(),
{
    match step {
        RecvStepView::Await(read) if events.len() > 0 => read_left(
            read.spec_resume(events[0]),
            stream_left(stream, events[0]),
            events.skip(1),
        ),
        _ => stream,
    }
}

/// The descriptors that came with the pieces of what was read, joined in their order.
pub open spec fn read_descriptors<D>(
    step: RecvStepView<StreamReadView<D>, D>,
    events: Seq<RecvEvent<D>>,
) -> Seq<D>
    decreases events.len(),
{
    match step {
        RecvStepView::Await(read) if events.len() > 0 => {
            let later = read_descriptors(read.spec_resume(events[0]), events.skip(1));
            match events[0] {
                RecvEvent::Data(bytes, fds) if bytes.len() > 0 => fds + later,
                _ => later,
            }
        },
        _ => Seq::empty(),
    }
}

/// Every reply is one that a socket gives whose stream is `stream` and then ends: it is interrupted,
/// or it hands out at most as many bytes as were asked for, and none only at the end.
pub open spec fn read_feeds<D>(
    step: RecvStepView<StreamReadView<D>, D>,
    stream: Seq<u8>,
    events: Seq<RecvEvent<D>>,
) -> bool
    decreases events.len(),
{
    match step {
        RecvStepView::Await(read) if events.len() > 0 => {
            &&& match events[0] {
                RecvEvent::Interrupted => true,
                RecvEvent::Data(bytes, _) => {
                    &&& read.spec_call() matches RecvCall::Receive { len, .. } && bytes.len() <= len
                    &&& bytes.len() <= stream.len()
                    &&& bytes == stream.take(bytes.len() as int)
                    &&& bytes.len() == 0 ==> stream.len() == 0
                },
                _ => false,
            }
            &&& read_feeds(
                read.spec_resume(events[0]),
                stream_left(stream, events[0]),
                events.skip(1),
            )
        },
        _ => true,
    }
}

/// Reading can go on from each of its replies.
pub open spec fn read_accepted<D>(
    step: RecvStepView<StreamReadView<D>, D>,
    events: Seq<RecvEvent<D>>,
) -> bool
    decreases events.len(),
{
    match step {
        RecvStepView::Await(read) if events.len() > 0 => {
            &&& read.spec_accepts(events[0])
            &&& read_accepted(read.spec_resume(events[0]), events.skip(1))
        },
        _ => true,
    }
}

proof fn lemma_read_run<D>(read: StreamReadView<D>, stream: Seq<u8>, events: Seq<RecvEvent<D>>)
    requires
        read.wf(),
        read_feeds(RecvStepView::Await(read), stream, events),
    ensures
        ({
            let step = RecvStepView::Await(read);
            let all = read.data + stream;
            let left = read_left(step, stream, events);
            let fds = read.descriptors + read_descriptors(step, events);
            match read_after(step, events) {
                RecvStepView::Await(next) => {
                    &&& next.want == read.want
                    &&& next.max_fds == read.max_fds
                    &&& next.wf()
                    &&& next.data + left == all
                    &&& next.descriptors == fds
                },
                RecvStepView::Done(Ok(message)) => {
                    &&& message.descriptors == fds
                    &&& if all.len() == 0 {
                        message.bytes.len() == 0 && left.len() == 0
                    } else {
                        &&& all.len() >= read.want
                        &&& message.bytes == all.take(read.want as int)
                        &&& left == all.skip(read.want as int)
                    }
                },
                RecvStepView::Done(Err(error)) => {
                    &&& error == TubeError::Disconnected
                    &&& 0 < all.len() < read.want
                    &&& left.len() == 0
                },
            }
        }),
        read_accepted(RecvStepView::Await(read), events),
    decreases events.len(),
{
    assert(read.descriptors + Seq::<D>::empty() =~= read.descriptors);
    if events.len() > 0 {
        let rest = events.skip(1);
        let left = stream_left(stream, events[0]);
        let next = read.spec_resume(events[0]);
        let later = read_descriptors(next, rest);
        if let RecvEvent::Data(bytes, fds) = events[0] {
            lemma_take_front(read.data, stream, bytes.len() as int);
            assert((read.descriptors + fds) + later =~= read.descriptors + (fds + later));
            if let RecvStepView::Await(more) = next {
                lemma_read_run(more, left, rest);
            } else {
                reveal_with_fuel(read_after, 2);
                reveal_with_fuel(read_left, 2);
                reveal_with_fuel(read_descriptors, 2);
                reveal_with_fuel(read_accepted, 2);
                let all = read.data + stream;
                let data = read.data + bytes;
                if bytes.len() == 0 {
                    assert(stream =~= Seq::<u8>::empty());
                } else {
                    assert(data.len() == read.want);
                    assert(all == data + left);
                    assert(all.take(read.want as int) =~= data);
                    assert(all.skip(read.want as int) =~= left);
                    assert(fds + Seq::<D>::empty() =~= fds);
                }
            }
        } else {
            lemma_read_run(read, stream, rest);
        }
    }
}

/// Exactly the bytes that were asked for are read, in however many pieces they arrive and however
/// often the reader is interrupted. Of a stream that has as many, a finished read gives the first
/// `len` bytes and leaves the rest. Of a stream that ends earlier it gives no bytes where there were
/// none, and tells that the other end is gone otherwise. The descriptors are those of the pieces, in
/// their order. A read that is not finished has everything so far, and asks for what is missing, and
/// for descriptors only with the first byte.
pub proof fn law_stream_is_read_exactly<D>(
    len: usize,
    max_fds: usize,
    stream: Seq<u8>,
    events: Seq<RecvEvent<D>>,
)
    requires
        read_feeds(StreamReadView::<D>::spec_start(len, max_fds), stream, events),
    ensures
        ({
            let start = StreamReadView::<D>::spec_start(len, max_fds);
            let left = read_left(start, stream, events);
            let fds = read_descriptors(start, events);
            match read_after(start, events) {
                RecvStepView::Done(result) => if stream.len() >= len {
                    &&& result == Ok::<MessageView<D>, TubeError>(
                        MessageView { bytes: stream.take(len as int), descriptors: fds },
                    )
                    &&& left == stream.skip(len as int)
                } else if stream.len() == 0 {
                    result == Ok::<MessageView<D>, TubeError>(
                        MessageView { bytes: Seq::empty(), descriptors: Seq::empty() },
                    )
                } else {
                    &&& result == Err::<MessageView<D>, TubeError>(TubeError::Disconnected)
                    &&& left.len() == 0
                },
                RecvStepView::Await(read) => {
                    &&& read.data.len() < len
                    &&& read.data + left == stream
                    &&& read.descriptors == fds
                    &&& read.spec_call() == (RecvCall::Receive {
                        len: (len - read.data.len()) as usize,
                        max_fds: if read.data.len() == 0 {
                            max_fds
                        } else {
                            0
                        },
                    })
                },
            }
        }),
        read_accepted(StreamReadView::<D>::spec_start(len, max_fds), events),
{
    match StreamReadView::<D>::spec_start(len, max_fds) {
        RecvStepView::Await(read) => {
            lemma_read_run(read, stream, events);
            assert(Seq::<u8>::empty() + stream =~= stream);
            let fds = read_descriptors(RecvStepView::Await(read), events);
            assert(Seq::<D>::empty() + fds =~= fds);
            if stream.len() == 0 {
                lemma_nothing_read(read, stream, events);
            }
        },
        RecvStepView::Done(_) => {
            assert(stream.take(0) =~= Seq::<u8>::empty());
            assert(stream.skip(0) =~= stream);
        },
    }
}

/// No descriptors come with a stream that has no bytes.
proof fn lemma_nothing_read<D>(read: StreamReadView<D>, stream: Seq<u8>, events: Seq<RecvEvent<D>>)
    requires
        stream.len() == 0,
        read_feeds(RecvStepView::Await(read), stream, events),
        read.data.len() == 0,
    ensures
        read_descriptors(RecvStepView::Await(read), events) == Seq::<D>::empty(),
        read_after(RecvStepView::Await(read), events) matches RecvStepView::Done(Ok(message))
            ==> message.bytes == Seq::<u8>::empty(),
    decreases events.len(),
{
    if events.len() > 0 {
        if let RecvEvent::Data(bytes, _) = events[0] {
            reveal_with_fuel(read_after, 2);
            reveal_with_fuel(read_descriptors, 2);
        } else {
            lemma_nothing_read(read, stream, events.skip(1));
        }
    }
}

/// No byte of the message has been received yet.
pub open spec fn at_start<D>(op: RecvOpView<D>) -> bool {
    op matches RecvOpView::Stream(StreamRecvView::Header { read, .. }) && read.data.len() == 0
}

/// As many of the first items as there is room for.
pub open spec fn up_to<A>(items: Seq<A>, room: usize) -> Seq<A> {
    if items.len() <= room {
        items
    } else {
        items.take(room as int)
    }
}

/// The reply is one that a socket gives whose stream begins with `stream`: it is interrupted, or it
/// hands out at least one and at most as many bytes as were asked for. The descriptors of a message
/// come with its first byte, no more of them than were asked for.
pub open spec fn stream_answers<D>(
    op: RecvOpView<D>,
    stream: Seq<u8>,
    descriptors: Seq<D>,
    event: RecvEvent<D>,
) -> bool {
    match event {
        RecvEvent::Interrupted => true,
        RecvEvent::Data(bytes, fds) => {
            &&& op.spec_call() matches RecvCall::Receive { len, max_fds }
            &&& 0 < bytes.len() <= len
            &&& bytes.len() <= stream.len()
            &&& bytes == stream.take(bytes.len() as int)
            &&& fds == if at_start(op) {
                up_to(descriptors, max_fds)
            } else {
                Seq::empty()
            }
        },
        _ => false,
    }
}

/// Every reply is one that a socket gives whose stream begins with `stream`.
pub open spec fn stream_feeds<D>(
    step: RecvStepView<RecvOpView<D>, D>,
    stream: Seq<u8>,
    descriptors: Seq<D>,
    events: Seq<RecvEvent<D>>,
) -> bool
    decreases events.len(),
{
    match step {
        RecvStepView::Await(op) if events.len() > 0 => {
            &&& stream_answers(op, stream, descriptors, events[0])
            &&& stream_feeds(
                op.spec_resume(events[0]),
                stream_left(stream, events[0]),
                descriptors,
                events.skip(1),
            )
        },
        _ => true,
    }
}

/// The message that is to come out: a proto leaves its descriptors behind.
pub open spec fn expected<D>(bytes: Seq<u8>, descriptors: Seq<D>, format: Format) -> MessageView<
    D,
> {
    MessageView {
        bytes,
        descriptors: match format {
            Format::Json => descriptors,
            Format::Proto => Seq::empty(),
        },
    }
}

spec fn stream_on_track<D>(
    step: RecvStepView<RecvOpView<D>, D>,
    stream: Seq<u8>,
    msg: Seq<u8>,
    descriptors: Seq<D>,
    rest: Seq<u8>,
    format: Format,
) -> bool {
    match step {
        RecvStepView::Await(RecvOpView::Stream(StreamRecvView::Header { read, format: f })) => {
            &&& f == format
            &&& read.want == LENGTH_BYTES
            &&& descriptors.len() <= read.max_fds
            &&& read.wf()
            &&& read.data + stream == spec_header(Transport::Stream, msg.len()) + (msg + rest)
            &&& read.descriptors == if read.data.len() == 0 {
                Seq::empty()
            } else {
                descriptors
            }
        },
        RecvStepView::Await(RecvOpView::Stream(StreamRecvView::Body { read, descriptors: d })) => {
            &&& read.want == msg.len()
            &&& read.wf()
            &&& read.data + stream == msg + rest
            &&& d == expected(msg, descriptors, format).descriptors
        },
        RecvStepView::Await(RecvOpView::Packet(_)) => false,
        RecvStepView::Done(result) => {
            &&& result == Ok::<MessageView<D>, TubeError>(expected(msg, descriptors, format))
            &&& stream == rest
        },
    }
}

/// Taking bytes off the front of what is left does not change the whole.
proof fn lemma_take_front(data: Seq<u8>, stream: Seq<u8>, n: int)
    requires
        0 <= n <= stream.len(),
    ensures
        (data + stream.take(n)) + stream.skip(n) == data + stream,
{
    assert((data + stream.take(n)) + stream.skip(n) =~= data + stream);
}

/// Two ways to split the same bytes at the same place have the same parts.
proof fn lemma_same_split(a: Seq<u8>, b: Seq<u8>, c: Seq<u8>, d: Seq<u8>)
    requires
        a + b == c + d,
        a.len() == c.len(),
    ensures
        a == c,
        b == d,
{
    assert(a =~= (a + b).take(a.len() as int));
    assert(c =~= (c + d).take(c.len() as int));
    assert(b =~= (a + b).skip(a.len() as int));
    assert(d =~= (c + d).skip(c.len() as int));
}

proof fn lemma_stream_step<D>(
    op: RecvOpView<D>,
    stream: Seq<u8>,
    event: RecvEvent<D>,
    msg: Seq<u8>,
    descriptors: Seq<D>,
    rest: Seq<u8>,
    format: Format,
)
    requires
        msg.len() <= usize::MAX,
        format is Json ==> msg.len() > 0,
        stream_on_track(RecvStepView::Await(op), stream, msg, descriptors, rest, format),
        stream_answers(op, stream, descriptors, event),
    ensures
        op.spec_accepts(event),
        stream_on_track(
            op.spec_resume(event),
            stream_left(stream, event),
            msg,
            descriptors,
            rest,
            format,
        ),
{
    if let RecvEvent::Data(bytes, fds) = event {
        let left = stream_left(stream, event);
        let read = op->Stream_0.read();
        lemma_take_front(read.data, stream, bytes.len() as int);
        let data = read.data + bytes;
        let all = read.descriptors + fds;
        assert(Seq::<D>::empty() + descriptors =~= descriptors);
        assert(descriptors + Seq::<D>::empty() =~= descriptors);
        match op {
            RecvOpView::Stream(StreamRecvView::Header { .. }) => {
                assert(all == descriptors);
                let header = spec_header(Transport::Stream, msg.len());
                lemma_pow_256_8();
                law_length_survives_the_wire(msg.len(), LENGTH_BYTES as nat);
                if data.len() == LENGTH_BYTES {
                    lemma_same_split(data, left, header, msg + rest);
                    assert(le_value(data) == msg.len());
                    assert((le_value(data) as u64) as usize == msg.len());
                    assert(Seq::<u8>::empty() + left =~= left);
                    if msg.len() == 0 {
                        assert(msg =~= Seq::<u8>::empty());
                        assert(msg + rest =~= rest);
                    }
                }
            },
            RecvOpView::Stream(StreamRecvView::Body { .. }) => {
                if data.len() == msg.len() {
                    lemma_same_split(data, left, msg, rest);
                }
            },
            _ => {},
        }
    }
}

proof fn lemma_stream_run<D>(
    step: RecvStepView<RecvOpView<D>, D>,
    stream: Seq<u8>,
    events: Seq<RecvEvent<D>>,
    msg: Seq<u8>,
    descriptors: Seq<D>,
    rest: Seq<u8>,
    format: Format,
)
    requires
        msg.len() <= usize::MAX,
        format is Json ==> msg.len() > 0,
        stream_on_track(step, stream, msg, descriptors, rest, format),
        stream_feeds(step, stream, descriptors, events),
    ensures
        recv_accepted(step, events),
        stream_on_track(
            received(step, events),
            stream_after(step, stream, events),
            msg,
            descriptors,
            rest,
            format,
        ),
    decreases events.len(),
{
    match step {
        RecvStepView::Await(op) if events.len() > 0 => {
            lemma_stream_step(op, stream, events[0], msg, descriptors, rest, format);
            lemma_stream_run(
                op.spec_resume(events[0]),
                stream_left(stream, events[0]),
                events.skip(1),
                msg,
                descriptors,
                rest,
                format,
            );
        },
        _ => {},
    }
}

/// A message that was sent over a stream comes out as it went in, in however many pieces its bytes
/// arrive and however often the receiver is interrupted: the bytes and the descriptors are the
/// same, and exactly the bytes of this message have been taken, so that the next one begins where
/// it should. As long as the receiver waits, some of the message is still to come.
pub proof fn law_stream_message_comes_back<D>(
    msg: Seq<u8>,
    descriptors: Seq<D>,
    rest: Seq<u8>,
    max_fds: usize,
    format: Format,
    events: Seq<RecvEvent<D>>,
)
    requires
        msg.len() <= usize::MAX,
        format is Json ==> msg.len() > 0,
        descriptors.len() <= max_fds,
        stream_feeds(
            RecvStepView::Await(
                RecvOpView::<D>::spec_start(Transport::Stream, max_fds, format),
            ),
            spec_header(Transport::Stream, msg.len()) + (msg + rest),
            descriptors,
            events,
        ),
    ensures
        ({
            let start = RecvStepView::Await(
                RecvOpView::<D>::spec_start(Transport::Stream, max_fds, format),
            );
            let stream = spec_header(Transport::Stream, msg.len()) + (msg + rest);
            let left = stream_after(start, stream, events);
            match received(start, events) {
                RecvStepView::Done(result) => result == Ok::<MessageView<D>, TubeError>(
                    expected(msg, descriptors, format),
                ) && left == rest,
                RecvStepView::Await(_) => left.len() > rest.len(),
            }
        }),
        recv_accepted(
            RecvStepView::Await(
                RecvOpView::<D>::spec_start(Transport::Stream, max_fds, format),
            ),
            events,
        ),
{
    let start = RecvStepView::Await(
        RecvOpView::<D>::spec_start(Transport::Stream, max_fds, format),
    );
    let header = spec_header(Transport::Stream, msg.len());
    let stream = header + (msg + rest);
    assert(Seq::<u8>::empty() + stream =~= stream);
    lemma_stream_run(start, stream, events, msg, descriptors, rest, format);
    lemma_pow_256_8();
    law_length_survives_the_wire(msg.len(), LENGTH_BYTES as nat);
    let left = stream_after(start, stream, events);
    if let RecvStepView::Await(RecvOpView::Stream(op)) = received(start, events) {
        assert((op.read().data + left).len() == op.read().data.len() + left.len());
    }
}

/// The reply is one that a socket gives whose next packet is the message. It hands out no more bytes
/// and no more descriptors than were asked for; the rest of the packet is gone.
pub open spec fn packet_answers<D>(
    op: RecvOpView<D>,
    msg: Seq<u8>,
    descriptors: Seq<D>,
    event: RecvEvent<D>,
) -> bool {
    match event {
        RecvEvent::Interrupted => true,
        RecvEvent::PacketSize(size) => op.spec_call() is NextPacketSize && size == msg.len(),
        RecvEvent::Data(bytes, fds) => {
            &&& op.spec_call() matches RecvCall::Receive { len, max_fds }
            &&& bytes == up_to(msg, len)
            &&& fds == up_to(descriptors, max_fds)
        },
        _ => false,
    }
}

/// Every reply is one that a socket gives whose next packet is the message.
pub open spec fn packet_feeds<D>(
    step: RecvStepView<RecvOpView<D>, D>,
    msg: Seq<u8>,
    descriptors: Seq<D>,
    events: Seq<RecvEvent<D>>,
) -> bool
    decreases events.len(),
{
    match step {
        RecvStepView::Await(op) if events.len() > 0 => {
            &&& packet_answers(op, msg, descriptors, events[0])
            &&& packet_feeds(op.spec_resume(events[0]), msg, descriptors, events.skip(1))
        },
        _ => true,
    }
}

spec fn packet_on_track<D>(
    step: RecvStepView<RecvOpView<D>, D>,
    msg: Seq<u8>,
    descriptors: Seq<D>,
    format: Format,
) -> bool {
    match step {
        RecvStepView::Await(RecvOpView::Packet(PacketRecv::Sizing { max_fds, format: f })) => {
            &&& descriptors.len() <= max_fds
            &&& f == format
        },
        RecvStepView::Await(
            RecvOpView::Packet(PacketRecv::Receiving { len, max_fds, format: f }),
        ) => {
            &&& len == msg.len()
            &&& descriptors.len() <= max_fds
            &&& f == format
        },
        RecvStepView::Await(RecvOpView::Stream(_)) => false,
        RecvStepView::Done(result) => result == Ok::<MessageView<D>, TubeError>(
            expected(msg, descriptors, format),
        ),
    }
}

proof fn lemma_packet_run<D>(
    step: RecvStepView<RecvOpView<D>, D>,
    events: Seq<RecvEvent<D>>,
    msg: Seq<u8>,
    descriptors: Seq<D>,
    format: Format,
)
    requires
        msg.len() > 0,
        packet_on_track(step, msg, descriptors, format),
        packet_feeds(step, msg, descriptors, events),
    ensures
        recv_accepted(step, events),
        packet_on_track(received(step, events), msg, descriptors, format),
        received(step, events) is Await ==> forall|i: int|
            0 <= i < events.len() ==> !(#[trigger] events[i] is Data),
    decreases events.len(),
{
    match step {
        RecvStepView::Await(op) if events.len() > 0 => {
            assert(padded(msg, msg.len()) =~= msg);
            lemma_packet_run(
                op.spec_resume(events[0]),
                events.skip(1),
                msg,
                descriptors,
                format,
            );
            if received(step, events) is Await {
                assert forall|i: int| 0 <= i < events.len() implies !(#[trigger] events[i] is Data) by {
                    if i > 0 {
                        assert(events[i] == events.skip(1)[i - 1]);
                    } else if events[0] is Data {
                        assert(op.spec_resume(events[0]) is Done);
                        reveal_with_fuel(received, 2);
                    }
                }
            }
        },
        _ => {},
    }
}

/// A message that was sent as a packet comes out as it went in, however often the receiver is
/// interrupted, and as soon as the packet has been handed over. An empty packet cannot be told from
/// the end of the connection.
pub proof fn law_packet_message_comes_back<D>(
    msg: Seq<u8>,
    descriptors: Seq<D>,
    max_fds: usize,
    format: Format,
    events: Seq<RecvEvent<D>>,
)
    requires
        msg.len() > 0,
        descriptors.len() <= max_fds,
        packet_feeds(
            RecvStepView::Await(
                RecvOpView::<D>::spec_start(Transport::Packets, max_fds, format),
            ),
            msg,
            descriptors,
            events,
        ),
    ensures
        ({
            let start = RecvStepView::Await(
                RecvOpView::<D>::spec_start(Transport::Packets, max_fds, format),
            );
            match received(start, events) {
                RecvStepView::Done(result) => result == Ok::<MessageView<D>, TubeError>(
                    expected(msg, descriptors, format),
                ),
                RecvStepView::Await(_) => forall|i: int|
                    0 <= i < events.len() ==> !(#[trigger] events[i] is Data),
            }
        }),
        recv_accepted(
            RecvStepView::Await(
                RecvOpView::<D>::spec_start(Transport::Packets, max_fds, format),
            ),
            events,
        ),
{
    lemma_packet_run(
        RecvStepView::Await(RecvOpView::<D>::spec_start(Transport::Packets, max_fds, format)),
        events,
        msg,
        descriptors,
        format,
    );
}

/// Every reply is one that a socket gives on which `sent` comes in next: as a packet of its own, or
/// at the front of a stream that goes on with `rest`.
pub open spec fn socket_feeds<D>(
    transport: Transport,
    start: RecvStepView<RecvOpView<D>, D>,
    sent: Seq<u8>,
    rest: Seq<u8>,
    descriptors: Seq<D>,
    events: Seq<RecvEvent<D>>,
) -> bool {
    match transport {
        Transport::Packets => packet_feeds(start, sent, descriptors, events),
        Transport::Stream => stream_feeds(start, sent + rest, descriptors, events),
    }
}

/// What one end of a tube sends, the other end receives: the bytes that were handed to the sender,
/// and for each descriptor the one that the socket made of it, in their order. Of a stream, exactly
/// what was sent has been taken by then. The receiver waits only as long as the packet has not been
/// handed over, or part of what was sent is still to come. A message without bytes comes through as
/// a proto in a stream only; everywhere else it stands for the end of the connection.
pub proof fn law_sent_message_comes_back<D>(
    out: Transmission,
    transport: Transport,
    msg: Seq<u8>,
    fds: Seq<RawDescriptor>,
    descriptors: Seq<D>,
    rest: Seq<u8>,
    max_fds: usize,
    format: Format,
    events: Seq<RecvEvent<D>>,
)
    requires
        out.carries(transport, msg, fds),
        descriptors.len() == fds.len() <= max_fds,
        msg.len() <= usize::MAX,
        format is Json || transport is Packets ==> msg.len() > 0,
        socket_feeds(
            transport,
            RecvStepView::Await(RecvOpView::<D>::spec_start(transport, max_fds, format)),
            out.wire(),
            rest,
            descriptors,
            events,
        ),
    ensures
        ({
            let start = RecvStepView::Await(
                RecvOpView::<D>::spec_start(transport, max_fds, format),
            );
            let left = stream_after(start, out.wire() + rest, events);
            match received(start, events) {
                RecvStepView::Done(result) => {
                    &&& result == Ok::<MessageView<D>, TubeError>(
                        expected(msg, descriptors, format),
                    )
                    &&& transport is Stream ==> left == rest
                },
                RecvStepView::Await(_) => match transport {
                    Transport::Packets => forall|i: int|
                        0 <= i < events.len() ==> !(#[trigger] events[i] is Data),
                    Transport::Stream => left.len() > rest.len(),
                },
            }
        }),
        recv_accepted(
            RecvStepView::Await(RecvOpView::<D>::spec_start(transport, max_fds, format)),
            events,
        ),
{
    match transport {
        Transport::Packets => {
            assert(out.wire() =~= msg);
            law_packet_message_comes_back(msg, descriptors, max_fds, format, events);
        },
        Transport::Stream => {
            assert(out.wire() + rest =~= spec_header(transport, msg.len()) + (msg + rest));
            law_stream_message_comes_back(msg, descriptors, rest, max_fds, format, events);
        },
    }
}

/// An interrupted call is made again, exactly as it was.
pub proof fn law_interruption_changes_nothing<D>(op: RecvOpView<D>)
    ensures
        op.spec_resume(RecvEvent::Interrupted) == RecvStepView::<RecvOpView<D>, D>::Await(op),
{
}

/// Once the other end is gone, receiving a message says so, whatever of the message has come in.
pub proof fn law_end_of_stream_disconnects<D>(op: RecvOpView<D>, descriptors: Seq<D>)
    requires
        op.wf(),
        op.spec_call() is Receive,
    ensures
        op.spec_resume(RecvEvent::Data(Seq::empty(), descriptors)) == RecvStepView::<
            RecvOpView<D>,
            D,
        >::Done(Err(TubeError::Disconnected)),
{
}

/// A stream is asked for descriptors only at the first byte of a message.
pub proof fn law_descriptors_only_in_front<D>(
    max_fds: usize,
    format: Format,
    events: Seq<RecvEvent<D>>,
)
    ensures
        received(
            RecvStepView::Await(RecvOpView::<D>::spec_start(Transport::Stream, max_fds, format)),
            events,
        ) matches RecvStepView::Await(op) ==> {
            op.spec_call() matches RecvCall::Receive { max_fds: asked, .. } && asked == if at_start(
                op,
            ) {
                max_fds
            } else {
                0
            }
        },
{
    lemma_asks_in_front(
        RecvStepView::Await(RecvOpView::<D>::spec_start(Transport::Stream, max_fds, format)),
        max_fds,
        events,
    );
}

spec fn asks_in_front<D>(step: RecvStepView<RecvOpView<D>, D>, max_fds: usize) -> bool {
    match step {
        RecvStepView::Await(RecvOpView::Stream(StreamRecvView::Header { read, .. })) =>
            read.max_fds == max_fds,
        RecvStepView::Await(RecvOpView::Stream(StreamRecvView::Body { read, .. })) => read.max_fds
            == 0,
        RecvStepView::Await(RecvOpView::Packet(_)) => false,
        RecvStepView::Done(_) => true,
    }
}

proof fn lemma_asks_in_front<D>(
    step: RecvStepView<RecvOpView<D>, D>,
    max_fds: usize,
    events: Seq<RecvEvent<D>>,
)
    requires
        asks_in_front(step, max_fds),
    ensures
        asks_in_front(received(step, events), max_fds),
    decreases events.len(),
{
    match step {
        RecvStepView::Await(op) if events.len() > 0 => {
            lemma_asks_in_front(op.spec_resume(events[0]), max_fds, events.skip(1));
        },
        _ => {},
    }
}

/// A message that may be sent carries no more descriptors than its limit, and no limit is above
/// what a socket passes along.
pub proof fn law_sent_message_keeps_to_its_limit(
    result: Result<Transmission, TubeError>,
    transport: Transport,
    msg: Result<Serialized, serde_json::Error>,
    max_fds: usize,
)
    requires
        send_ok(result, transport, msg, max_fds),
    ensures
        result matches Ok(out) ==> out.descriptors@.len() <= max_fds <= SCM_SOCKET_MAX_FD_COUNT,
{
}

/// Where making a pair of tubes stands once `n` more things have been done.
pub open spec fn pair_after<S>(step: PairStep<S>, n: nat) -> PairStep<S>
    decreases n,
{
    match step {
        PairStep::Await(op) if n > 0 => pair_after(op.spec_resume(Ok(())), (n - 1) as nat),
        _ => step,
    }
}

/// A pair of tubes is made of the two sockets, in their order, after at most four things have been
/// done to them.
pub proof fn law_pair_keeps_its_sockets<S>(os: Os, first: S, second: S)
    ensures
        pair_after(Tube::spec_pair(os, Ok((first, second))), 4) == PairStep::Done(
            Ok(
                (
                    Tube::spec_over(first, Transport::spec_of(os)),
                    Tube::spec_over(second, Transport::spec_of(os)),
                ),
            ),
        ),
{
    reveal_with_fuel(pair_after, 5);
}

} // verus!
