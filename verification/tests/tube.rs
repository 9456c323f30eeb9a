use std::cell::RefCell;
use std::collections::VecDeque;
use std::io;
use std::rc::Rc;
use std::time::Duration;

use base_sys::operation::Os;
use base_sys::tube::{
    Attempt, Message, RecvCall, RecvReply, RecvStep, Transport, TubeError, SCM_SOCKET_MAX_FD_COUNT,
    TUBE_MAX_FDS,
};
use base_sys::unix::tube::{
    Direction, PairCall, PairStep, RecvOp, SendStep, Serialized, Transmission, Tube,
};

// One direction of a connection that stays in memory. Packets come out whole; a stream comes out in
// pieces of at most `piece` bytes, and what was sent along with bytes comes out with the first of
// them.
struct Wire {
    packets: VecDeque<(Vec<u8>, Vec<i32>)>,
    piece: usize,
}

struct Socket {
    incoming: Rc<RefCell<Wire>>,
    outgoing: Rc<RefCell<Wire>>,
}

fn sockets(piece: usize) -> (Socket, Socket) {
    let wire = || Rc::new(RefCell::new(Wire { packets: VecDeque::new(), piece }));
    let (there, back) = (wire(), wire());
    let first = Socket { incoming: back.clone(), outgoing: there.clone() };
    let second = Socket { incoming: there, outgoing: back };
    (first, second)
}

fn pair(os: Os, piece: usize) -> (Tube<Socket>, Tube<Socket>) {
    let mut step = Tube::pair(os, Ok(sockets(piece)));
    loop {
        match step {
            PairStep::Await(op) => step = op.resume(Ok(())),
            PairStep::Done(result) => return result.unwrap(),
        }
    }
}

fn transmit(tube: &Tube<Socket>, out: Transmission) {
    let bytes = [out.header.clone(), out.body.clone()].concat();
    let sent = bytes.len();
    let message = (bytes, out.descriptors.clone());
    tube.socket().outgoing.borrow_mut().packets.push_back(message);
    match out.resume(Attempt::Done(sent)) {
        SendStep::Done(result) => result.unwrap(),
        SendStep::Await(_) => panic!("the message is not sent"),
    }
}

fn answer(tube: &Tube<Socket>, call: RecvCall) -> RecvReply<i32> {
    let mut wire = tube.socket().incoming.borrow_mut();
    let piece = wire.piece;
    match call {
        RecvCall::NextPacketSize => {
            RecvReply::PacketSize(wire.packets.front().map_or(0, |packet| packet.0.len()))
        }
        RecvCall::Receive { len, max_fds } => match tube.transport() {
            Transport::Packets => {
                let (mut bytes, mut descriptors) = wire.packets.pop_front().unwrap_or_default();
                bytes.truncate(len);
                descriptors.truncate(max_fds);
                RecvReply::Data { bytes, descriptors }
            }
            Transport::Stream => match wire.packets.front_mut() {
                Some((left, along)) => {
                    let take = len.min(piece).min(left.len());
                    let bytes: Vec<u8> = left.drain(..take).collect();
                    let mut descriptors = std::mem::take(along);
                    descriptors.truncate(max_fds);
                    if left.is_empty() {
                        wire.packets.pop_front();
                    }
                    RecvReply::Data { bytes, descriptors }
                }
                None => RecvReply::Data { bytes: Vec::new(), descriptors: Vec::new() },
            },
        },
    }
}

fn receive(tube: &Tube<Socket>, first: RecvOp<i32>) -> Result<Message<i32>, TubeError> {
    let mut op = first;
    loop {
        let reply = Attempt::Done(answer(tube, op.call()));
        assert!(op.accepts(&reply));
        match op.resume(reply) {
            RecvStep::Await(next) => op = next,
            RecvStep::Done(result) => return result,
        }
    }
}

fn failure() -> io::Error {
    io::Error::from(io::ErrorKind::BrokenPipe)
}

fn told(error: &io::Error) -> bool {
    error.kind() == io::ErrorKind::BrokenPipe
}

fn serialized(bytes: &[u8], descriptors: &[i32]) -> Result<Serialized, serde_json::Error> {
    Ok(Serialized { bytes: bytes.to_vec(), descriptors: descriptors.to_vec() })
}

fn not_json() -> serde_json::Error {
    serde_json::from_slice::<bool>(b"not json").unwrap_err()
}

fn data(bytes: &[u8], descriptors: &[i32]) -> Attempt<RecvReply<i32>> {
    Attempt::Done(RecvReply::Data { bytes: bytes.to_vec(), descriptors: descriptors.to_vec() })
}

fn next(op: RecvOp<i32>, reply: Attempt<RecvReply<i32>>) -> RecvOp<i32> {
    assert!(op.accepts(&reply));
    match op.resume(reply) {
        RecvStep::Await(op) => op,
        RecvStep::Done(_) => panic!("the message is over"),
    }
}

fn last(op: RecvOp<i32>, reply: Attempt<RecvReply<i32>>) -> Result<Message<i32>, TubeError> {
    assert!(op.accepts(&reply));
    match op.resume(reply) {
        RecvStep::Await(_) => panic!("the message is not over"),
        RecvStep::Done(result) => result,
    }
}

#[test]
fn message_comes_back_as_it_was_sent() {
    for os in [Os::Linux, Os::Macos] {
        for piece in [1, 3, 8, 100] {
            let (t1, t2) = pair(os, piece);
            let words = vec!["a".to_string(), "bc".to_string()];
            let json = serde_json::to_vec(&words).unwrap();
            transmit(&t1, t1.send(serialized(&json, &[7, 8])).unwrap());
            let message = receive(&t2, t2.recv().unwrap()).unwrap();
            assert_eq!(message.bytes, json);
            assert_eq!(message.descriptors, vec![7, 8]);
            let parsed: Vec<String> =
                Tube::<Socket>::parsed(serde_json::from_slice(&message.bytes)).unwrap();
            assert_eq!(parsed, words);
        }
    }
}

#[test]
fn messages_stay_apart_in_a_stream() {
    let (t1, t2) = pair(Os::Macos, 5);
    transmit(&t1, t1.send(serialized(b"1", &[])).unwrap());
    transmit(&t1, t1.send(serialized(b"\"second\"", &[9])).unwrap());
    let first = receive(&t2, t2.recv().unwrap()).unwrap();
    assert_eq!((first.bytes, first.descriptors), (b"1".to_vec(), vec![]));
    let second = receive(&t2, t2.recv().unwrap()).unwrap();
    assert_eq!((second.bytes, second.descriptors), (b"\"second\"".to_vec(), vec![9]));
}

#[test]
fn message_stands_behind_its_length_in_a_stream_only() {
    let (t1, _t2) = pair(Os::Macos, 1);
    let out = t1.send(serialized(b"true", &[])).unwrap();
    assert_eq!(out.header, vec![4, 0, 0, 0, 0, 0, 0, 0]);
    assert_eq!(out.body, b"true".to_vec());
    let (t1, _t2) = pair(Os::Linux, 1);
    let out = t1.send(serialized(b"true", &[5])).unwrap();
    assert!(out.header.is_empty());
    assert_eq!(out.body, b"true".to_vec());
    assert_eq!(out.descriptors, vec![5]);
}

#[test]
fn message_keeps_to_its_limit_on_descriptors() {
    let (t1, _t2) = pair(Os::Linux, 1);
    assert!(t1.send(serialized(b"1", &[0; TUBE_MAX_FDS])).is_ok());
    let refused = t1.send(serialized(b"1", &[0; TUBE_MAX_FDS + 1]));
    assert!(matches!(refused, Err(TubeError::SendTooManyFds)));
    assert!(t1.send_with_max_fds(serialized(b"1", &[0; 33]), 33).is_ok());
    assert!(t1.send_with_max_fds(serialized(b"1", &[]), 0).is_ok());
    let refused = t1.send_with_max_fds(serialized(b"1", &[0]), 0);
    assert!(matches!(refused, Err(TubeError::SendTooManyFds)));
}

#[test]
fn socket_passes_so_many_descriptors_and_no_more() {
    assert_eq!(SCM_SOCKET_MAX_FD_COUNT, 253);
    let (t1, _t2) = pair(Os::Linux, 1);
    let most = SCM_SOCKET_MAX_FD_COUNT;
    assert!(t1.send_with_max_fds(serialized(b"1", &[0; 253]), most).is_ok());
    let refused = t1.send_with_max_fds(serialized(b"1", &[]), most + 1);
    assert!(matches!(refused, Err(TubeError::SendTooManyFds)));
    let refused = t1.send_with_max_fds(Err(not_json()), most + 1);
    assert!(matches!(refused, Err(TubeError::SendTooManyFds)));
    assert!(t1.recv_with_max_fds::<i32>(most).is_ok());
    let refused = t1.recv_with_max_fds::<i32>(most + 1);
    assert!(matches!(refused, Err(TubeError::RecvTooManyFds)));
}

#[test]
fn message_that_is_not_json_is_told() {
    let (t1, _t2) = pair(Os::Linux, 1);
    assert!(matches!(t1.send(Err(not_json())), Err(TubeError::Json(_))));
    let parsed = Tube::<Socket>::parsed(serde_json::from_slice::<bool>(b"1"));
    assert!(matches!(parsed, Err(TubeError::Json(_))));
}

#[test]
fn interrupted_sending_begins_again() {
    let (t1, _t2) = pair(Os::Macos, 1);
    let out = t1.send(serialized(b"1", &[4])).unwrap();
    let out = match out.resume(Attempt::Interrupted) {
        SendStep::Await(out) => out,
        SendStep::Done(_) => panic!("the message was sent"),
    };
    assert_eq!(out.header, vec![1, 0, 0, 0, 0, 0, 0, 0]);
    assert_eq!((out.body.clone(), out.descriptors.clone()), (b"1".to_vec(), vec![4]));
    match out.resume(Attempt::Failed(failure())) {
        SendStep::Done(Err(TubeError::Send(error))) => assert!(told(&error)),
        _ => panic!("the message was sent"),
    }
}

#[test]
fn packet_is_sized_and_received_in_two_calls() {
    let (_t1, t2) = pair(Os::Linux, 1);
    let op = t2.recv_with_max_fds::<i32>(2).unwrap();
    assert_eq!(op.call(), RecvCall::NextPacketSize);
    assert!(!op.accepts(&data(b"1", &[])));
    let op = next(op, Attempt::Interrupted);
    assert_eq!(op.call(), RecvCall::NextPacketSize);
    let op = next(op, Attempt::Done(RecvReply::PacketSize(4)));
    assert_eq!(op.call(), RecvCall::Receive { len: 4, max_fds: 2 });
    assert!(!op.accepts(&data(b"12345", &[])));
    assert!(!op.accepts(&Attempt::Done(RecvReply::PacketSize(1))));
    let op = next(op, Attempt::Interrupted);
    assert_eq!(op.call(), RecvCall::Receive { len: 4, max_fds: 2 });
    let message = last(op, data(b"12", &[6])).unwrap();
    assert_eq!((message.bytes, message.descriptors), (b"12".to_vec(), vec![6]));
}

#[test]
fn stream_is_read_piece_by_piece() {
    let (_t1, t2) = pair(Os::Macos, 1);
    let op = t2.recv_with_max_fds::<i32>(2).unwrap();
    assert_eq!(op.call(), RecvCall::Receive { len: 8, max_fds: 2 });
    let op = next(op, Attempt::Interrupted);
    assert_eq!(op.call(), RecvCall::Receive { len: 8, max_fds: 2 });
    let op = next(op, data(&[3, 0, 0], &[6]));
    assert_eq!(op.call(), RecvCall::Receive { len: 5, max_fds: 0 });
    assert!(!op.accepts(&data(&[0; 6], &[])));
    assert!(!op.accepts(&Attempt::Done(RecvReply::PacketSize(5))));
    let op = next(op, data(&[0; 5], &[]));
    assert_eq!(op.call(), RecvCall::Receive { len: 3, max_fds: 0 });
    let op = next(op, data(b"12", &[]));
    let op = next(op, Attempt::Interrupted);
    assert_eq!(op.call(), RecvCall::Receive { len: 1, max_fds: 0 });
    let message = last(op, data(b"3", &[])).unwrap();
    assert_eq!((message.bytes, message.descriptors), (b"123".to_vec(), vec![6]));
}

#[test]
fn end_of_a_stream_disconnects() {
    let (_t1, t2) = pair(Os::Macos, 1);
    let start = || t2.recv::<i32>().unwrap();
    assert!(matches!(last(start(), data(&[], &[])), Err(TubeError::Disconnected)));
    let part = next(start(), data(&[3, 0], &[]));
    assert!(matches!(last(part, data(&[], &[])), Err(TubeError::Disconnected)));
    let body = || next(start(), data(&[3, 0, 0, 0, 0, 0, 0, 0], &[]));
    assert!(matches!(last(body(), data(&[], &[])), Err(TubeError::Disconnected)));
    let part = next(body(), data(b"1", &[]));
    assert!(matches!(last(part, data(&[], &[])), Err(TubeError::Disconnected)));
    assert!(matches!(last(start(), data(&[0; 8], &[])), Err(TubeError::Disconnected)));
}

#[test]
fn empty_packet_disconnects() {
    let (_t1, t2) = pair(Os::Linux, 1);
    assert!(matches!(receive(&t2, t2.recv().unwrap()), Err(TubeError::Disconnected)));
    let op = next(t2.recv().unwrap(), Attempt::Done(RecvReply::PacketSize(5)));
    assert!(matches!(last(op, data(&[], &[])), Err(TubeError::Disconnected)));
}

#[test]
fn failed_receiving_tells_why() {
    for os in [Os::Linux, Os::Macos] {
        let (_t1, t2) = pair(os, 1);
        match last(t2.recv().unwrap(), Attempt::Failed(failure())) {
            Err(TubeError::Recv(error)) => assert!(told(&error)),
            _ => panic!("a message was received"),
        }
    }
}

#[test]
fn exact_read_gives_all_or_nothing() {
    let (_t1, t2) = pair(Os::Macos, 1);
    match t2.recv_stream_exact::<i32>(0, 5) {
        RecvStep::Done(Ok(message)) => assert!(message.bytes.is_empty()),
        _ => panic!("there is nothing to read"),
    }
    let start = || match t2.recv_stream_exact::<i32>(3, 5) {
        RecvStep::Await(read) => read,
        RecvStep::Done(_) => panic!("there is something to read"),
    };
    assert_eq!(start().call(), RecvCall::Receive { len: 3, max_fds: 5 });
    match start().resume(data(&[], &[1])) {
        RecvStep::Done(Ok(message)) => {
            assert!(message.bytes.is_empty());
            assert!(message.descriptors.is_empty());
        }
        _ => panic!("the stream is over"),
    }
    match start().resume(data(b"123", &[1])) {
        RecvStep::Done(Ok(message)) => {
            assert_eq!((message.bytes, message.descriptors), (b"123".to_vec(), vec![1]))
        }
        _ => panic!("everything was read"),
    }
}

// Reads `len` bytes of a stream that hands out pieces of at most `piece` bytes, each with a descriptor
// of its own, and is interrupted before each of them. Gives what was read and what is left.
fn read_exactly(
    stream: &[u8],
    len: usize,
    piece: usize,
) -> (Result<Message<i32>, TubeError>, Vec<u8>) {
    let (_t1, t2) = pair(Os::Macos, 1);
    let mut left = stream.to_vec();
    let mut step = t2.recv_stream_exact::<i32>(len, 1);
    let mut fd = 0;
    loop {
        let read = match step {
            RecvStep::Await(read) => read,
            RecvStep::Done(result) => return (result, left),
        };
        let read = match read.resume(Attempt::Interrupted) {
            RecvStep::Await(read) => read,
            RecvStep::Done(_) => panic!("an interruption ended the read"),
        };
        let RecvCall::Receive { len: asked, max_fds } = read.call() else {
            panic!("a stream has no packets");
        };
        assert_eq!(max_fds, if fd == 0 { 1 } else { 0 });
        let take = asked.min(piece).min(left.len());
        let bytes: Vec<u8> = left.drain(..take).collect();
        fd += 1;
        let reply = data(&bytes, &[fd]);
        assert!(read.accepts(&reply));
        step = read.resume(reply);
    }
}

#[test]
fn stream_is_read_exactly() {
    let stream = [1, 2, 3, 4, 5, 6, 7];
    for len in 0..10 {
        for piece in 1..9 {
            let (result, left) = read_exactly(&stream, len, piece);
            if len <= stream.len() {
                let message = result.unwrap();
                assert_eq!(message.bytes, stream[..len].to_vec());
                assert_eq!(left, stream[len..].to_vec());
                let pieces = len.div_ceil(piece) as i32;
                assert_eq!(message.descriptors, (1..=pieces).collect::<Vec<i32>>());
            } else {
                assert!(matches!(result, Err(TubeError::Disconnected)));
                assert!(left.is_empty());
            }
        }
    }
    let (result, _) = read_exactly(&[], 4, 1);
    let message = result.unwrap();
    assert!(message.bytes.is_empty() && message.descriptors.is_empty());
}

#[test]
fn pair_keeps_its_sockets() {
    for (os, transport, stages) in
        [(Os::Linux, Transport::Packets, "aA"), (Os::Macos, Transport::Stream, "cCaA")]
    {
        let mut seen = String::new();
        let mut step = Tube::pair(os, Ok(("first", "second")));
        let (t1, t2) = loop {
            match step {
                PairStep::Await(op) => {
                    seen.push(match op.call() {
                        PairCall::SetCloexec(socket) if *socket == "first" => 'c',
                        PairCall::SetCloexec(_) => 'C',
                        PairCall::Attach(socket) if *socket == "first" => 'a',
                        PairCall::Attach(_) => 'A',
                    });
                    step = op.resume(Ok(()));
                }
                PairStep::Done(result) => break result.unwrap(),
            }
        };
        assert_eq!(seen, stages);
        assert_eq!((*t1.socket(), *t2.socket()), ("first", "second"));
        assert_eq!((t1.transport(), t2.transport()), (transport, transport));
    }
}

#[test]
fn pair_that_fails_tells_where() {
    let none: PairStep<i32> = Tube::pair(Os::Linux, Err(failure()));
    assert!(matches!(none, PairStep::Done(Err(TubeError::Pair(_)))));
    for (os, ready, pairing) in [
        (Os::Macos, 0, true),
        (Os::Macos, 1, true),
        (Os::Macos, 2, false),
        (Os::Macos, 3, false),
        (Os::Linux, 0, false),
        (Os::Linux, 1, false),
    ] {
        let mut step = Tube::pair(os, Ok((1, 2)));
        for done in 0..ready + 1 {
            step = match step {
                PairStep::Await(op) => {
                    op.resume(if done < ready { Ok(()) } else { Err(failure()) })
                }
                PairStep::Done(_) => panic!("the pair was made"),
            };
        }
        match step {
            PairStep::Done(Err(TubeError::Pair(error))) => assert!(pairing && told(&error)),
            PairStep::Done(Err(TubeError::ScmSocket(error))) => assert!(!pairing && told(&error)),
            _ => panic!("the pair was made"),
        }
    }
}

#[test]
fn tube_is_made_of_a_socket_that_is_ready() {
    let tube = Tube::try_from("socket", Transport::Stream).finish(Ok(())).unwrap();
    assert_eq!((*tube.socket(), tube.transport()), ("socket", Transport::Stream));
    match Tube::try_from("socket", Transport::Packets).finish(Err(failure())) {
        Err(TubeError::ScmSocket(error)) => assert!(told(&error)),
        _ => panic!("the socket was not ready"),
    }
}

#[test]
fn clone_is_a_tube_over_the_duplicate() {
    let tube = Tube::try_from("socket", Transport::Stream).finish(Ok(())).unwrap();
    let clone = tube.try_clone(Ok("duplicate")).unwrap().finish(Ok(())).unwrap();
    assert_eq!((*clone.socket(), clone.transport()), ("duplicate", Transport::Stream));
    match tube.try_clone(Err(failure())) {
        Err(TubeError::Clone(error)) => assert!(told(&error)),
        _ => panic!("there is no duplicate"),
    }
}

#[test]
fn timeouts_are_set_each_way() {
    let (tube, _peer) = pair(Os::Linux, 1);
    let limit = Some(Duration::from_secs(5));
    let op = tube.set_send_timeout(limit);
    assert_eq!((op.direction, op.timeout), (Direction::Send, limit));
    assert!(op.finish(Ok(())).is_ok());
    let failed = tube.set_send_timeout(None).finish(Err(failure()));
    assert!(matches!(failed, Err(TubeError::SetSendTimeout(_))));
    let op = tube.set_recv_timeout(None);
    assert_eq!((op.direction, op.timeout), (Direction::Recv, None));
    assert!(op.finish(Ok(())).is_ok());
    let failed = tube.set_recv_timeout(limit).finish(Err(failure()));
    assert!(matches!(failed, Err(TubeError::SetRecvTimeout(_))));
}

#[test]
fn systems_differ_in_their_sockets() {
    assert_eq!(Transport::of(Os::Linux), Transport::Packets);
    assert_eq!(Transport::of(Os::Macos), Transport::Stream);
}
