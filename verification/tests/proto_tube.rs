use std::cell::RefCell;
use std::collections::VecDeque;
use std::rc::Rc;

use base_sys::operation::Os;
use base_sys::tube::{
    Attempt, Message, RecvCall, RecvReply, RecvStep, Transport, TubeError,
};
use base_sys::unix::tube::{PairStep, ProtoTube, RecvOp, SendStep, Transmission, Tube};
use protobuf::Message as Proto;
use protobuf::{CodedInputStream, CodedOutputStream, SpecialFields};

// A part of a composite disk, as it is described in a proto.
#[derive(Clone, Debug, Default, PartialEq)]
struct ComponentDisk {
    file_path: String,
    offset: u64,
    read_write_capability: i32,
    special_fields: SpecialFields,
}

impl Proto for ComponentDisk {
    const NAME: &'static str = "ComponentDisk";

    fn is_initialized(&self) -> bool {
        true
    }

    fn merge_from(&mut self, is: &mut CodedInputStream) -> protobuf::Result<()> {
        while let Some(tag) = is.read_raw_tag_or_eof()? {
            match tag {
                10 => self.file_path = is.read_string()?,
                16 => self.offset = is.read_uint64()?,
                24 => self.read_write_capability = is.read_int32()?,
                tag => {
                    let unknown = self.special_fields.mut_unknown_fields();
                    protobuf::rt::read_unknown_or_skip_group(tag, is, unknown)?;
                }
            }
        }
        Ok(())
    }

    fn write_to_with_cached_sizes(&self, os: &mut CodedOutputStream) -> protobuf::Result<()> {
        if !self.file_path.is_empty() {
            os.write_string(1, &self.file_path)?;
        }
        if self.offset != 0 {
            os.write_uint64(2, self.offset)?;
        }
        if self.read_write_capability != 0 {
            os.write_int32(3, self.read_write_capability)?;
        }
        os.write_unknown_fields(self.special_fields.unknown_fields())
    }

    fn compute_size(&self) -> u64 {
        let mut size = 0;
        if !self.file_path.is_empty() {
            size += protobuf::rt::string_size(1, &self.file_path);
        }
        if self.offset != 0 {
            size += protobuf::rt::uint64_size(2, self.offset);
        }
        if self.read_write_capability != 0 {
            size += protobuf::rt::int32_size(3, self.read_write_capability);
        }
        size += protobuf::rt::unknown_fields_size(self.special_fields.unknown_fields());
        self.special_fields.cached_size().set(size as u32);
        size
    }

    fn special_fields(&self) -> &SpecialFields {
        &self.special_fields
    }

    fn mut_special_fields(&mut self) -> &mut SpecialFields {
        &mut self.special_fields
    }

    fn new() -> ComponentDisk {
        ComponentDisk::default()
    }

    fn default_instance() -> &'static ComponentDisk {
        Box::leak(Box::new(ComponentDisk::new()))
    }
}

// One direction of a connection that stays in memory. Packets come out whole; a stream comes out in
// pieces of at most `piece` bytes, and what was sent along with bytes comes out with the first of
// them.
struct Wire {
    packets: VecDeque<(Vec<u8>, Vec<i32>)>,
    piece: usize,
}

struct Socket {
    incoming: Rc<RefCell<Wire>>,
    outgoing: Rc<RefCell<Wire>>,
}

fn sockets(piece: usize) -> (Socket, Socket) {
    let wire = || Rc::new(RefCell::new(Wire { packets: VecDeque::new(), piece }));
    let (there, back) = (wire(), wire());
    let first = Socket { incoming: back.clone(), outgoing: there.clone() };
    let second = Socket { incoming: there, outgoing: back };
    (first, second)
}

fn pair(os: Os, piece: usize) -> (Tube<Socket>, Tube<Socket>) {
    let mut step = Tube::pair(os, Ok(sockets(piece)));
    loop {
        match step {
            PairStep::Await(op) => step = op.resume(Ok(())),
            PairStep::Done(result) => return result.unwrap(),
        }
    }
}

fn transmit(tube: &Tube<Socket>, out: Transmission) {
    let bytes = [out.header.clone(), out.body.clone()].concat();
    let sent = bytes.len();
    let message = (bytes, out.descriptors.clone());
    tube.socket().outgoing.borrow_mut().packets.push_back(message);
    match out.resume(Attempt::Done(sent)) {
        SendStep::Done(result) => result.unwrap(),
        SendStep::Await(_) => panic!("the message is not sent"),
    }
}

fn answer(tube: &Tube<Socket>, call: RecvCall) -> RecvReply<i32> {
    let mut wire = tube.socket().incoming.borrow_mut();
    let piece = wire.piece;
    match call {
        RecvCall::NextPacketSize => {
            RecvReply::PacketSize(wire.packets.front().map_or(0, |packet| packet.0.len()))
        }
        RecvCall::Receive { len, max_fds } => match tube.transport() {
            Transport::Packets => {
                let (mut bytes, mut descriptors) = wire.packets.pop_front().unwrap_or_default();
                bytes.truncate(len);
                descriptors.truncate(max_fds);
                RecvReply::Data { bytes, descriptors }
            }
            Transport::Stream => match wire.packets.front_mut() {
                Some((left, along)) => {
                    let take = len.min(piece).min(left.len());
                    let bytes: Vec<u8> = left.drain(..take).collect();
                    let mut descriptors = std::mem::take(along);
                    descriptors.truncate(max_fds);
                    if left.is_empty() {
                        wire.packets.pop_front();
                    }
                    RecvReply::Data { bytes, descriptors }
                }
                None => RecvReply::Data { bytes: Vec::new(), descriptors: Vec::new() },
            },
        },
    }
}

fn receive(tube: &Tube<Socket>, first: RecvOp<i32>) -> Result<Message<i32>, TubeError> {
    let mut op = first;
    loop {
        let reply = Attempt::Done(answer(tube, op.call()));
        assert!(op.accepts(&reply));
        match op.resume(reply) {
            RecvStep::Await(next) => op = next,
            RecvStep::Done(result) => return result,
        }
    }
}

fn proto_pair(os: Os) -> (ProtoTube<Socket>, ProtoTube<Socket>) {
    ProtoTube::pair(Ok(pair(os, 3))).unwrap()
}

fn send_proto<M: Proto>(tube: &ProtoTube<Socket>, msg: &M) -> Result<(), TubeError> {
    let out = tube.send_proto(msg.write_to_bytes())?;
    transmit(tube.tube(), out);
    Ok(())
}

fn recv_proto<M: Proto>(tube: &ProtoTube<Socket>) -> Result<M, TubeError> {
    let message = receive(tube.tube(), tube.recv_proto())?;
    ProtoTube::<Socket>::parsed(M::parse_from_bytes(&message.bytes))
}

#[test]
fn tube_serializes_and_deserializes() {
    for os in [Os::Linux, Os::Macos] {
        let (pt1, pt2) = proto_pair(os);
        let proto = ComponentDisk {
            file_path: "/some/cool/path".to_string(),
            offset: 99,
            ..ComponentDisk::new()
        };

        send_proto(&pt1, &proto).unwrap();

        let recv_proto = recv_proto(&pt2).unwrap();

        assert!(proto.eq(&recv_proto));
    }
}

#[test]
fn protos_go_both_ways_in_order() {
    for os in [Os::Linux, Os::Macos] {
        let (pt1, pt2) = proto_pair(os);
        for offset in 1..4 {
            send_proto(&pt1, &ComponentDisk { offset, ..ComponentDisk::new() }).unwrap();
        }
        for offset in 1..4 {
            assert_eq!(recv_proto::<ComponentDisk>(&pt2).unwrap().offset, offset);
        }
        send_proto(&pt2, &ComponentDisk { offset: 9, ..ComponentDisk::new() }).unwrap();
        assert_eq!(recv_proto::<ComponentDisk>(&pt1).unwrap().offset, 9);
    }
}

#[test]
fn proto_stands_behind_its_length_in_a_stream() {
    let proto = ComponentDisk { offset: 99, ..ComponentDisk::new() };
    let (stream, _peer) = proto_pair(Os::Macos);
    let out = stream.send_proto(proto.write_to_bytes()).unwrap();
    assert_eq!(out.header, vec![2, 0, 0, 0, 0, 0, 0, 0]);
    assert_eq!(out.body, vec![16, 99]);
    assert!(out.descriptors.is_empty());

    let (packets, _peer) = proto_pair(Os::Linux);
    let out = packets.send_proto(proto.write_to_bytes()).unwrap();
    assert!(out.header.is_empty());
    assert_eq!(out.body, vec![16, 99]);
}

#[test]
fn empty_proto_comes_through_a_stream_only() {
    let (pt1, pt2) = proto_pair(Os::Macos);
    send_proto(&pt1, &ComponentDisk::new()).unwrap();
    assert_eq!(recv_proto::<ComponentDisk>(&pt2).unwrap(), ComponentDisk::new());

    let (pt1, pt2) = proto_pair(Os::Linux);
    send_proto(&pt1, &ComponentDisk::new()).unwrap();
    assert!(matches!(recv_proto::<ComponentDisk>(&pt2), Err(TubeError::Disconnected)));
}

#[test]
fn proto_leaves_descriptors_behind() {
    for os in [Os::Linux, Os::Macos] {
        let (pt1, pt2) = proto_pair(os);
        let mut out = pt1.send_proto(Ok(vec![16, 99])).unwrap();
        out.descriptors = vec![3, 4];
        transmit(pt1.tube(), out);
        let message = receive(pt2.tube(), pt2.recv_proto()).unwrap();
        assert_eq!(message.bytes, vec![16, 99]);
        assert!(message.descriptors.is_empty());
    }
}

#[test]
fn proto_takes_the_whole_buffer_of_a_packet() {
    let (_pt1, pt2) = proto_pair(Os::Linux);
    let op: RecvOp<i32> = pt2.recv_proto();
    let op = match op.resume(Attempt::Done(RecvReply::PacketSize(4))) {
        RecvStep::Await(op) => op,
        RecvStep::Done(_) => panic!("nothing was received"),
    };
    assert_eq!(op.call(), RecvCall::Receive { len: 4, max_fds: 32 });
    let data = RecvReply::Data { bytes: vec![16, 99], descriptors: vec![7] };
    match op.resume(Attempt::Done(data)) {
        RecvStep::Done(Ok(message)) => {
            assert_eq!(message.bytes, vec![16, 99, 0, 0]);
            assert!(message.descriptors.is_empty());
        }
        _ => panic!("the packet is a message"),
    }
}

#[test]
fn bytes_that_are_no_proto_are_told() {
    let (pt1, pt2) = proto_pair(Os::Linux);
    transmit(pt1.tube(), pt1.send_proto(Ok(vec![10, 200])).unwrap());
    assert!(matches!(recv_proto::<ComponentDisk>(&pt2), Err(TubeError::Proto(_))));
    let broken = ComponentDisk::parse_from_bytes(&[10, 200]).unwrap_err();
    assert!(matches!(pt1.send_proto(Err(broken)), Err(TubeError::Proto(_))));
}

#[test]
fn proto_tube_is_made_of_a_tube() {
    let (tube, _peer) = pair(Os::Macos, 1);
    let proto_tube = ProtoTube::from(tube);
    assert_eq!(proto_tube.tube().transport(), Transport::Stream);
    let failed: Result<(ProtoTube<Socket>, ProtoTube<Socket>), TubeError> =
        ProtoTube::pair(Err(TubeError::Disconnected));
    assert!(matches!(failed, Err(TubeError::Disconnected)));
}
