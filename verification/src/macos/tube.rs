//! Receiving a message from a stream of bytes, where it stands behind its length.

use vstd::prelude::*;

use crate::tube::{
    Attempt, Format, Message, MessageView, RecvCall, RecvEvent, RecvReply, RecvStep, RecvStepView,
    TubeError,
};
use crate::wire::{decode_length, le_value, LENGTH_BYTES};

verus! {

/// Reading an exact number of bytes from a stream, however many pieces they come in.
#[derive(Debug)]
pub struct StreamRead<D> {
    /// How many bytes to read.
    pub want: usize,
    /// How many descriptors may come with the first piece; none come with a later one.
    pub max_fds: usize,
    /// The bytes read so far.
    pub data: Vec<u8>,
    /// The descriptors that came with them.
    pub descriptors: Vec<D>,
}

/// What has been read of an exact number of bytes.
pub struct StreamReadView<D> {
    pub want: usize,
    pub max_fds: usize,
    pub data: Seq<u8>,
    pub descriptors: Seq<D>,
}

impl<D> View for StreamRead<D> {
    type V = StreamReadView<D>;

    open spec fn view(&self) -> StreamReadView<D> {
        StreamReadView {
            want: self.want,
            max_fds: self.max_fds,
            data: self.data@,
            descriptors: self.descriptors@,
        }
    }
}

impl<D> StreamReadView<D> {
    /// There is something left to read.
    pub open spec fn wf(self) -> bool {
        self.data.len() < self.want
    }

    /// The call that is awaited: what is left to read, and descriptors only at the beginning.
    pub open spec fn spec_call(self) -> RecvCall {
        RecvCall::Receive {
            len: (self.want - self.data.len()) as usize,
            max_fds: if self.data.len() == 0 {
                self.max_fds
            } else {
                0
            },
        }
    }

    /// The reply answers the call: no more bytes than were asked for.
    pub open spec fn spec_accepts(self, event: RecvEvent<D>) -> bool {
        match event {
            RecvEvent::PacketSize(_) => false,
            RecvEvent::Data(bytes, _) => self.data.len() + bytes.len() <= self.want,
            _ => true,
        }
    }

    /// Begins to read `want` bytes. There is nothing to wait for where that is none.
    pub open spec fn spec_start(want: usize, max_fds: usize) -> RecvStepView<StreamReadView<D>, D> {
        if want == 0 {
            RecvStepView::Done(Ok(MessageView { bytes: Seq::empty(), descriptors: Seq::empty() }))
        } else {
            RecvStepView::Await(
                StreamReadView {
                    want,
                    max_fds,
                    data: Seq::empty(),
                    descriptors: Seq::empty(),
                },
            )
        }
    }

    /// The step that a reply leads to. An interrupted call is made again. A stream that ends before
    /// the first byte gives no bytes; one that ends later breaks the message off.
    pub open spec fn spec_resume(self, event: RecvEvent<D>) -> RecvStepView<StreamReadView<D>, D> {
        match event {
            RecvEvent::Failed(error) => RecvStepView::Done(Err(TubeError::Recv(error))),
            RecvEvent::Data(bytes, descriptors) => {
                let data = self.data + bytes;
                let all = self.descriptors + descriptors;
                if bytes.len() == 0 && self.data.len() == 0 {
                    RecvStepView::Done(
                        Ok(MessageView { bytes: Seq::empty(), descriptors: self.descriptors }),
                    )
                } else if bytes.len() == 0 {
                    RecvStepView::Done(Err(TubeError::Disconnected))
                } else if data.len() < self.want {
                    RecvStepView::Await(StreamReadView { data, descriptors: all, ..self })
                } else {
                    RecvStepView::Done(Ok(MessageView { bytes: data, descriptors: all }))
                }
            },
            _ => RecvStepView::Await(self),
        }
    }
}

impl<D> StreamRead<D> {
    /// Begins to read exactly `want` bytes, with up to `max_fds` descriptors in front.
    pub fn start(want: usize, max_fds: usize) -> (step: RecvStep<StreamRead<D>, D>)
        ensures
            step@ == StreamReadView::<D>::spec_start(want, max_fds),
            step matches RecvStep::Await(read) ==> read@.wf(),
    {
        if want == 0 {
            RecvStep::Done(Ok(Message { bytes: Vec::new(), descriptors: Vec::new() }))
        } else {
            RecvStep::Await(
                StreamRead { want, max_fds, data: Vec::new(), descriptors: Vec::new() },
            )
        }
    }

    /// Returns the call that is awaited.
    pub fn call(&self) -> (call: RecvCall)
        requires
            self@.wf(),
        ensures
            call == self@.spec_call(),
    {
        let read: usize = self.data.len();
        let fds_to_recv: usize = if read == 0 {
            self.max_fds
        } else {
            0
        };
        RecvCall::Receive { len: self.want - read, max_fds: fds_to_recv }
    }

    /// Tells whether a reply answers the call.
    pub fn accepts(&self, reply: &Attempt<RecvReply<D>>) -> (yes: bool)
        requires
            self@.wf(),
        ensures
            yes == self@.spec_accepts(reply@),
    {
        match reply {
            Attempt::Done(RecvReply::PacketSize(_)) => false,
            Attempt::Done(RecvReply::Data { bytes, .. }) => bytes.len() <= self.want
                - self.data.len(),
            Attempt::Interrupted => true,
            Attempt::Failed(_) => true,
        }
    }

    /// Goes on from the reply to the call that was awaited.
    pub fn resume(self, reply: Attempt<RecvReply<D>>) -> (step: RecvStep<StreamRead<D>, D>)
        requires
            self@.wf(),
            self@.spec_accepts(reply@),
        ensures
            step@ == self@.spec_resume(reply@),
            step matches RecvStep::Await(read) ==> read@.wf(),
    {
        match reply {
            Attempt::Interrupted => RecvStep::Await(self),
            Attempt::Failed(error) => RecvStep::Done(Err(TubeError::Recv(error))),
            Attempt::Done(RecvReply::PacketSize(_)) => RecvStep::Await(self),
            Attempt::Done(RecvReply::Data { bytes, descriptors }) => {
                if bytes.len() == 0 {
                    if self.data.len() == 0 {
                        return RecvStep::Done(
                            Ok(Message { bytes: Vec::new(), descriptors: self.descriptors }),
                        );
                    }
                    return RecvStep::Done(Err(TubeError::Disconnected));
                }
                let mut piece: Vec<u8> = bytes;
                let mut fds: Vec<D> = descriptors;
                let mut data: Vec<u8> = self.data;
                let mut all: Vec<D> = self.descriptors;
                data.append(&mut piece);
                all.append(&mut fds);
                if data.len() < self.want {
                    RecvStep::Await(
                        StreamRead {
                            want: self.want,
                            max_fds: self.max_fds,
                            data,
                            descriptors: all,
                        },
                    )
                } else {
                    RecvStep::Done(Ok(Message { bytes: data, descriptors: all }))
                }
            },
        }
    }
}

/// Receiving a message from a stream: which part of it is being read.
#[derive(Debug)]
pub enum StreamRecv<D> {
    /// Its length.
    Header { read: StreamRead<D>, format: Format },
    /// Its bytes; the descriptors came with the length.
    Body { read: StreamRead<D>, descriptors: Vec<D> },
}

/// What has been received of a message from a stream.
pub enum StreamRecvView<D> {
    Header { read: StreamReadView<D>, format: Format },
    Body { read: StreamReadView<D>, descriptors: Seq<D> },
}

impl<D> View for StreamRecv<D> {
    type V = StreamRecvView<D>;

    open spec fn view(&self) -> StreamRecvView<D> {
        match *self {
            StreamRecv::Header { read, format } => StreamRecvView::Header { read: read@, format },
            StreamRecv::Body { read, descriptors } => StreamRecvView::Body {
                read: read@,
                descriptors: descriptors@,
            },
        }
    }
}

impl<D> StreamRecvView<D> {
    /// There is something left to read, and the length takes eight bytes.
    pub open spec fn wf(self) -> bool {
        match self {
            StreamRecvView::Header { read, format } => read.wf() && read.want == LENGTH_BYTES,
            StreamRecvView::Body { read, descriptors } => read.wf(),
        }
    }

    /// What is being read.
    pub open spec fn read(self) -> StreamReadView<D> {
        match self {
            StreamRecvView::Header { read, format } => read,
            StreamRecvView::Body { read, descriptors } => read,
        }
    }

    /// Begins to receive a message.
    pub open spec fn spec_start(max_fds: usize, format: Format) -> StreamRecvView<D> {
        StreamRecvView::Header {
            read: StreamReadView {
                want: LENGTH_BYTES,
                max_fds,
                data: Seq::empty(),
                descriptors: Seq::empty(),
            },
            format,
        }
    }

    /// The step that follows once the length has been read. No bytes at all mean that the other end
    /// is gone, and so does a length of zero where JSON is expected.
    pub open spec fn spec_header_read(header: MessageView<D>, format: Format) -> RecvStepView<
        StreamRecvView<D>,
        D,
    > {
        let size = (le_value(header.bytes) as u64) as usize;
        let descriptors = match format {
            Format::Json => header.descriptors,
            Format::Proto => Seq::empty(),
        };
        if header.bytes.len() == 0 || (size == 0 && format is Json) {
            RecvStepView::Done(Err(TubeError::Disconnected))
        } else if size == 0 {
            RecvStepView::Done(Ok(MessageView { bytes: Seq::empty(), descriptors }))
        } else {
            RecvStepView::Await(
                StreamRecvView::Body {
                    read: StreamReadView {
                        want: size,
                        max_fds: 0,
                        data: Seq::empty(),
                        descriptors: Seq::empty(),
                    },
                    descriptors,
                },
            )
        }
    }

    /// The step that follows once the bytes of the message have been read. No bytes at all mean that
    /// the other end is gone.
    pub open spec fn spec_body_read(body: MessageView<D>, descriptors: Seq<D>) -> RecvStepView<
        StreamRecvView<D>,
        D,
    > {
        if body.bytes.len() == 0 {
            RecvStepView::Done(Err(TubeError::Disconnected))
        } else {
            RecvStepView::Done(Ok(MessageView { bytes: body.bytes, descriptors }))
        }
    }

    /// The step that a reply leads to.
    pub open spec fn spec_resume(self, event: RecvEvent<D>) -> RecvStepView<StreamRecvView<D>, D> {
        match self {
            StreamRecvView::Header { read, format } => match read.spec_resume(event) {
                RecvStepView::Await(read) => RecvStepView::Await(
                    StreamRecvView::Header { read, format },
                ),
                RecvStepView::Done(Ok(header)) => StreamRecvView::spec_header_read(header, format),
                RecvStepView::Done(Err(error)) => RecvStepView::Done(Err(error)),
            },
            StreamRecvView::Body { read, descriptors } => match read.spec_resume(event) {
                RecvStepView::Await(read) => RecvStepView::Await(
                    StreamRecvView::Body { read, descriptors },
                ),
                RecvStepView::Done(Ok(body)) => StreamRecvView::spec_body_read(body, descriptors),
                RecvStepView::Done(Err(error)) => RecvStepView::Done(Err(error)),
            },
        }
    }
}

impl<D> StreamRecv<D> {
    /// Begins to receive a message with up to `max_fds` descriptors.
    pub fn start(max_fds: usize, format: Format) -> (op: StreamRecv<D>)
        ensures
            op@ == StreamRecvView::<D>::spec_start(max_fds, format),
            op@.wf(),
    {
        StreamRecv::Header {
            read: StreamRead {
                want: LENGTH_BYTES,
                max_fds,
                data: Vec::new(),
                descriptors: Vec::new(),
            },
            format,
        }
    }

    /// Returns the call that is awaited.
    pub fn call(&self) -> (call: RecvCall)
        requires
            self@.wf(),
        ensures
            call == self@.read().spec_call(),
    {
        match self {
            StreamRecv::Header { read, format } => read.call(),
            StreamRecv::Body { read, descriptors } => read.call(),
        }
    }

    /// Tells whether a reply answers the call.
    pub fn accepts(&self, reply: &Attempt<RecvReply<D>>) -> (yes: bool)
        requires
            self@.wf(),
        ensures
            yes == self@.read().spec_accepts(reply@),
    {
        match self {
            StreamRecv::Header { read, format } => read.accepts(reply),
            StreamRecv::Body { read, descriptors } => read.accepts(reply),
        }
    }

    fn header_read(header: Message<D>, format: Format) -> (step: RecvStep<StreamRecv<D>, D>)
        requires
            header@.bytes.len() == 0 || header@.bytes.len() == LENGTH_BYTES,
        ensures
            step@ == StreamRecvView::spec_header_read(header@, format),
            step matches RecvStep::Await(op) ==> op@.wf(),
    {
        if header.bytes.len() == 0 {
            return RecvStep::Done(Err(TubeError::Disconnected));
        }
        let msg_size: usize = #[verifier::truncate]
        (decode_length(&header.bytes) as usize);
        let descriptors: Vec<D> = match format {
            Format::Json => header.descriptors,
            Format::Proto => Vec::new(),
        };
        match StreamRead::start(msg_size, 0) {
            RecvStep::Await(read) => RecvStep::Await(StreamRecv::Body { read, descriptors }),
            RecvStep::Done(_) => match format {
                Format::Json => RecvStep::Done(Err(TubeError::Disconnected)),
                Format::Proto => RecvStep::Done(Ok(Message { bytes: Vec::new(), descriptors })),
            },
        }
    }

    fn body_read(body: Message<D>, descriptors: Vec<D>) -> (step: RecvStep<StreamRecv<D>, D>)
        ensures
            step@ == StreamRecvView::spec_body_read(body@, descriptors@),
            step is Done,
    {
        if body.bytes.len() == 0 {
            RecvStep::Done(Err(TubeError::Disconnected))
        } else {
            RecvStep::Done(Ok(Message { bytes: body.bytes, descriptors }))
        }
    }

    /// Goes on from the reply to the call that was awaited.
    pub fn resume(self, reply: Attempt<RecvReply<D>>) -> (step: RecvStep<StreamRecv<D>, D>)
        requires
            self@.wf(),
            self@.read().spec_accepts(reply@),
        ensures
            step@ == self@.spec_resume(reply@),
            step matches RecvStep::Await(op) ==> op@.wf(),
    {
        match self {
            StreamRecv::Header { read, format } => match read.resume(reply) {
                RecvStep::Await(read) => RecvStep::Await(StreamRecv::Header { read, format }),
                RecvStep::Done(Ok(header)) => StreamRecv::header_read(header, format),
                RecvStep::Done(Err(error)) => RecvStep::Done(Err(error)),
            },
            StreamRecv::Body { read, descriptors } => match read.resume(reply) {
                RecvStep::Await(read) => RecvStep::Await(StreamRecv::Body { read, descriptors }),
                RecvStep::Done(Ok(body)) => StreamRecv::body_read(body, descriptors),
                RecvStep::Done(Err(error)) => RecvStep::Done(Err(error)),
            },
        }
    }
}

} // verus!
