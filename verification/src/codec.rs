//! The messages between two nodes and the frames in which they travel.
//!
//! A frame is the protocol version, the length of the payload in two bytes, the
//! kind of message and the payload.

use crate::pb;
use crate::pb::{decode, decoded, Message};
use crate::types::{lemma_message_type_codes, MessageType};
use crate::wire::MalformedMessage;
use vstd::prelude::*;

verus! {

/// The version of the protocol, the first byte of every frame.
pub const METALBOND_VERSION: u8 = 1;

/// The most bytes that the payload of a frame may have.
pub const MAX_MESSAGE_LEN: usize = 1188;

/// A message between two nodes.
#[derive(Debug)]
pub enum GeneratedMessage {
    Hello(pb::Hello),
    Keepalive,
    Subscribe(pb::Subscription),
    Unsubscribe(pb::Subscription),
    Update(pb::Update),
}

/// What a [`GeneratedMessage`] says.
pub enum MessageView {
    Hello(pb::Hello),
    Keepalive,
    Subscribe(pb::Subscription),
    Unsubscribe(pb::Subscription),
    Update(pb::UpdateView),
}

impl View for GeneratedMessage {
    type V = MessageView;

    open spec fn view(&self) -> MessageView {
        match self {
            GeneratedMessage::Hello(hello) => MessageView::Hello(*hello),
            GeneratedMessage::Keepalive => MessageView::Keepalive,
            GeneratedMessage::Subscribe(sub) => MessageView::Subscribe(*sub),
            GeneratedMessage::Unsubscribe(sub) => MessageView::Unsubscribe(*sub),
            GeneratedMessage::Update(update) => MessageView::Update(update@),
        }
    }
}

impl MessageView {
    /// The kind of the message.
    pub open spec fn kind(self) -> MessageType {
        match self {
            MessageView::Hello(_) => MessageType::Hello,
            MessageView::Keepalive => MessageType::Keepalive,
            MessageView::Subscribe(_) => MessageType::Subscribe,
            MessageView::Unsubscribe(_) => MessageType::Unsubscribe,
            MessageView::Update(_) => MessageType::Update,
        }
    }

    /// The encoding of the message.
    pub open spec fn payload(self) -> Seq<u8> {
        match self {
            MessageView::Hello(hello) => pb::Hello::payload(hello),
            MessageView::Keepalive => Seq::empty(),
            MessageView::Subscribe(sub) => pb::Subscription::payload(sub),
            MessageView::Unsubscribe(sub) => pb::Subscription::payload(sub),
            MessageView::Update(update) => pb::Update::payload(update),
        }
    }

    /// The message of a kind that bytes encode. What comes with a keepalive does
    /// not matter.
    pub open spec fn of_payload(kind: MessageType, bytes: Seq<u8>) -> Option<MessageView> {
        match kind {
            MessageType::Hello => match decoded::<pb::Hello>(bytes) {
                Some(hello) => Some(MessageView::Hello(hello)),
                None => None,
            },
            MessageType::Keepalive => Some(MessageView::Keepalive),
            MessageType::Subscribe => match decoded::<pb::Subscription>(bytes) {
                Some(sub) => Some(MessageView::Subscribe(sub)),
                None => None,
            },
            MessageType::Unsubscribe => match decoded::<pb::Subscription>(bytes) {
                Some(sub) => Some(MessageView::Unsubscribe(sub)),
                None => None,
            },
            MessageType::Update => match decoded::<pb::Update>(bytes) {
                Some(update) => Some(MessageView::Update(update)),
                None => None,
            },
        }
    }

    /// The frame in which the message travels.
    pub open spec fn frame(self) -> Seq<u8> {
        let len = self.payload().len();
        seq![METALBOND_VERSION, (len / 256) as u8, (len % 256) as u8, self.kind().code()]
            + self.payload()
    }
}

impl GeneratedMessage {
    /// Decodes a message of the given kind.
    pub fn from_bytes(msg_type: MessageType, bytes: &[u8]) -> (r: Result<Self, MalformedMessage>)
        ensures
            match MessageView::of_payload(msg_type, bytes@) {
                Some(view) => r matches Ok(message) && message@ == view,
                None => r is Err,
            },
    {
        match msg_type {
            MessageType::Hello => match decode::<pb::Hello>(bytes) {
                Ok(hello) => Ok(GeneratedMessage::Hello(hello)),
                Err(e) => Err(e),
            },
            MessageType::Keepalive => Ok(GeneratedMessage::Keepalive),
            MessageType::Subscribe => match decode::<pb::Subscription>(bytes) {
                Ok(sub) => Ok(GeneratedMessage::Subscribe(sub)),
                Err(e) => Err(e),
            },
            MessageType::Unsubscribe => match decode::<pb::Subscription>(bytes) {
                Ok(sub) => Ok(GeneratedMessage::Unsubscribe(sub)),
                Err(e) => Err(e),
            },
            MessageType::Update => match decode::<pb::Update>(bytes) {
                Ok(update) => Ok(GeneratedMessage::Update(update)),
                Err(e) => Err(e),
            },
        }
    }

    /// The kind of the message and its encoding, which decode to the message
    /// again. Every message has one.
    pub fn into_typed_bytes(self) -> (r: Result<(MessageType, Vec<u8>), FrameError>)
        ensures
            r matches Ok((kind, bytes)) && kind == self@.kind() && bytes@ == self@.payload()
                && MessageView::of_payload(kind, bytes@) == Some(self@),
    {
        let ghost view = self@;
        let (kind, bytes) = match self {
            GeneratedMessage::Hello(msg) => (MessageType::Hello, msg.encode_to_vec()),
            GeneratedMessage::Keepalive => (MessageType::Keepalive, Vec::new()),
            GeneratedMessage::Subscribe(msg) => (MessageType::Subscribe, msg.encode_to_vec()),
            GeneratedMessage::Unsubscribe(msg) => (MessageType::Unsubscribe, msg.encode_to_vec()),
            GeneratedMessage::Update(msg) => (MessageType::Update, msg.encode_to_vec()),
        };
        proof {
            lemma_typed_bytes_roundtrip(view, kind, bytes);
        }
        Ok((kind, bytes))
    }
}

/// The byte buffer of the `bytes` crate.
#[verifier::external_type_specification]
#[verifier::external_body]
pub struct ExBytesMut(bytes::BytesMut);

/// The bytes that a buffer holds.
pub uninterp spec fn buffer_bytes(buffer: bytes::BytesMut) -> Seq<u8>;

/// Calls `bytes::BytesMut::as_ref`, which shows all the bytes of the buffer.
#[verifier::external_body]
fn buffer_slice(buffer: &bytes::BytesMut) -> (bytes: &[u8])
    ensures
        bytes@ == buffer_bytes(*buffer),
{
    buffer.as_ref()
}

/// `bytes::BytesMut::reserve` makes room for more bytes and keeps those that are
/// there. It panics where the new length could not be addressed.
pub assume_specification[ bytes::BytesMut::reserve ](
    buffer: &mut bytes::BytesMut,
    additional: usize,
)
    requires
        buffer_bytes(*old(buffer)).len() + additional <= isize::MAX,
    ensures
        buffer_bytes(*final(buffer)) == buffer_bytes(*old(buffer)),
;

/// `bytes::BytesMut::extend_from_slice` appends bytes. It panics where the new
/// length could not be addressed.
pub assume_specification[ bytes::BytesMut::extend_from_slice ](
    buffer: &mut bytes::BytesMut,
    extend: &[u8],
)
    requires
        buffer_bytes(*old(buffer)).len() + extend@.len() <= isize::MAX,
    ensures
        buffer_bytes(*final(buffer)) == buffer_bytes(*old(buffer)) + extend@,
;

/// `bytes::BytesMut::split_to` takes the first `at` bytes out of the buffer and
/// returns them. It panics where the buffer has fewer.
pub assume_specification[ bytes::BytesMut::split_to ](
    buffer: &mut bytes::BytesMut,
    at: usize,
) -> (front: bytes::BytesMut)
    requires
        at <= buffer_bytes(*old(buffer)).len(),
    ensures
        buffer_bytes(front) == buffer_bytes(*old(buffer)).take(at as int),
        buffer_bytes(*final(buffer)) == buffer_bytes(*old(buffer)).skip(at as int),
;

/// Why a message cannot be framed or a frame cannot be read.
#[derive(Debug, Clone, Copy, PartialEq, Eq, Structural)]
pub enum FrameError {
    /// The payload of the message has this many bytes, more than a frame may have.
    TooLong(usize),
    /// The frame is of another version of the protocol.
    Version(u8),
    /// The byte stands for no kind of message.
    MessageType(u8),
    /// The payload does not encode a message of the frame's kind.
    Malformed,
}

/// What reading a frame off a buffer with these bytes comes to, and what is left
/// in the buffer: nothing is taken until the frame is complete, and a complete
/// frame is taken whether or not it holds a message.
pub open spec fn read_frame(bytes: Seq<u8>) -> (Result<Option<MessageView>, FrameError>, Seq<u8>) {
    if bytes.len() < 4 {
        (Ok(None), bytes)
    } else if bytes[0] != METALBOND_VERSION {
        (Err(FrameError::Version(bytes[0])), bytes)
    } else {
        let end = 4 + bytes[1] * 256 + bytes[2];
        if bytes.len() < end {
            (Ok(None), bytes)
        } else {
            let outcome = match MessageType::of_code(bytes[3]) {
                Err(_) => Err(FrameError::MessageType(bytes[3])),
                Ok(kind) => match MessageView::of_payload(kind, bytes.subrange(4, end)) {
                    Some(view) => Ok(Some(view)),
                    None => Err(FrameError::Malformed),
                },
            };
            (outcome, bytes.skip(end))
        }
    }
}

/// What a result of reading a frame says.
pub open spec fn outcome_view(r: Result<Option<GeneratedMessage>, FrameError>) -> Result<
    Option<MessageView>,
    FrameError,
> {
    match r {
        Ok(Some(message)) => Ok(Some(message@)),
        Ok(None) => Ok(None),
        Err(e) => Err(e),
    }
}

/// Writes messages to a buffer and reads them off it.
#[derive(Debug, Clone, Copy, PartialEq, Eq, Structural)]
pub struct MetalBondCodec {}

impl MetalBondCodec {
    /// Appends the frame of a message. A message whose payload is too long for a
    /// frame is refused, and the buffer stays as it is.
    pub fn encode(&mut self, item: GeneratedMessage, dst: &mut bytes::BytesMut) -> (r: Result<
        (),
        FrameError,
    >)
        requires
            buffer_bytes(*old(dst)).len() + 4 + MAX_MESSAGE_LEN <= isize::MAX,
        ensures
            item@.payload().len() <= MAX_MESSAGE_LEN ==> r is Ok && buffer_bytes(*final(dst))
                == buffer_bytes(*old(dst)) + item@.frame(),
            item@.payload().len() > MAX_MESSAGE_LEN ==> r == Err::<(), FrameError>(
                FrameError::TooLong(item@.payload().len() as usize),
            ) && buffer_bytes(*final(dst)) == buffer_bytes(*old(dst)),
    {
        let ghost view = item@;
        let (msg_type, msg_bytes) = match item.into_typed_bytes() {
            Ok(typed) => typed,
            Err(e) => {
                return Err(e);
            },
        };
        let msg_len: usize = msg_bytes.len();
        if msg_len > MAX_MESSAGE_LEN {
            return Err(FrameError::TooLong(msg_len));
        }
        let ghost before = buffer_bytes(*dst);
        dst.reserve(4 + msg_len);
        let header: [u8; 4] = [
            METALBOND_VERSION,
            (msg_len / 256) as u8,
            (msg_len % 256) as u8,
            msg_type.code(),
        ];
        dst.extend_from_slice(header.as_slice());
        dst.extend_from_slice(msg_bytes.as_slice());
        assert(header@ =~= seq![
            METALBOND_VERSION,
            (msg_len / 256) as u8,
            (msg_len % 256) as u8,
            view.kind().code(),
        ]);
        assert(buffer_bytes(*dst) =~= before + view.frame());
        Ok(())
    }

    /// Takes the next message out of the buffer: `None` while its frame is not
    /// complete, and an error where the frame is of another version or holds no
    /// message.
    pub fn decode(&mut self, src: &mut bytes::BytesMut) -> (r: Result<
        Option<GeneratedMessage>,
        FrameError,
    >)
        ensures
            outcome_view(r) == read_frame(buffer_bytes(*old(src))).0,
            buffer_bytes(*final(src)) == read_frame(buffer_bytes(*old(src))).1,
    {
        let ghost before = buffer_bytes(*src);
        let bytes = buffer_slice(src);
        let available: usize = bytes.len();
        if available < 4 {
            return Ok(None);
        }
        let version: u8 = bytes[0];
        if version != METALBOND_VERSION {
            return Err(FrameError::Version(version));
        }
        let msg_len: usize = bytes[1] as usize * 256 + bytes[2] as usize;
        let msg_type_byte: u8 = bytes[3];
        if available < 4 + msg_len {
            src.reserve(4 + msg_len - available);
            return Ok(None);
        }
        let _header = src.split_to(4);
        let msg_bytes = src.split_to(msg_len);
        assert(buffer_bytes(msg_bytes) =~= before.subrange(4, 4 + msg_len as int));
        assert(buffer_bytes(*src) =~= before.skip(4 + msg_len as int));
        let msg_type = match MessageType::try_from(msg_type_byte) {
            Ok(kind) => kind,
            Err(_) => {
                return Err(FrameError::MessageType(msg_type_byte));
            },
        };
        match GeneratedMessage::from_bytes(msg_type, buffer_slice(&msg_bytes)) {
            Ok(message) => Ok(Some(message)),
            Err(_) => Err(FrameError::Malformed),
        }
    }
}

/// Decoding the payload of a message gives the message back.
pub proof fn lemma_payload_roundtrip(message: MessageView)
    requires
        message.payload().len() <= u64::MAX,
    ensures
        MessageView::of_payload(message.kind(), message.payload()) == Some(message),
{
    match message {
        MessageView::Hello(hello) => pb::lemma_hello_roundtrip(hello),
        MessageView::Keepalive => {},
        MessageView::Subscribe(sub) => pb::lemma_subscription_roundtrip(sub),
        MessageView::Unsubscribe(sub) => pb::lemma_subscription_roundtrip(sub),
        MessageView::Update(update) => pb::lemma_update_roundtrip(update),
    }
}

/// A message is what its kind and its encoding decode to, whatever the message.
pub proof fn lemma_typed_bytes_roundtrip(message: MessageView, kind: MessageType, bytes: Vec<u8>)
    requires
        kind == message.kind(),
        bytes@ == message.payload(),
    ensures
        MessageView::of_payload(kind, bytes@) == Some(message),
{
    assert(bytes.len() <= u64::MAX);
    lemma_payload_roundtrip(message);
}

/// What was written is read back: the frame of a message, with anything behind
/// it, is read as that message and leaves what is behind it.
pub proof fn lemma_frame_roundtrip(message: MessageView, rest: Seq<u8>)
    requires
        message.payload().len() <= MAX_MESSAGE_LEN,
    ensures
        read_frame(message.frame() + rest) == (
            Ok::<Option<MessageView>, FrameError>(Some(message)),
            rest,
        ),
{
    let bytes = message.frame() + rest;
    let len = message.payload().len();
    lemma_payload_roundtrip(message);
    lemma_message_type_codes(message.kind(), 0);
    assert(bytes[1] * 256 + bytes[2] == len);
    assert(bytes.subrange(4, 4 + len as int) =~= message.payload());
    assert(bytes.skip(4 + len as int) =~= rest);
}

/// As long as a frame has not come in full, reading waits for the rest of it and
/// takes nothing.
pub proof fn lemma_partial_frame(message: MessageView, count: int)
    requires
        message.payload().len() <= MAX_MESSAGE_LEN,
        0 <= count < message.frame().len(),
    ensures
        read_frame(message.frame().take(count)) == (
            Ok::<Option<MessageView>, FrameError>(None),
            message.frame().take(count),
        ),
{
}

/// The frames of messages, one after the other.
pub open spec fn stream(messages: Seq<MessageView>) -> Seq<u8>
    decreases messages.len(),
{
    if messages.len() == 0 {
        Seq::empty()
    } else {
        messages[0].frame() + stream(messages.skip(1))
    }
}

/// The messages that are read off a buffer, one after the other, until there is
/// none, and what is then left.
pub open spec fn read_stream(bytes: Seq<u8>) -> (Seq<MessageView>, Seq<u8>)
    decreases bytes.len(),
{
    match read_frame(bytes) {
        (Ok(Some(message)), rest) if rest.len() < bytes.len() => {
            let (messages, left) = read_stream(rest);
            (seq![message] + messages, left)
        },
        _ => (Seq::empty(), bytes),
    }
}

/// Messages are read in the order in which they were written, and nothing is
/// left of their frames.
pub proof fn lemma_stream_roundtrip(messages: Seq<MessageView>)
    requires
        forall|i: int|
            0 <= i < messages.len() ==> (#[trigger] messages[i]).payload().len()
                <= MAX_MESSAGE_LEN,
    ensures
        read_stream(stream(messages)) == (messages, Seq::<u8>::empty()),
    decreases messages.len(),
{
    if messages.len() == 0 {
        assert(messages =~= Seq::empty());
    } else {
        let rest = messages.skip(1);
        assert forall|i: int| 0 <= i < rest.len() implies (#[trigger] rest[i]).payload().len()
            <= MAX_MESSAGE_LEN by {
            assert(rest[i] == messages[i + 1]);
        }
        lemma_stream_roundtrip(rest);
        lemma_frame_roundtrip(messages[0], stream(rest));
        assert(seq![messages[0]] + rest =~= messages);
    }
}

} // verus!
