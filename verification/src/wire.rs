//! The data carried on the wire: the outer envelope and the two inner
//! payloads, together with their mathematical views.

use vstd::prelude::*;

verus! {

/// The tag of a wire envelope.
#[derive(Clone, Copy, Debug, PartialEq, Eq, Structural)]
pub enum MsgTypes {
    Users,
    Register,
    Message,
    Typing,
}

/// The outer wire unit. Exactly one of the two payload shapes is populated,
/// according to the tag: `Users` carries `data_array`, the other tags carry
/// `data`. `wf` states that invariant.
#[derive(Debug)]
pub struct WebSocketMessage {
    pub message_type: MsgTypes,
    pub data_array: Option<Vec<String>>,
    pub data: Option<String>,
}

/// Mathematical view of an envelope.
#[verifier::ext_equal]
pub ghost struct EnvelopeV {
    pub kind: MsgTypes,
    pub data_array: Option<Seq<Seq<char>>>,
    pub data: Option<Seq<char>>,
}

impl View for WebSocketMessage {
    type V = EnvelopeV;

    open spec fn view(&self) -> EnvelopeV {
        EnvelopeV {
            kind: self.message_type,
            data_array: self.data_array.deep_view(),
            data: self.data.deep_view(),
        }
    }
}

/// The payload-shape invariant of an envelope: the tag decides which of the
/// two payload fields is present.
pub open spec fn env_wf(e: EnvelopeV) -> bool {
    match e.kind {
        MsgTypes::Users => e.data_array is Some && e.data is None,
        _ => e.data_array is None && e.data is Some,
    }
}

impl WebSocketMessage {
    pub open spec fn wf(&self) -> bool {
        env_wf(self@)
    }
}

/// Inner payload of a `Message` envelope: one transcript entry.
#[derive(Debug)]
pub struct MessageData {
    pub from: String,
    pub message: String,
    pub timestamp: Option<String>,
}

/// Mathematical view of a transcript entry.
#[verifier::ext_equal]
pub ghost struct MessageV {
    pub from: Seq<char>,
    pub message: Seq<char>,
    pub timestamp: Option<Seq<char>>,
}

impl View for MessageData {
    type V = MessageV;

    open spec fn view(&self) -> MessageV {
        MessageV { from: self.from@, message: self.message@, timestamp: self.timestamp.deep_view() }
    }
}

impl DeepView for MessageData {
    type V = MessageV;

    open spec fn deep_view(&self) -> MessageV {
        self.view()
    }
}

/// Inner payload of a `Typing` envelope: one user's typing signal.
#[derive(Debug)]
pub struct TypingStatus {
    pub username: String,
    pub is_typing: bool,
}

/// Mathematical view of a typing signal.
#[verifier::ext_equal]
pub ghost struct TypingV {
    pub username: Seq<char>,
    pub is_typing: bool,
}

impl View for TypingStatus {
    type V = TypingV;

    open spec fn view(&self) -> TypingV {
        TypingV { username: self.username@, is_typing: self.is_typing }
    }
}

/// Why a piece of wire text was rejected.
#[derive(Clone, Copy, Debug, PartialEq, Eq, Structural)]
pub enum WireError {
    /// The text is not a structurally valid envelope.
    MalformedEnvelope,
    /// The envelope's string payload is not a structurally valid inner payload.
    MalformedPayload,
}

} // verus!
