//! The probe engine: one attempt to get the status of one target. The caller
//! owns the socket; each thing that happens on it is handed to
//! [`probe_step`], which says what to do next.

use vstd::prelude::*;
use vstd::string::*;
use vstd::utf8::*;
use crate::blacklist::Blacklist;
use crate::error::ErrorKind;
use crate::json::json_text_value;
use crate::packets::{
    check_frame_length, create_handshake_packet, create_status_request, decode_status_response,
    frame_length, framed, handshake_payload, status_request_payload, status_response_text,
    NEXT_STATE_STATUS, PROTOCOL_VERSION,
};
use crate::status::{parse_server_json, server_fields, stripped, ParsedServerJson};
use crate::store::StoreOutcome;
use crate::string::lemma_ascii_utf16_len;
use crate::text::{dotted_text, format_ipv4, format_target, lemma_dotted_text_short, target_text};
use crate::varint::{continues, decoded_int, VarIntReader, VarIntStep};

verus! {

/// Why a probe found no server. None of these stops the worker.
#[derive(Debug, Clone, Copy, PartialEq, Eq, Structural)]
pub enum ProbeError {
    ConnectTimeout,
    ConnectRefused,
    WriteFailed,
    ShortRead,
    MalformedVarInt,
    FrameTooLarge,
    InvalidUtf8,
    JsonParseError,
    /// The database failed before the row of the server was written.
    StoreFailed,
}

/// The classes of errors, by which they are logged.
#[derive(Debug, Clone, Copy, PartialEq, Eq, Structural)]
pub enum ErrorClass {
    /// The connection did not come about.
    ConnectError,
    /// The socket failed in the middle of the exchange.
    IoError,
    /// The server does not speak the protocol.
    ProtocolError,
    /// The status is not JSON.
    JsonError,
    /// A statement failed; the record is dropped.
    DbTransientError,
}

/// How loud an error is logged.
#[derive(Debug, Clone, Copy, PartialEq, Eq, Structural)]
pub enum LogLevel {
    Info,
    Warn,
}

impl ProbeError {
    /// The class of the error.
    pub open spec fn class_of(self) -> ErrorClass {
        match self {
            ProbeError::ConnectTimeout | ProbeError::ConnectRefused => ErrorClass::ConnectError,
            ProbeError::WriteFailed | ProbeError::ShortRead => ErrorClass::IoError,
            ProbeError::MalformedVarInt | ProbeError::FrameTooLarge | ProbeError::InvalidUtf8 =>
                ErrorClass::ProtocolError,
            ProbeError::JsonParseError => ErrorClass::JsonError,
            ProbeError::StoreFailed => ErrorClass::DbTransientError,
        }
    }

    /// The class of the error.
    pub fn class(self) -> (r: ErrorClass)
        ensures
            r == self.class_of(),
    {
        match self {
            ProbeError::ConnectTimeout | ProbeError::ConnectRefused => ErrorClass::ConnectError,
            ProbeError::WriteFailed | ProbeError::ShortRead => ErrorClass::IoError,
            ProbeError::MalformedVarInt | ProbeError::FrameTooLarge | ProbeError::InvalidUtf8 =>
                ErrorClass::ProtocolError,
            ProbeError::JsonParseError => ErrorClass::JsonError,
            ProbeError::StoreFailed => ErrorClass::DbTransientError,
        }
    }
}

impl ErrorClass {
    /// How loud the class is logged: a dead address and a broken socket are
    /// nothing to warn about, what a server or the database gets wrong is.
    pub fn level(self) -> (r: LogLevel)
        ensures
            r == if self is ConnectError || self is IoError {
                LogLevel::Info
            } else {
                LogLevel::Warn
            },
    {
        match self {
            ErrorClass::ConnectError | ErrorClass::IoError => LogLevel::Info,
            _ => LogLevel::Warn,
        }
    }
}

/// How a probe ended.
#[derive(Debug, Clone, Copy, PartialEq, Eq, Structural)]
pub enum ProbeResult {
    /// A server answered and is stored. `fan_out` tells whether its
    /// neighbours are to be probed.
    Found { is_new_server: bool, fan_out: bool },
    /// The address is blacklisted: nothing was sent.
    Blacklisted,
    /// No server was found.
    Failed(ProbeError),
}

/// What the probe waits for.
#[derive(Debug, Clone, Copy, PartialEq, Eq, Structural)]
pub enum ProbeStage {
    Connecting,
    SendingHandshake,
    SendingRequest,
    ReadingLength,
    ReadingFrame,
    Storing,
    Finished,
}

/// What happened on the socket or in the store.
#[derive(Debug, PartialEq, Eq)]
pub enum ProbeEvent {
    /// The connection stands.
    Connected,
    /// The connection did not come about in time.
    TimedOut,
    /// The connection was refused or failed otherwise.
    Refused,
    /// The bytes are written.
    Sent,
    /// The bytes could not be written.
    SendFailed,
    /// One byte came in.
    Byte(u8),
    /// The stream ended or failed before the bytes asked for were there.
    ReadFailed,
    /// The bytes of the frame came in.
    Frame(Vec<u8>),
    /// The store is done with the status.
    Stored(StoreOutcome),
}

/// What to do next.
#[derive(Debug, PartialEq, Eq)]
pub enum ProbeAction {
    /// Connect to the target within the time allowed for a connection.
    Connect { ip: u32, port: u16 },
    /// Write these bytes.
    Send(Vec<u8>),
    /// Read one byte.
    ReadByte,
    /// Read exactly this many bytes.
    ReadFrame(usize),
    /// Hand the status of the server at `addr` to the store.
    Store { addr: String, status: ParsedServerJson },
    /// Stop.
    Finish(ProbeResult),
}

/// The state of a probe between two events.
pub struct ProbeState {
    pub stage: ProbeStage,
    pub ip: u32,
    pub port: u16,
    /// Whether a hit makes the scanner probe the neighbours.
    pub fan_out: bool,
    /// The bytes of the length of the response that have come in.
    pub length: VarIntReader,
    /// The length of the response, once it is known.
    pub frame_len: usize,
}

impl ProbeState {
    /// The reader of the length is in order.
    pub open spec fn wf(&self) -> bool {
        self.length.wf()
    }
}

/// The error of the probe that an error of the codec stands for.
pub open spec fn probe_error_of(e: ErrorKind) -> ProbeError {
    match e {
        ErrorKind::MalformedVarInt => ProbeError::MalformedVarInt,
        ErrorKind::UnexpectedEof => ProbeError::ShortRead,
        ErrorKind::InvalidData => ProbeError::InvalidUtf8,
        ErrorKind::StringTooLong => ProbeError::WriteFailed,
        ErrorKind::FrameTooLarge => ProbeError::FrameTooLarge,
    }
}

fn probe_error(e: ErrorKind) -> (r: ProbeError)
    ensures
        r == probe_error_of(e),
{
    match e {
        ErrorKind::MalformedVarInt => ProbeError::MalformedVarInt,
        ErrorKind::UnexpectedEof => ProbeError::ShortRead,
        ErrorKind::InvalidData => ProbeError::InvalidUtf8,
        ErrorKind::StringTooLong => ProbeError::WriteFailed,
        ErrorKind::FrameTooLarge => ProbeError::FrameTooLarge,
    }
}

/// Starts the probe of a target: a blacklisted address is passed over, any
/// other is connected to. `fan_out` says whether a hit is to make the scanner
/// probe the neighbours.
pub fn probe_start(ip: u32, port: u16, fan_out: bool, blacklist: &Blacklist) -> (r: (
    ProbeState,
    ProbeAction,
))
    requires
        blacklist.wf(),
    ensures
        r.0.wf(),
        r.0.ip == ip,
        r.0.port == port,
        r.0.fan_out == fan_out,
        r.0.length@ == Seq::<u8>::empty(),
        blacklist.covers(ip) ==> r.0.stage == ProbeStage::Finished && r.1 == ProbeAction::Finish(
            ProbeResult::Blacklisted,
        ),
        !blacklist.covers(ip) ==> r.0.stage == ProbeStage::Connecting && r.1
            == (ProbeAction::Connect { ip, port }),
{
    let listed = blacklist.contains(ip);
    let state = ProbeState {
        stage: if listed {
            ProbeStage::Finished
        } else {
            ProbeStage::Connecting
        },
        ip,
        port,
        fan_out,
        length: VarIntReader::new(),
        frame_len: 0,
    };
    if listed {
        (state, ProbeAction::Finish(ProbeResult::Blacklisted))
    } else {
        (state, ProbeAction::Connect { ip, port })
    }
}

/// Whether the probe stops here with the error `e`.
pub open spec fn fails_with(post: ProbeState, action: ProbeAction, e: ProbeError) -> bool {
    &&& post.stage == ProbeStage::Finished
    &&& action == ProbeAction::Finish(ProbeResult::Failed(e))
}

/// The step of the probe: from the state `pre` and the event `event` to the
/// state `post` and the request `action`.
///
/// The probe connects, writes the handshake and then the status request,
/// reads the length of the response byte by byte, holds it against the
/// largest frame, reads the frame, takes the text out of it, parses the
/// status and hands it to the store. Whatever goes wrong ends the probe with
/// the error of its kind.
pub open spec fn probe_transition(
    pre: ProbeState,
    event: ProbeEvent,
    post: ProbeState,
    action: ProbeAction,
) -> bool {
    &&& post.ip == pre.ip
    &&& post.port == pre.port
    &&& post.fan_out == pre.fan_out
    &&& match pre.stage {
        ProbeStage::Connecting => match event {
            ProbeEvent::Connected => {
                &&& post.stage == ProbeStage::SendingHandshake
                &&& action matches ProbeAction::Send(bytes)
                &&& bytes@ == framed(
                    handshake_payload(757, dotted_text(pre.ip), pre.port, 1),
                )
            },
            ProbeEvent::TimedOut => fails_with(post, action, ProbeError::ConnectTimeout),
            _ => fails_with(post, action, ProbeError::ConnectRefused),
        },
        ProbeStage::SendingHandshake => match event {
            ProbeEvent::Sent => {
                &&& post.stage == ProbeStage::SendingRequest
                &&& action matches ProbeAction::Send(bytes)
                &&& bytes@ == framed(status_request_payload())
            },
            _ => fails_with(post, action, ProbeError::WriteFailed),
        },
        ProbeStage::SendingRequest => match event {
            ProbeEvent::Sent => {
                &&& post.stage == ProbeStage::ReadingLength
                &&& post.length@ == Seq::<u8>::empty()
                &&& action == ProbeAction::ReadByte
            },
            _ => fails_with(post, action, ProbeError::WriteFailed),
        },
        ProbeStage::ReadingLength => match event {
            ProbeEvent::Byte(b) => if continues(b) {
                if pre.length@.len() == 4 {
                    fails_with(post, action, ProbeError::MalformedVarInt)
                } else {
                    &&& post.stage == ProbeStage::ReadingLength
                    &&& post.length@ == pre.length@.push(b)
                    &&& action == ProbeAction::ReadByte
                }
            } else {
                match frame_length(decoded_int(pre.length@.push(b))) {
                    Ok(n) => {
                        &&& post.stage == ProbeStage::ReadingFrame
                        &&& post.frame_len == n
                        &&& action == ProbeAction::ReadFrame(n)
                    },
                    Err(e) => fails_with(post, action, probe_error_of(e)),
                }
            },
            _ => fails_with(post, action, ProbeError::ShortRead),
        },
        ProbeStage::ReadingFrame => match event {
            ProbeEvent::Frame(frame) => if frame@.len() != pre.frame_len {
                fails_with(post, action, ProbeError::ShortRead)
            } else {
                match status_response_text(frame@) {
                    Err(e) => fails_with(post, action, probe_error_of(e)),
                    Ok(text) => match json_text_value(stripped(encode_utf8(text))) {
                        None => fails_with(post, action, ProbeError::JsonParseError),
                        Some(value) => {
                            &&& post.stage == ProbeStage::Storing
                            &&& action matches ProbeAction::Store { addr, status }
                            &&& addr@ == target_text(pre.ip, pre.port)
                            &&& status@ == server_fields(value)
                        },
                    },
                }
            },
            _ => fails_with(post, action, ProbeError::ShortRead),
        },
        ProbeStage::Storing => match event {
            ProbeEvent::Stored(StoreOutcome::Stored { server_id, is_new_server }) => {
                &&& post.stage == ProbeStage::Finished
                &&& action == ProbeAction::Finish(
                    ProbeResult::Found { is_new_server, fan_out: pre.fan_out },
                )
            },
            _ => fails_with(post, action, ProbeError::StoreFailed),
        },
        ProbeStage::Finished => fails_with(post, action, ProbeError::ShortRead),
    }
}

fn fail(state: ProbeState, e: ProbeError) -> (r: (ProbeState, ProbeAction))
    requires
        state.wf(),
    ensures
        r.0.wf(),
        r.0.ip == state.ip,
        r.0.port == state.port,
        r.0.fan_out == state.fan_out,
        fails_with(r.0, r.1, e),
{
    let mut state = state;
    state.stage = ProbeStage::Finished;
    (state, ProbeAction::Finish(ProbeResult::Failed(e)))
}

fn go_on(state: ProbeState, stage: ProbeStage, action: ProbeAction) -> (r: (
    ProbeState,
    ProbeAction,
))
    requires
        state.wf(),
    ensures
        r.0.wf(),
        r.0.ip == state.ip,
        r.0.port == state.port,
        r.0.fan_out == state.fan_out,
        r.0.length@ == state.length@,
        r.0.frame_len == state.frame_len,
        r.0.stage == stage,
        r.1 == action,
{
    let mut state = state;
    state.stage = stage;
    (state, action)
}

/// Takes an event and says what to do next.
pub fn probe_step(state: ProbeState, event: ProbeEvent) -> (r: (ProbeState, ProbeAction))
    requires
        state.wf(),
    ensures
        r.0.wf(),
        probe_transition(state, event, r.0, r.1),
{
    match state.stage {
        ProbeStage::Connecting => match event {
            ProbeEvent::Connected => {
                let host = format_ipv4(state.ip);
                proof {
                    lemma_dotted_text_short(state.ip);
                    lemma_ascii_utf16_len(dotted_text(state.ip));
                }
                match create_handshake_packet(
                    PROTOCOL_VERSION,
                    host.as_str(),
                    state.port,
                    NEXT_STATE_STATUS,
                ) {
                    Ok(bytes) => go_on(state, ProbeStage::SendingHandshake, ProbeAction::Send(bytes)),
                    Err(_) => fail(state, ProbeError::WriteFailed),
                }
            },
            ProbeEvent::TimedOut => fail(state, ProbeError::ConnectTimeout),
            _ => fail(state, ProbeError::ConnectRefused),
        },
        ProbeStage::SendingHandshake => match event {
            ProbeEvent::Sent => {
                let bytes = create_status_request();
                go_on(state, ProbeStage::SendingRequest, ProbeAction::Send(bytes))
            },
            _ => fail(state, ProbeError::WriteFailed),
        },
        ProbeStage::SendingRequest => match event {
            ProbeEvent::Sent => {
                let mut state = state;
                state.length = VarIntReader::new();
                go_on(state, ProbeStage::ReadingLength, ProbeAction::ReadByte)
            },
            _ => fail(state, ProbeError::WriteFailed),
        },
        ProbeStage::ReadingLength => match event {
            ProbeEvent::Byte(b) => {
                let ProbeState { stage, ip, port, fan_out, length, frame_len } = state;
                match length.feed(b) {
                    VarIntStep::NeedMore(next) => {
                        let state = ProbeState {
                            stage: ProbeStage::ReadingLength,
                            ip,
                            port,
                            fan_out,
                            length: next,
                            frame_len,
                        };
                        (state, ProbeAction::ReadByte)
                    },
                    VarIntStep::Done(announced) => {
                        let state = ProbeState {
                            stage,
                            ip,
                            port,
                            fan_out,
                            length: VarIntReader::new(),
                            frame_len,
                        };
                        match check_frame_length(announced) {
                            Ok(n) => {
                                let mut state = state;
                                state.frame_len = n;
                                state.stage = ProbeStage::ReadingFrame;
                                (state, ProbeAction::ReadFrame(n))
                            },
                            Err(e) => fail(state, probe_error(e)),
                        }
                    },
                    VarIntStep::Malformed => {
                        let state = ProbeState {
                            stage,
                            ip,
                            port,
                            fan_out,
                            length: VarIntReader::new(),
                            frame_len,
                        };
                        fail(state, ProbeError::MalformedVarInt)
                    },
                }
            },
            _ => fail(state, ProbeError::ShortRead),
        },
        ProbeStage::ReadingFrame => match event {
            ProbeEvent::Frame(frame) => {
                if frame.len() != state.frame_len {
                    return fail(state, ProbeError::ShortRead);
                }
                let text = match decode_status_response(frame.as_slice()) {
                    Ok(t) => t,
                    Err(e) => {
                        return fail(state, probe_error(e));
                    },
                };
                match parse_server_json(text.as_str()) {
                    Ok(status) => {
                        let addr = format_target(state.ip, state.port);
                        go_on(state, ProbeStage::Storing, ProbeAction::Store { addr, status })
                    },
                    Err(_) => fail(state, ProbeError::JsonParseError),
                }
            },
            _ => fail(state, ProbeError::ShortRead),
        },
        ProbeStage::Storing => match event {
            ProbeEvent::Stored(StoreOutcome::Stored { server_id, is_new_server }) => {
                let fan_out = state.fan_out;
                go_on(
                    state,
                    ProbeStage::Finished,
                    ProbeAction::Finish(ProbeResult::Found { is_new_server, fan_out }),
                )
            },
            _ => fail(state, ProbeError::StoreFailed),
        },
        ProbeStage::Finished => fail(state, ProbeError::ShortRead),
    }
}

/// A probe reports a hit only when the store has written the row, and asks
/// for a fan-out only when it was started with leave to: a probe started
/// from a fan-out never starts another.
pub proof fn lemma_fan_out_needs_leave(
    pre: ProbeState,
    event: ProbeEvent,
    post: ProbeState,
    action: ProbeAction,
)
    requires
        probe_transition(pre, event, post, action),
    ensures
        post.fan_out == pre.fan_out,
        action matches ProbeAction::Finish(ProbeResult::Found { is_new_server, fan_out }) ==> {
            &&& fan_out == pre.fan_out
            &&& pre.stage is Storing
            &&& event matches ProbeEvent::Stored(StoreOutcome::Stored { server_id, is_new_server: n })
            &&& n == is_new_server
        },
        action is Finish <==> post.stage is Finished,
{
}

} // verus!
