//! The typed messages of the demonstration services: one tag byte, then
//! little-endian payloads.

use vstd::prelude::*;
use vstd::slice::slice_subrange;

use crate::bytes::{
    get_le, le_bytes, le_value, lemma_le_bytes_len, lemma_le_value_of_bytes, lemma_pow256_widths,
    put_le,
};
use crate::fabric_error::FabError;

verus! {

pub const TAG_PING: u8 = 1;

pub const TAG_OPEN_COUNTER: u8 = 2;

pub const TAG_PONG: u8 = 3;

pub const TAG_COUNTER: u8 = 4;

pub const TAG_INCREMENT: u8 = 5;

pub const TAG_GET: u8 = 6;

pub const TAG_INCREMENTED: u8 = 7;

pub const TAG_VALUE: u8 = 8;

pub const TAG_CTRL_READY_TO_KILL: u8 = 10;

pub const TAG_CTRL_DONE: u8 = 11;

pub const TAG_CTRL_ACK: u8 = 12;

#[derive(Clone, Copy, Debug, PartialEq, Eq, Structural)]
pub enum RootRequest {
    Ping,
    OpenCounter,
}

#[derive(Clone, Copy, Debug, PartialEq, Eq, Structural)]
pub enum RootResponse {
    Pong,
    /// The capability is the first attachment of the reply.
    Counter,
}

#[derive(Clone, Copy, Debug, PartialEq, Eq, Structural)]
pub enum CounterRequest {
    Increment,
    Get,
}

#[derive(Clone, Copy, Debug, PartialEq, Eq, Structural)]
pub enum CounterResponse {
    Incremented(u64),
    Value(u64),
}

#[derive(Clone, Copy, Debug, PartialEq, Eq, Structural)]
pub enum ControlMsg {
    ReadyToKill,
    Done,
}

#[derive(Clone, Copy, Debug, PartialEq, Eq, Structural)]
pub enum ControlAck {
    Ack,
}

impl RootRequest {
    /// The tag of the message.
    pub open spec fn tag(self) -> u8 {
        match self {
            RootRequest::Ping => TAG_PING,
            RootRequest::OpenCounter => TAG_OPEN_COUNTER,
        }
    }
}

impl RootResponse {
    /// The tag of the message.
    pub open spec fn tag(self) -> u8 {
        match self {
            RootResponse::Pong => TAG_PONG,
            RootResponse::Counter => TAG_COUNTER,
        }
    }
}

impl CounterRequest {
    /// The tag of the message.
    pub open spec fn tag(self) -> u8 {
        match self {
            CounterRequest::Increment => TAG_INCREMENT,
            CounterRequest::Get => TAG_GET,
        }
    }
}

impl CounterResponse {
    /// The bytes of the message.
    pub open spec fn bytes(self) -> Seq<u8> {
        match self {
            CounterResponse::Incremented(n) => seq![TAG_INCREMENTED] + le_bytes(n as nat, 8),
            CounterResponse::Value(n) => seq![TAG_VALUE] + le_bytes(n as nat, 8),
        }
    }
}

impl ControlMsg {
    /// The tag of the message.
    pub open spec fn tag(self) -> u8 {
        match self {
            ControlMsg::ReadyToKill => TAG_CTRL_READY_TO_KILL,
            ControlMsg::Done => TAG_CTRL_DONE,
        }
    }
}

/// What reading a message that is one tag comes to: the tag, or the reason
/// why there is none.
pub open spec fn lone_tag(buf: Seq<u8>, trailing: &'static str) -> Result<u8, FabError> {
    if buf.len() == 0 {
        Err(FabError::InvalidMessage("empty payload"))
    } else if buf.len() > 1 {
        Err(FabError::InvalidMessage(trailing))
    } else {
        Ok(buf[0])
    }
}

fn take_lone_tag(buf: &[u8], trailing: &'static str) -> (r: Result<u8, FabError>)
    ensures
        r == lone_tag(buf@, trailing),
{
    if buf.len() == 0 {
        return Err(FabError::InvalidMessage("empty payload"));
    }
    if buf.len() > 1 {
        return Err(FabError::InvalidMessage(trailing));
    }
    Ok(buf[0])
}

fn one_byte(tag: u8) -> (v: Vec<u8>)
    ensures
        v@ == seq![tag],
{
    let mut v: Vec<u8> = Vec::new();
    v.push(tag);
    assert(v@ =~= seq![tag]);
    v
}

pub fn encode_root_request(r: RootRequest) -> (v: Vec<u8>)
    ensures
        v@ == seq![r.tag()],
{
    match r {
        RootRequest::Ping => one_byte(TAG_PING),
        RootRequest::OpenCounter => one_byte(TAG_OPEN_COUNTER),
    }
}

/// What a root request decodes to.
pub open spec fn root_request_of(buf: Seq<u8>) -> Result<RootRequest, FabError> {
    match lone_tag(buf, "trailing bytes in root request") {
        Err(e) => Err(e),
        Ok(t) => if t == TAG_PING {
            Ok(RootRequest::Ping)
        } else if t == TAG_OPEN_COUNTER {
            Ok(RootRequest::OpenCounter)
        } else {
            Err(FabError::InvalidMessage("unknown root request tag"))
        },
    }
}

pub fn decode_root_request(buf: &[u8]) -> (r: Result<RootRequest, FabError>)
    ensures
        r == root_request_of(buf@),
{
    let t: u8 = match take_lone_tag(buf, "trailing bytes in root request") {
        Ok(t) => t,
        Err(e) => {
            return Err(e);
        },
    };
    match t {
        TAG_PING => Ok(RootRequest::Ping),
        TAG_OPEN_COUNTER => Ok(RootRequest::OpenCounter),
        _ => Err(FabError::InvalidMessage("unknown root request tag")),
    }
}

pub fn encode_root_response(r: RootResponse) -> (v: Vec<u8>)
    ensures
        v@ == seq![r.tag()],
{
    match r {
        RootResponse::Pong => one_byte(TAG_PONG),
        RootResponse::Counter => one_byte(TAG_COUNTER),
    }
}

/// What a root response decodes to.
pub open spec fn root_response_of(buf: Seq<u8>) -> Result<RootResponse, FabError> {
    match lone_tag(buf, "trailing bytes in root response") {
        Err(e) => Err(e),
        Ok(t) => if t == TAG_PONG {
            Ok(RootResponse::Pong)
        } else if t == TAG_COUNTER {
            Ok(RootResponse::Counter)
        } else {
            Err(FabError::InvalidMessage("unknown root response tag"))
        },
    }
}

pub fn decode_root_response(buf: &[u8]) -> (r: Result<RootResponse, FabError>)
    ensures
        r == root_response_of(buf@),
{
    let t: u8 = match take_lone_tag(buf, "trailing bytes in root response") {
        Ok(t) => t,
        Err(e) => {
            return Err(e);
        },
    };
    match t {
        TAG_PONG => Ok(RootResponse::Pong),
        TAG_COUNTER => Ok(RootResponse::Counter),
        _ => Err(FabError::InvalidMessage("unknown root response tag")),
    }
}

pub fn encode_counter_request(r: CounterRequest) -> (v: Vec<u8>)
    ensures
        v@ == seq![r.tag()],
{
    match r {
        CounterRequest::Increment => one_byte(TAG_INCREMENT),
        CounterRequest::Get => one_byte(TAG_GET),
    }
}

/// What a counter request decodes to.
pub open spec fn counter_request_of(buf: Seq<u8>) -> Result<CounterRequest, FabError> {
    match lone_tag(buf, "trailing bytes in counter request") {
        Err(e) => Err(e),
        Ok(t) => if t == TAG_INCREMENT {
            Ok(CounterRequest::Increment)
        } else if t == TAG_GET {
            Ok(CounterRequest::Get)
        } else {
            Err(FabError::InvalidMessage("unknown counter request tag"))
        },
    }
}

pub fn decode_counter_request(buf: &[u8]) -> (r: Result<CounterRequest, FabError>)
    ensures
        r == counter_request_of(buf@),
{
    let t: u8 = match take_lone_tag(buf, "trailing bytes in counter request") {
        Ok(t) => t,
        Err(e) => {
            return Err(e);
        },
    };
    match t {
        TAG_INCREMENT => Ok(CounterRequest::Increment),
        TAG_GET => Ok(CounterRequest::Get),
        _ => Err(FabError::InvalidMessage("unknown counter request tag")),
    }
}

pub fn encode_counter_response(r: CounterResponse) -> (v: Vec<u8>)
    ensures
        v@ == r.bytes(),
{
    match r {
        CounterResponse::Incremented(n) => {
            let mut v = one_byte(TAG_INCREMENTED);
            put_le(&mut v, n, 8);
            v
        },
        CounterResponse::Value(n) => {
            let mut v = one_byte(TAG_VALUE);
            put_le(&mut v, n, 8);
            v
        },
    }
}

/// What a counter response decodes to.
pub open spec fn counter_response_of(buf: Seq<u8>) -> Result<CounterResponse, FabError> {
    if buf.len() == 0 {
        Err(FabError::InvalidMessage("empty payload"))
    } else if buf.len() < 9 {
        Err(FabError::InvalidMessage("short u64"))
    } else if buf.len() > 9 {
        Err(FabError::InvalidMessage("trailing bytes in counter response"))
    } else {
        let n = le_value(buf.subrange(1, 9)) as u64;
        if buf[0] == TAG_INCREMENTED {
            Ok(CounterResponse::Incremented(n))
        } else if buf[0] == TAG_VALUE {
            Ok(CounterResponse::Value(n))
        } else {
            Err(FabError::InvalidMessage("unknown counter response tag"))
        }
    }
}

pub fn decode_counter_response(buf: &[u8]) -> (r: Result<CounterResponse, FabError>)
    ensures
        r == counter_response_of(buf@),
{
    if buf.len() == 0 {
        return Err(FabError::InvalidMessage("empty payload"));
    }
    if buf.len() < 9 {
        return Err(FabError::InvalidMessage("short u64"));
    }
    if buf.len() > 9 {
        return Err(FabError::InvalidMessage("trailing bytes in counter response"));
    }
    let n: u64 = get_le(slice_subrange(buf, 1, 9));
    match buf[0] {
        TAG_INCREMENTED => Ok(CounterResponse::Incremented(n)),
        TAG_VALUE => Ok(CounterResponse::Value(n)),
        _ => Err(FabError::InvalidMessage("unknown counter response tag")),
    }
}

pub fn encode_control(m: ControlMsg) -> (v: Vec<u8>)
    ensures
        v@ == seq![m.tag()],
{
    match m {
        ControlMsg::ReadyToKill => one_byte(TAG_CTRL_READY_TO_KILL),
        ControlMsg::Done => one_byte(TAG_CTRL_DONE),
    }
}

/// What a control message decodes to.
pub open spec fn control_of(buf: Seq<u8>) -> Result<ControlMsg, FabError> {
    match lone_tag(buf, "trailing bytes in control msg") {
        Err(e) => Err(e),
        Ok(t) => if t == TAG_CTRL_READY_TO_KILL {
            Ok(ControlMsg::ReadyToKill)
        } else if t == TAG_CTRL_DONE {
            Ok(ControlMsg::Done)
        } else {
            Err(FabError::InvalidMessage("unknown control tag"))
        },
    }
}

pub fn decode_control(buf: &[u8]) -> (r: Result<ControlMsg, FabError>)
    ensures
        r == control_of(buf@),
{
    let t: u8 = match take_lone_tag(buf, "trailing bytes in control msg") {
        Ok(t) => t,
        Err(e) => {
            return Err(e);
        },
    };
    match t {
        TAG_CTRL_READY_TO_KILL => Ok(ControlMsg::ReadyToKill),
        TAG_CTRL_DONE => Ok(ControlMsg::Done),
        _ => Err(FabError::InvalidMessage("unknown control tag")),
    }
}

pub fn encode_control_ack(a: ControlAck) -> (v: Vec<u8>)
    ensures
        v@ == seq![TAG_CTRL_ACK],
{
    match a {
        ControlAck::Ack => one_byte(TAG_CTRL_ACK),
    }
}

/// What a control acknowledgement decodes to.
pub open spec fn control_ack_of(buf: Seq<u8>) -> Result<ControlAck, FabError> {
    match lone_tag(buf, "trailing bytes in control ack") {
        Err(e) => Err(e),
        Ok(t) => if t == TAG_CTRL_ACK {
            Ok(ControlAck::Ack)
        } else {
            Err(FabError::InvalidMessage("unknown control ack tag"))
        },
    }
}

pub fn decode_control_ack(buf: &[u8]) -> (r: Result<ControlAck, FabError>)
    ensures
        r == control_ack_of(buf@),
{
    let t: u8 = match take_lone_tag(buf, "trailing bytes in control ack") {
        Ok(t) => t,
        Err(e) => {
            return Err(e);
        },
    };
    match t {
        TAG_CTRL_ACK => Ok(ControlAck::Ack),
        _ => Err(FabError::InvalidMessage("unknown control ack tag")),
    }
}

// ---------------------------------------------------------------------- laws --

/// Every message decodes to itself.
pub proof fn law_messages_round_trip(
    a: RootRequest,
    b: RootResponse,
    c: CounterRequest,
    d: CounterResponse,
    e: ControlMsg,
)
    ensures
        root_request_of(seq![a.tag()]) == Ok::<RootRequest, FabError>(a),
        root_response_of(seq![b.tag()]) == Ok::<RootResponse, FabError>(b),
        counter_request_of(seq![c.tag()]) == Ok::<CounterRequest, FabError>(c),
        counter_response_of(d.bytes()) == Ok::<CounterResponse, FabError>(d),
        control_of(seq![e.tag()]) == Ok::<ControlMsg, FabError>(e),
        control_ack_of(seq![TAG_CTRL_ACK]) == Ok::<ControlAck, FabError>(ControlAck::Ack),
{
    let n = match d {
        CounterResponse::Incremented(n) => n,
        CounterResponse::Value(n) => n,
    };
    lemma_pow256_widths();
    lemma_le_bytes_len(n as nat, 8);
    lemma_le_value_of_bytes(n as nat, 8);
    assert(d.bytes().subrange(1, 9) =~= le_bytes(n as nat, 8));
}

/// Any other bytes are an invalid message, and nothing worse.
pub proof fn law_garbage_is_invalid(buf: Seq<u8>)
    ensures
        root_request_of(buf) matches Err(e) ==> e is InvalidMessage,
        root_response_of(buf) matches Err(e) ==> e is InvalidMessage,
        counter_request_of(buf) matches Err(e) ==> e is InvalidMessage,
        counter_response_of(buf) matches Err(e) ==> e is InvalidMessage,
        control_of(buf) matches Err(e) ==> e is InvalidMessage,
        control_ack_of(buf) matches Err(e) ==> e is InvalidMessage,
{
}

} // verus!
