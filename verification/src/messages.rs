//! The wire codec: every datagram of the system, framed and parsed
//! bit-exactly.
//!
//! A datagram's first byte names its kind; the payload layout is fixed per
//! kind, with multi-byte fields big-endian.  Each message type carries a
//! `spec_bytes` function giving its whole frame, `as_bytes` is proved to
//! produce exactly that frame, `from_bytes` is proved to recover the fields
//! from the payload, and a round-trip lemma ties the two together.

use crate::bytes::u32_be_bytes;
use crate::bytes::u32_of_be_bytes;
use crate::bytes::lemma_u32_be_round_trip;
use crate::bytes::push_u32_be;
use crate::bytes::read_u32_be;
use crate::errors::ParseError;
use crate::grade::Grade;
use crate::grade::spec_byte_grade;
use crate::grade::spec_grade_byte;
use crate::icecream::Bucket;
use crate::icecream::IceCream;
use crate::icecream::spec_byte_flavour;
use crate::icecream::spec_flavour_byte;
use vstd::prelude::*;

verus! {

/// Every datagram kind, numbered 0 to 19 in declaration order; the number is
/// the frame's first byte.
#[derive(Clone, Copy, Debug, PartialEq, Eq, Structural)]
pub enum Messages {
    Handshake,
    Token,
    Ack,
    Order,
    KeepAlive,
    BullyElection,
    BullyOk,
    Coordinator,
    OrderResult,
    Alive,
    NewLeader,
    RobotDead,
    KeepAliveFromResolver,
    RobotOrder,
    Prepare,
    OrderRequest,
    RobotAvailable,
    RobotWithOrder,
    GatewayResponse,
    Init,
}

impl Messages {
    /// The kind byte of this datagram kind.
    pub open spec fn spec_as_u8(self) -> u8 {
        match self {
            Messages::Handshake => 0,
            Messages::Token => 1,
            Messages::Ack => 2,
            Messages::Order => 3,
            Messages::KeepAlive => 4,
            Messages::BullyElection => 5,
            Messages::BullyOk => 6,
            Messages::Coordinator => 7,
            Messages::OrderResult => 8,
            Messages::Alive => 9,
            Messages::NewLeader => 10,
            Messages::RobotDead => 11,
            Messages::KeepAliveFromResolver => 12,
            Messages::RobotOrder => 13,
            Messages::Prepare => 14,
            Messages::OrderRequest => 15,
            Messages::RobotAvailable => 16,
            Messages::RobotWithOrder => 17,
            Messages::GatewayResponse => 18,
            Messages::Init => 19,
        }
    }

    /// The kind a kind byte names; meaningful only for bytes 0 to 19.
    pub open spec fn spec_from_u8(b: u8) -> Messages {
        if b == 0 {
            Messages::Handshake
        } else if b == 1 {
            Messages::Token
        } else if b == 2 {
            Messages::Ack
        } else if b == 3 {
            Messages::Order
        } else if b == 4 {
            Messages::KeepAlive
        } else if b == 5 {
            Messages::BullyElection
        } else if b == 6 {
            Messages::BullyOk
        } else if b == 7 {
            Messages::Coordinator
        } else if b == 8 {
            Messages::OrderResult
        } else if b == 9 {
            Messages::Alive
        } else if b == 10 {
            Messages::NewLeader
        } else if b == 11 {
            Messages::RobotDead
        } else if b == 12 {
            Messages::KeepAliveFromResolver
        } else if b == 13 {
            Messages::RobotOrder
        } else if b == 14 {
            Messages::Prepare
        } else if b == 15 {
            Messages::OrderRequest
        } else if b == 16 {
            Messages::RobotAvailable
        } else if b == 17 {
            Messages::RobotWithOrder
        } else if b == 18 {
            Messages::GatewayResponse
        } else {
            Messages::Init
        }
    }

    /// The kind byte of this datagram kind.
    pub fn as_u8(self) -> (b: u8)
        ensures
            b == self.spec_as_u8(),
    {
        match self {
            Messages::Handshake => 0,
            Messages::Token => 1,
            Messages::Ack => 2,
            Messages::Order => 3,
            Messages::KeepAlive => 4,
            Messages::BullyElection => 5,
            Messages::BullyOk => 6,
            Messages::Coordinator => 7,
            Messages::OrderResult => 8,
            Messages::Alive => 9,
            Messages::NewLeader => 10,
            Messages::RobotDead => 11,
            Messages::KeepAliveFromResolver => 12,
            Messages::RobotOrder => 13,
            Messages::Prepare => 14,
            Messages::OrderRequest => 15,
            Messages::RobotAvailable => 16,
            Messages::RobotWithOrder => 17,
            Messages::GatewayResponse => 18,
            Messages::Init => 19,
        }
    }

    /// Decodes a kind byte: bytes 0 to 19 name a kind, all others are
    /// rejected.
    pub fn try_from(value: u8) -> (r: Result<Messages, ParseError>)
        ensures
            value <= 19 ==> r == Ok::<Messages, ParseError>(Messages::spec_from_u8(value)),
            value > 19 ==> r == Err::<Messages, ParseError>(ParseError::ConversionError),
    {
        match value {
            0 => Ok(Messages::Handshake),
            1 => Ok(Messages::Token),
            2 => Ok(Messages::Ack),
            3 => Ok(Messages::Order),
            4 => Ok(Messages::KeepAlive),
            5 => Ok(Messages::BullyElection),
            6 => Ok(Messages::BullyOk),
            7 => Ok(Messages::Coordinator),
            8 => Ok(Messages::OrderResult),
            9 => Ok(Messages::Alive),
            10 => Ok(Messages::NewLeader),
            11 => Ok(Messages::RobotDead),
            12 => Ok(Messages::KeepAliveFromResolver),
            13 => Ok(Messages::RobotOrder),
            14 => Ok(Messages::Prepare),
            15 => Ok(Messages::OrderRequest),
            16 => Ok(Messages::RobotAvailable),
            17 => Ok(Messages::RobotWithOrder),
            18 => Ok(Messages::GatewayResponse),
            19 => Ok(Messages::Init),
            _ => Err(ParseError::ConversionError),
        }
    }
}

/// Encoding a kind and decoding the byte gives the kind back.
pub proof fn lemma_kind_byte_round_trip(m: Messages)
    ensures
        Messages::spec_from_u8(m.spec_as_u8()) == m,
        m.spec_as_u8() <= 19,
{
}

/// A ring-repair notice: `owner` is the robot that last spliced the ring,
/// `ids` the ring positions gathered so far.  A robot that finds its own id
/// in the list stops the round.
pub struct Handshake {
    pub owner: u8,
    pub ids: Vec<u8>,
}

impl Handshake {
    /// The frame: the kind byte, the owner, the id count, the ids, and a
    /// closing newline byte.
    pub open spec fn spec_bytes(self) -> Seq<u8> {
        seq![Messages::Handshake.spec_as_u8(), self.owner, self.ids@.len() as u8] + self.ids@
            + seq![10u8]
    }

    pub fn new(owner: u8, ids: Vec<u8>) -> (m: Handshake)
        ensures
            m.owner == owner,
            m.ids == ids,
    {
        Handshake { owner, ids }
    }

    /// Frames the message.  The id list must fit its one-byte count field.
    pub fn as_bytes(self) -> (buf: Vec<u8>)
        requires
            self.ids@.len() <= 255,
        ensures
            buf@ == self.spec_bytes(),
    {
        let mut buf: Vec<u8> = Vec::new();
        buf.push(Messages::Handshake.as_u8());
        buf.push(self.owner);
        buf.push(self.ids.len() as u8);
        let ghost prefix = buf@;
        let mut i: usize = 0;
        while i < self.ids.len()
            invariant
                i <= self.ids@.len(),
                buf@ == prefix + self.ids@.take(i as int),
            decreases self.ids@.len() - i,
        {
            buf.push(self.ids[i]);
            proof {
                assert(self.ids@.take(i + 1) =~= self.ids@.take(i as int) + seq![self.ids@[i as int]]);
            }
            i = i + 1;
        }
        buf.push(10u8);
        proof {
            assert(self.ids@.take(self.ids@.len() as int) =~= self.ids@);
            assert(buf@ =~= self.spec_bytes());
        }
        buf
    }

    /// Parses a payload: the owner, then a count, then that many ids.
    pub fn from_bytes(buffer: &[u8]) -> (m: Handshake)
        requires
            buffer@.len() >= 2,
            buffer@.len() >= 2 + buffer@[1],
        ensures
            m.owner == buffer@[0],
            m.ids@ == buffer@.subrange(2, 2 + buffer@[1] as int),
    {
        let owner = buffer[0];
        let len = buffer[1] as usize;
        let mut ids: Vec<u8> = Vec::new();
        let mut i: usize = 0;
        while i < len
            invariant
                i <= len,
                len == buffer@[1],
                buffer@.len() >= 2 + len,
                ids@ == buffer@.subrange(2, 2 + i as int),
            decreases len - i,
        {
            ids.push(buffer[2 + i]);
            proof {
                assert(buffer@.subrange(2, 2 + (i + 1) as int) =~= buffer@.subrange(2, 2 + i as int)
                    + seq![buffer@[2 + i as int]]);
            }
            i = i + 1;
        }
        Handshake { owner, ids }
    }
}

/// Framing a handshake and parsing the frame's payload gives the fields
/// back.
pub proof fn lemma_handshake_round_trip(m: Handshake)
    requires
        m.ids@.len() <= 255,
    ensures
        ({
            let p = m.spec_bytes().skip(1);
            &&& p.len() >= 2 + p[1]
            &&& p[0] == m.owner
            &&& p.subrange(2, 2 + p[1] as int) == m.ids@
        }),
{
    let p = m.spec_bytes().skip(1);
    assert(p[1] == m.ids@.len() as u8);
    assert(p.subrange(2, 2 + p[1] as int) =~= m.ids@);
}

/// The newly elected leader announces itself to its peers.
pub struct Coordinator {
    pub owner: u8,
}

impl Coordinator {
    /// The frame: the kind byte, then the new leader's id.
    pub open spec fn spec_bytes(self) -> Seq<u8> {
        seq![Messages::Coordinator.spec_as_u8(), self.owner]
    }

    /// The fields a payload carries.
    pub open spec fn spec_parse(payload: Seq<u8>) -> Coordinator
        recommends
            payload.len() >= 1,
    {
        Coordinator { owner: payload[0] }
    }

    pub fn new(owner: u8) -> (m: Coordinator)
        ensures
            m.owner == owner,
    {
        Coordinator { owner }
    }

    pub fn as_bytes(self) -> (buf: Vec<u8>)
        ensures
            buf@ == self.spec_bytes(),
    {
        let kind = Messages::Coordinator.as_u8();
        let buf: Vec<u8> = vec![kind, self.owner];
        buf
    }

    pub fn from_bytes(buffer: &[u8]) -> (m: Coordinator)
        requires
            buffer@.len() >= 1,
        ensures
            m == Coordinator::spec_parse(buffer@),
    {
        Coordinator { owner: buffer[0] }
    }
}

/// Framing a coordinator notice and parsing the frame's payload gives the
/// message back.
pub proof fn lemma_coordinator_round_trip(m: Coordinator)
    ensures
        Coordinator::spec_parse(m.spec_bytes().skip(1)) == m,
{
}

/// A bully-election reply: a higher-id peer is alive and takes over the
/// election.
pub struct BullyOk {
    pub owner: u8,
}

impl BullyOk {
    /// The frame: the kind byte, then the replying peer's id.
    pub open spec fn spec_bytes(self) -> Seq<u8> {
        seq![Messages::BullyOk.spec_as_u8(), self.owner]
    }

    /// The fields a payload carries.
    pub open spec fn spec_parse(payload: Seq<u8>) -> BullyOk
        recommends
            payload.len() >= 1,
    {
        BullyOk { owner: payload[0] }
    }

    pub fn as_bytes(self) -> (buf: Vec<u8>)
        ensures
            buf@ == self.spec_bytes(),
    {
        let kind = Messages::BullyOk.as_u8();
        let buf: Vec<u8> = vec![kind, self.owner];
        buf
    }

    pub fn from_bytes(buffer: &[u8]) -> (m: BullyOk)
        requires
            buffer@.len() >= 1,
        ensures
            m == BullyOk::spec_parse(buffer@),
    {
        BullyOk { owner: buffer[0] }
    }
}

/// Framing a bully reply and parsing the frame's payload gives the message
/// back.
pub proof fn lemma_bully_ok_round_trip(m: BullyOk)
    ensures
        BullyOk::spec_parse(m.spec_bytes().skip(1)) == m,
{
}

/// A bully-election challenge, sent to every higher-id peer.
pub struct BullyElection {
    pub owner: u8,
}

impl BullyElection {
    /// The frame: the kind byte, then the challenger's id.
    pub open spec fn spec_bytes(self) -> Seq<u8> {
        seq![Messages::BullyElection.spec_as_u8(), self.owner]
    }

    /// The fields a payload carries.
    pub open spec fn spec_parse(payload: Seq<u8>) -> BullyElection
        recommends
            payload.len() >= 1,
    {
        BullyElection { owner: payload[0] }
    }

    pub fn as_bytes(self) -> (buf: Vec<u8>)
        ensures
            buf@ == self.spec_bytes(),
    {
        let kind = Messages::BullyElection.as_u8();
        let buf: Vec<u8> = vec![kind, self.owner];
        buf
    }

    pub fn from_bytes(buffer: &[u8]) -> (m: BullyElection)
        requires
            buffer@.len() >= 1,
        ensures
            m == BullyElection::spec_parse(buffer@),
    {
        BullyElection { owner: buffer[0] }
    }
}

/// Framing an election challenge and parsing the frame's payload gives the
/// message back.
pub proof fn lemma_bully_election_round_trip(m: BullyElection)
    ensures
        BullyElection::spec_parse(m.spec_bytes().skip(1)) == m,
{
}

/// A liveness probe.
pub struct KeepAlive {
    pub owner: u8,
}

impl KeepAlive {
    /// The frame: the kind byte, then the prober's id.
    pub open spec fn spec_bytes(self) -> Seq<u8> {
        seq![Messages::KeepAlive.spec_as_u8(), self.owner]
    }

    /// The fields a payload carries.
    pub open spec fn spec_parse(payload: Seq<u8>) -> KeepAlive
        recommends
            payload.len() >= 1,
    {
        KeepAlive { owner: payload[0] }
    }

    pub fn new(owner: u8) -> (m: KeepAlive)
        ensures
            m.owner == owner,
    {
        KeepAlive { owner }
    }

    pub fn as_bytes(self) -> (buf: Vec<u8>)
        ensures
            buf@ == self.spec_bytes(),
    {
        let kind = Messages::KeepAlive.as_u8();
        let buf: Vec<u8> = vec![kind, self.owner];
        buf
    }

    pub fn from_bytes(buffer: &[u8]) -> (m: KeepAlive)
        requires
            buffer@.len() >= 1,
        ensures
            m == KeepAlive::spec_parse(buffer@),
    {
        KeepAlive { owner: buffer[0] }
    }
}

/// Framing a probe and parsing the frame's payload gives the message back.
pub proof fn lemma_keep_alive_round_trip(m: KeepAlive)
    ensures
        KeepAlive::spec_parse(m.spec_bytes().skip(1)) == m,
{
}

/// A liveness reply.
pub struct Alive {
    pub owner: u8,
}

impl Alive {
    /// The frame: the kind byte, then the replier's id.
    pub open spec fn spec_bytes(self) -> Seq<u8> {
        seq![Messages::Alive.spec_as_u8(), self.owner]
    }

    /// The fields a payload carries.
    pub open spec fn spec_parse(payload: Seq<u8>) -> Alive
        recommends
            payload.len() >= 1,
    {
        Alive { owner: payload[0] }
    }

    pub fn new(owner: u8) -> (m: Alive)
        ensures
            m.owner == owner,
    {
        Alive { owner }
    }

    pub fn as_bytes(self) -> (buf: Vec<u8>)
        ensures
            buf@ == self.spec_bytes(),
    {
        let kind = Messages::Alive.as_u8();
        let buf: Vec<u8> = vec![kind, self.owner];
        buf
    }

    pub fn from_bytes(buffer: &[u8]) -> (m: Alive)
        requires
            buffer@.len() >= 1,
        ensures
            m == Alive::spec_parse(buffer@),
    {
        Alive { owner: buffer[0] }
    }
}

/// Framing a liveness reply and parsing the frame's payload gives the
/// message back.
pub proof fn lemma_alive_round_trip(m: Alive)
    ensures
        Alive::spec_parse(m.spec_bytes().skip(1)) == m,
{
}

/// A liveness probe sent by a resolver to its robot.
pub struct KeepAliveFromResolver {
    pub owner: u8,
}

impl KeepAliveFromResolver {
    /// The frame: the kind byte, then the resolver's id.
    pub open spec fn spec_bytes(self) -> Seq<u8> {
        seq![Messages::KeepAliveFromResolver.spec_as_u8(), self.owner]
    }

    /// The fields a payload carries.
    pub open spec fn spec_parse(payload: Seq<u8>) -> KeepAliveFromResolver
        recommends
            payload.len() >= 1,
    {
        KeepAliveFromResolver { owner: payload[0] }
    }

    pub fn new(owner: u8) -> (m: KeepAliveFromResolver)
        ensures
            m.owner == owner,
    {
        KeepAliveFromResolver { owner }
    }

    pub fn as_bytes(self) -> (buf: Vec<u8>)
        ensures
            buf@ == self.spec_bytes(),
    {
        let kind = Messages::KeepAliveFromResolver.as_u8();
        let buf: Vec<u8> = vec![kind, self.owner];
        buf
    }

    pub fn from_bytes(buffer: &[u8]) -> (m: KeepAliveFromResolver)
        requires
            buffer@.len() >= 1,
        ensures
            m == KeepAliveFromResolver::spec_parse(buffer@),
    {
        KeepAliveFromResolver { owner: buffer[0] }
    }
}

/// Framing a resolver probe and parsing the frame's payload gives the
/// message back.
pub proof fn lemma_keep_alive_from_resolver_round_trip(m: KeepAliveFromResolver)
    ensures
        KeepAliveFromResolver::spec_parse(m.spec_bytes().skip(1)) == m,
{
}

/// A newly elected leader asks a screen for its in-flight order.
pub struct OrderRequest {
    pub owner: u8,
}

impl OrderRequest {
    /// The frame: the kind byte, then the asker's id.
    pub open spec fn spec_bytes(self) -> Seq<u8> {
        seq![Messages::OrderRequest.spec_as_u8(), self.owner]
    }

    /// The fields a payload carries.
    pub open spec fn spec_parse(payload: Seq<u8>) -> OrderRequest
        recommends
            payload.len() >= 1,
    {
        OrderRequest { owner: payload[0] }
    }

    pub fn new(owner: u8) -> (m: OrderRequest)
        ensures
            m.owner == owner,
    {
        OrderRequest { owner }
    }

    pub fn as_bytes(self) -> (buf: Vec<u8>)
        ensures
            buf@ == self.spec_bytes(),
    {
        let kind = Messages::OrderRequest.as_u8();
        let buf: Vec<u8> = vec![kind, self.owner];
        buf
    }

    pub fn from_bytes(buffer: &[u8]) -> (m: OrderRequest)
        requires
            buffer@.len() >= 1,
        ensures
            m == OrderRequest::spec_parse(buffer@),
    {
        OrderRequest { owner: buffer[0] }
    }
}

/// Framing an order request and parsing the frame's payload gives the
/// message back.
pub proof fn lemma_order_request_round_trip(m: OrderRequest)
    ensures
        OrderRequest::spec_parse(m.spec_bytes().skip(1)) == m,
{
}

/// A resolver of a newly elected leader introduces itself to its robot.
pub struct NewLeader {
    pub owner: u8,
}

impl NewLeader {
    /// The frame: the kind byte, then the resolver's id.
    pub open spec fn spec_bytes(self) -> Seq<u8> {
        seq![Messages::NewLeader.spec_as_u8(), self.owner]
    }

    /// The fields a payload carries.
    pub open spec fn spec_parse(payload: Seq<u8>) -> NewLeader
        recommends
            payload.len() >= 1,
    {
        NewLeader { owner: payload[0] }
    }

    pub fn new(owner: u8) -> (m: NewLeader)
        ensures
            m.owner == owner,
    {
        NewLeader { owner }
    }

    pub fn as_bytes(self) -> (buf: Vec<u8>)
        ensures
            buf@ == self.spec_bytes(),
    {
        let kind = Messages::NewLeader.as_u8();
        let buf: Vec<u8> = vec![kind, self.owner];
        buf
    }

    pub fn from_bytes(buffer: &[u8]) -> (m: NewLeader)
        requires
            buffer@.len() >= 1,
        ensures
            m == NewLeader::spec_parse(buffer@),
    {
        NewLeader { owner: buffer[0] }
    }
}

/// Framing a new-leader notice and parsing the frame's payload gives the
/// message back.
pub proof fn lemma_new_leader_round_trip(m: NewLeader)
    ensures
        NewLeader::spec_parse(m.spec_bytes().skip(1)) == m,
{
}

/// A busy robot tells a newly elected leader which order it is serving.
#[derive(Debug)]
pub struct RobotWithOrder {
    pub screen_id: u8,
    pub order_id: u8,
}

impl RobotWithOrder {
    /// The frame: the kind byte, the owning screen, the order number.
    pub open spec fn spec_bytes(self) -> Seq<u8> {
        seq![Messages::RobotWithOrder.spec_as_u8(), self.screen_id, self.order_id]
    }

    /// The fields a payload carries.
    pub open spec fn spec_parse(payload: Seq<u8>) -> RobotWithOrder
        recommends
            payload.len() >= 2,
    {
        RobotWithOrder { screen_id: payload[0], order_id: payload[1] }
    }

    pub fn new(screen_id: u8, order_id: u8) -> (m: RobotWithOrder)
        ensures
            m.screen_id == screen_id,
            m.order_id == order_id,
    {
        RobotWithOrder { screen_id, order_id }
    }

    pub fn as_bytes(self) -> (buf: Vec<u8>)
        ensures
            buf@ == self.spec_bytes(),
    {
        let kind = Messages::RobotWithOrder.as_u8();
        let buf: Vec<u8> = vec![kind, self.screen_id, self.order_id];
        buf
    }

    pub fn from_bytes(buffer: &[u8]) -> (m: RobotWithOrder)
        requires
            buffer@.len() >= 2,
        ensures
            m == RobotWithOrder::spec_parse(buffer@),
    {
        RobotWithOrder { screen_id: buffer[0], order_id: buffer[1] }
    }
}

/// Framing a busy-robot notice and parsing the frame's payload gives the
/// message back.
pub proof fn lemma_robot_with_order_round_trip(m: RobotWithOrder)
    ensures
        RobotWithOrder::spec_parse(m.spec_bytes().skip(1)) == m,
{
}

/// How an order ended: produced in full, or given up.
#[derive(Clone, Copy, Debug, PartialEq, Eq, Structural)]
pub enum OrderStatus {
    Ready,
    Abort,
}

/// The wire byte of an order status.
pub open spec fn spec_status_byte(s: OrderStatus) -> u8 {
    match s {
        OrderStatus::Ready => 0,
        OrderStatus::Abort => 1,
    }
}

/// The status a wire byte names; meaningful only for bytes 0 and 1.
pub open spec fn spec_byte_status(b: u8) -> OrderStatus {
    if b == 0 {
        OrderStatus::Ready
    } else {
        OrderStatus::Abort
    }
}

impl OrderStatus {
    /// The wire byte of this status.
    pub fn as_u8(self) -> (b: u8)
        ensures
            b == spec_status_byte(self),
    {
        match self {
            OrderStatus::Ready => 0,
            OrderStatus::Abort => 1,
        }
    }

    /// Decodes a wire byte: 0 and 1 name a status, all others are rejected.
    pub fn try_from(value: u8) -> (r: Result<OrderStatus, ParseError>)
        ensures
            value <= 1 ==> r == Ok::<OrderStatus, ParseError>(spec_byte_status(value)),
            value > 1 ==> r == Err::<OrderStatus, ParseError>(ParseError::ConversionError),
    {
        match value {
            0 => Ok(OrderStatus::Ready),
            1 => Ok(OrderStatus::Abort),
            _ => Err(ParseError::ConversionError),
        }
    }
}

/// A robot's verdict on an order, routed back to the owning screen.
#[derive(Clone, Copy, Debug, PartialEq, Eq, Structural)]
pub struct OrderResult {
    pub status: OrderStatus,
    pub order_id: u8,
    pub owner_id: u8,
}

impl OrderResult {
    /// The frame: the kind byte, the status byte, the order number, the
    /// owning screen.
    pub open spec fn spec_bytes(self) -> Seq<u8> {
        seq![
            Messages::OrderResult.spec_as_u8(),
            spec_status_byte(self.status),
            self.order_id,
            self.owner_id,
        ]
    }

    pub fn new(status: OrderStatus, order_id: u8, owner_id: u8) -> (m: OrderResult)
        ensures
            m.status == status,
            m.order_id == order_id,
            m.owner_id == owner_id,
    {
        OrderResult { status, order_id, owner_id }
    }

    pub fn as_bytes(self) -> (buf: Vec<u8>)
        ensures
            buf@ == self.spec_bytes(),
    {
        let kind = Messages::OrderResult.as_u8();
        let status = self.status.as_u8();
        let buf: Vec<u8> = vec![kind, status, self.order_id, self.owner_id];
        buf
    }

    /// Parses a payload: the status byte decides success.
    pub fn from_bytes(buffer: &[u8]) -> (r: Result<OrderResult, ParseError>)
        requires
            buffer@.len() >= 3,
        ensures
            buffer@[0] <= 1 ==> r == Ok::<OrderResult, ParseError>(
                OrderResult {
                    status: spec_byte_status(buffer@[0]),
                    order_id: buffer@[1],
                    owner_id: buffer@[2],
                },
            ),
            buffer@[0] > 1 ==> r == Err::<OrderResult, ParseError>(ParseError::ConversionError),
    {
        let status = match OrderStatus::try_from(buffer[0]) {
            Ok(s) => s,
            Err(e) => {
                return Err(e);
            },
        };
        Ok(OrderResult { status, order_id: buffer[1], owner_id: buffer[2] })
    }
}

/// Framing a result and parsing the frame's payload gives the result back.
pub proof fn lemma_order_result_round_trip(m: OrderResult)
    ensures
        ({
            let p = m.spec_bytes().skip(1);
            &&& p.len() == 3
            &&& p[0] <= 1
            &&& spec_byte_status(p[0]) == m.status
            &&& p[1] == m.order_id
            &&& p[2] == m.owner_id
        }),
{
}

/// The gateway's answer to a screen's payment request.
#[derive(Clone, Copy, Debug, PartialEq, Eq, Structural)]
pub enum GatewayResponse {
    /// The capture succeeded: funds are held.
    Acknowledge,
    /// The card was rejected; nothing is held.
    RejectedCard,
    /// A commit named an order with no pending payment.
    NoSuchPendingPayment,
    /// A capture named an order that already holds a pending payment.
    DuplicatedOrder,
}

/// The wire byte of a gateway response.
pub open spec fn spec_response_byte(r: GatewayResponse) -> u8 {
    match r {
        GatewayResponse::Acknowledge => 0,
        GatewayResponse::RejectedCard => 1,
        GatewayResponse::NoSuchPendingPayment => 2,
        GatewayResponse::DuplicatedOrder => 3,
    }
}

/// The response a wire byte names; meaningful only for bytes 0 to 3.
pub open spec fn spec_byte_response(b: u8) -> GatewayResponse {
    if b == 0 {
        GatewayResponse::Acknowledge
    } else if b == 1 {
        GatewayResponse::RejectedCard
    } else if b == 2 {
        GatewayResponse::NoSuchPendingPayment
    } else {
        GatewayResponse::DuplicatedOrder
    }
}

impl GatewayResponse {
    /// The frame: the kind byte, then the response code.
    pub open spec fn spec_bytes(self) -> Seq<u8> {
        seq![Messages::GatewayResponse.spec_as_u8(), spec_response_byte(self)]
    }

    /// Decodes a wire byte: bytes 0 to 3 name a response, all others are
    /// rejected.
    pub fn try_from(value: u8) -> (r: Result<GatewayResponse, ParseError>)
        ensures
            value <= 3 ==> r == Ok::<GatewayResponse, ParseError>(spec_byte_response(value)),
            value > 3 ==> r == Err::<GatewayResponse, ParseError>(ParseError::ConversionError),
    {
        match value {
            0 => Ok(GatewayResponse::Acknowledge),
            1 => Ok(GatewayResponse::RejectedCard),
            2 => Ok(GatewayResponse::NoSuchPendingPayment),
            3 => Ok(GatewayResponse::DuplicatedOrder),
            _ => Err(ParseError::ConversionError),
        }
    }

    /// Frames the response as its two wire bytes.
    pub fn as_bytes(self) -> (buf: Vec<u8>)
        ensures
            buf@ == self.spec_bytes(),
    {
        let kind = Messages::GatewayResponse.as_u8();
        let code = match self {
            GatewayResponse::Acknowledge => 0u8,
            GatewayResponse::RejectedCard => 1u8,
            GatewayResponse::NoSuchPendingPayment => 2u8,
            GatewayResponse::DuplicatedOrder => 3u8,
        };
        let buf: Vec<u8> = vec![kind, code];
        buf
    }
}

/// Framing a gateway response and decoding the frame's payload byte gives
/// the response back.
pub proof fn lemma_gateway_response_round_trip(r: GatewayResponse)
    ensures
        spec_response_byte(r) <= 3,
        spec_byte_response(spec_response_byte(r)) == r,
{
}

/// The circulating right to draw from one flavour's bucket: the last robot
/// to touch it, and the bucket itself.
#[derive(Clone, Copy, Debug, PartialEq, Eq, Structural)]
pub struct Token {
    pub owner: u8,
    pub bucket: Bucket,
}

impl Token {
    /// The frame: the kind byte, the owner, then the bucket's five bytes.
    pub open spec fn spec_bytes(self) -> Seq<u8> {
        seq![Messages::Token.spec_as_u8(), self.owner] + self.bucket.spec_bytes()
    }

    pub fn new(owner: u8, bucket: Bucket) -> (m: Token)
        ensures
            m.owner == owner,
            m.bucket == bucket,
    {
        Token { owner, bucket }
    }

    pub fn as_bytes(self) -> (buf: Vec<u8>)
        ensures
            buf@ == self.spec_bytes(),
    {
        let mut buf: Vec<u8> = Vec::new();
        buf.push(Messages::Token.as_u8());
        buf.push(self.owner);
        buf.push(self.bucket.ice_cream.as_u8());
        push_u32_be(&mut buf, self.bucket.amount_bits);
        proof {
            assert(buf@ =~= self.spec_bytes());
        }
        buf
    }

    /// Parses a payload: the owner, then a bucket; the flavour byte decides
    /// success.
    pub fn from_bytes(buffer: &[u8]) -> (r: Result<Token, ParseError>)
        requires
            buffer@.len() >= 6,
        ensures
            buffer@[1] <= 4 ==> r == Ok::<Token, ParseError>(
                Token {
                    owner: buffer@[0],
                    bucket: Bucket {
                        ice_cream: spec_byte_flavour(buffer@[1]),
                        amount_bits: u32_of_be_bytes(
                            buffer@[2],
                            buffer@[3],
                            buffer@[4],
                            buffer@[5],
                        ),
                    },
                },
            ),
            buffer@[1] > 4 ==> r == Err::<Token, ParseError>(ParseError::ConversionError),
    {
        let owner = buffer[0];
        let ice_cream = match IceCream::try_from(buffer[1]) {
            Ok(f) => f,
            Err(e) => {
                return Err(e);
            },
        };
        let amount_bits = read_u32_be(buffer, 2);
        Ok(Token { owner, bucket: Bucket { ice_cream, amount_bits } })
    }
}

/// Framing a token and parsing the frame's payload gives the token back.
pub proof fn lemma_token_round_trip(m: Token)
    ensures
        ({
            let p = m.spec_bytes().skip(1);
            &&& p.len() == 6
            &&& p[0] == m.owner
            &&& p[1] <= 4
            &&& spec_byte_flavour(p[1]) == m.bucket.ice_cream
            &&& u32_of_be_bytes(p[2], p[3], p[4], p[5]) == m.bucket.amount_bits
        }),
{
    crate::icecream::lemma_bucket_round_trip(m.bucket);
    let p = m.spec_bytes().skip(1);
    assert(p[1] == m.bucket.spec_bytes()[0]);
    assert(p[2] == m.bucket.spec_bytes()[1]);
    assert(p[3] == m.bucket.spec_bytes()[2]);
    assert(p[4] == m.bucket.spec_bytes()[3]);
    assert(p[5] == m.bucket.spec_bytes()[4]);
}

/// The five wire bytes of one order line: the flavour, then the amount's
/// 32-bit encoding, big-endian.
pub open spec fn spec_item_bytes(item: (IceCream, u32)) -> Seq<u8> {
    seq![spec_flavour_byte(item.0)] + u32_be_bytes(item.1)
}

/// The wire bytes of a list of order lines, in list order.
pub open spec fn spec_items_bytes(items: Seq<(IceCream, u32)>) -> Seq<u8>
    decreases items.len(),
{
    if items.len() == 0 {
        Seq::empty()
    } else {
        spec_items_bytes(items.drop_last()) + spec_item_bytes(items.last())
    }
}

/// Where each order line sits inside the serialised list: line `k` occupies
/// bytes `5k` to `5k + 4`.
pub proof fn lemma_items_bytes_index(items: Seq<(IceCream, u32)>, k: int)
    requires
        0 <= k < items.len(),
    ensures
        spec_items_bytes(items).len() == 5 * items.len(),
        spec_items_bytes(items).subrange(5 * k, 5 * k + 5) == spec_item_bytes(items[k]),
    decreases items.len(),
{
    lemma_items_bytes_len(items);
    if k == items.len() - 1 {
        lemma_items_bytes_len(items.drop_last());
        assert(spec_items_bytes(items).subrange(5 * k, 5 * k + 5) =~= spec_item_bytes(items[k]));
    } else {
        lemma_items_bytes_index(items.drop_last(), k);
        lemma_items_bytes_len(items.drop_last());
        assert(spec_items_bytes(items).subrange(5 * k, 5 * k + 5) =~= spec_items_bytes(
            items.drop_last(),
        ).subrange(5 * k, 5 * k + 5));
    }
}

/// The serialised list of order lines is five bytes per line.
pub proof fn lemma_items_bytes_len(items: Seq<(IceCream, u32)>)
    ensures
        spec_items_bytes(items).len() == 5 * items.len(),
    decreases items.len(),
{
    if items.len() > 0 {
        lemma_items_bytes_len(items.drop_last());
    }
}

/// An order: the owning screen, the screen's running order number, and the
/// required amount per flavour.  Amounts are kept as their 32-bit wire
/// encoding.
#[derive(Clone, Debug)]
pub struct Order {
    pub screen_id: u8,
    pub order_id: u8,
    pub items: Vec<(IceCream, u32)>,
}

impl Order {
    /// An order is well formed when no flavour appears twice and the line
    /// count fits its one-byte wire field.
    pub open spec fn wf(self) -> bool {
        &&& self.items@.len() <= 255
        &&& forall|i: int, j: int|
            0 <= i < j < self.items@.len() ==> self.items@[i].0 != self.items@[j].0
    }

    /// The frame: the kind byte, the screen, the order number, the line
    /// count, then five bytes per line.
    pub open spec fn spec_bytes(self) -> Seq<u8> {
        seq![
            Messages::Order.spec_as_u8(),
            self.screen_id,
            self.order_id,
            self.items@.len() as u8,
        ] + spec_items_bytes(self.items@)
    }

    pub fn new(screen_id: u8, order_id: u8, items: Vec<(IceCream, u32)>) -> (m: Order)
        ensures
            m.screen_id == screen_id,
            m.order_id == order_id,
            m.items == items,
    {
        Order { screen_id, order_id, items }
    }

    /// The required amount for a flavour, if the order still lists it.
    pub fn required_amount(&self, flavour: IceCream) -> (r: Option<u32>)
        ensures
            r matches Some(bits) ==> exists|i: int|
                0 <= i < self.items@.len() && self.items@[i] == (flavour, bits),
            r is None ==> forall|i: int|
                0 <= i < self.items@.len() ==> self.items@[i].0 != flavour,
    {
        let mut i: usize = 0;
        while i < self.items.len()
            invariant
                i <= self.items@.len(),
                forall|j: int| 0 <= j < i ==> self.items@[j].0 != flavour,
            decreases self.items@.len() - i,
        {
            if self.items[i].0 == flavour {
                return Some(self.items[i].1);
            }
            i = i + 1;
        }
        None
    }

    /// Frames the order.  The line count must fit its one-byte wire field.
    pub fn as_bytes(&self) -> (buf: Vec<u8>)
        requires
            self.items@.len() <= 255,
        ensures
            buf@ == self.spec_bytes(),
    {
        let mut buf: Vec<u8> = Vec::new();
        buf.push(Messages::Order.as_u8());
        buf.push(self.screen_id);
        buf.push(self.order_id);
        buf.push(self.items.len() as u8);
        let ghost prefix = buf@;
        let mut i: usize = 0;
        while i < self.items.len()
            invariant
                i <= self.items@.len(),
                buf@ == prefix + spec_items_bytes(self.items@.take(i as int)),
            decreases self.items@.len() - i,
        {
            let (flavour, bits) = self.items[i];
            buf.push(flavour.as_u8());
            push_u32_be(&mut buf, bits);
            proof {
                let taken = self.items@.take(i + 1);
                assert(taken.drop_last() =~= self.items@.take(i as int));
                assert(taken.last() == self.items@[i as int]);
                assert(buf@ =~= prefix + spec_items_bytes(self.items@.take(i + 1)));
            }
            i = i + 1;
        }
        proof {
            assert(self.items@.take(self.items@.len() as int) =~= self.items@);
            assert(buf@ =~= self.spec_bytes());
        }
        buf
    }

    /// Parses a payload: the screen, the order number, a line count, then
    /// five bytes per line.  Every line's flavour byte must name a flavour;
    /// a frame produced by `as_bytes` always satisfies that.
    pub fn from_bytes(buffer: &[u8]) -> (m: Order)
        requires
            buffer@.len() >= 3,
            buffer@.len() >= 3 + 5 * buffer@[2],
            forall|i: int| 0 <= i < buffer@[2] ==> #[trigger] buffer@[3 + 5 * i] <= 4,
        ensures
            m.screen_id == buffer@[0],
            m.order_id == buffer@[1],
            m.items@.len() == buffer@[2],
            forall|i: int|
                0 <= i < buffer@[2] ==> m.items@[i] == (
                    spec_byte_flavour(buffer@[3 + 5 * i]),
                    u32_of_be_bytes(
                        buffer@[3 + 5 * i + 1],
                        buffer@[3 + 5 * i + 2],
                        buffer@[3 + 5 * i + 3],
                        buffer@[3 + 5 * i + 4],
                    ),
                ),
    {
        let screen_id = buffer[0];
        let order_id = buffer[1];
        let len_items = buffer[2] as usize;
        let mut items: Vec<(IceCream, u32)> = Vec::new();
        let mut i: usize = 0;
        while i < len_items
            invariant
                i <= len_items,
                len_items == buffer@[2],
                buffer@.len() >= 3 + 5 * len_items,
                forall|j: int| 0 <= j < len_items ==> #[trigger] buffer@[3 + 5 * j] <= 4,
                items@.len() == i,
                forall|j: int|
                    0 <= j < i ==> items@[j] == (
                        spec_byte_flavour(buffer@[3 + 5 * j]),
                        u32_of_be_bytes(
                            buffer@[3 + 5 * j + 1],
                            buffer@[3 + 5 * j + 2],
                            buffer@[3 + 5 * j + 3],
                            buffer@[3 + 5 * j + 4],
                        ),
                    ),
            decreases len_items - i,
        {
            let offset = 3 + i * 5;
            let flavour = match IceCream::try_from(buffer[offset]) {
                Ok(f) => f,
                Err(_) => {
                    proof {
                        assert(buffer@[3 + 5 * (i as int)] <= 4);
                        assert(false);
                    }
                    return Order { screen_id, order_id, items };
                },
            };
            let bits = read_u32_be(buffer, offset + 1);
            items.push((flavour, bits));
            i = i + 1;
        }
        Order { screen_id, order_id, items }
    }
}

/// Framing an order and parsing the frame's payload gives the fields back,
/// line by line.
pub proof fn lemma_order_round_trip(m: Order)
    requires
        m.items@.len() <= 255,
    ensures
        ({
            let p = m.spec_bytes().skip(1);
            &&& p.len() == 3 + 5 * m.items@.len()
            &&& p[0] == m.screen_id
            &&& p[1] == m.order_id
            &&& p[2] == m.items@.len()
            &&& forall|i: int| 0 <= i < m.items@.len() ==> #[trigger] p[3 + 5 * i] <= 4
            &&& forall|i: int|
                0 <= i < m.items@.len() ==> (
                #[trigger] spec_byte_flavour(p[3 + 5 * i]),
                u32_of_be_bytes(
                    p[3 + 5 * i + 1],
                    p[3 + 5 * i + 2],
                    p[3 + 5 * i + 3],
                    p[3 + 5 * i + 4],
                )) == m.items@[i]
        }),
{
    let p = m.spec_bytes().skip(1);
    lemma_items_bytes_len(m.items@);
    assert forall|i: int| 0 <= i < m.items@.len() implies #[trigger] p[3 + 5 * i] <= 4 && (
    spec_byte_flavour(p[3 + 5 * i]),
    u32_of_be_bytes(p[3 + 5 * i + 1], p[3 + 5 * i + 2], p[3 + 5 * i + 3], p[3 + 5 * i + 4]))
        == m.items@[i] by {
        lemma_items_bytes_index(m.items@, i);
        let ib = spec_items_bytes(m.items@);
        let sub = ib.subrange(5 * i, 5 * i + 5);
        assert(p[3 + 5 * i] == ib[5 * i]);
        assert(p[3 + 5 * i + 1] == ib[5 * i + 1]);
        assert(p[3 + 5 * i + 2] == ib[5 * i + 2]);
        assert(p[3 + 5 * i + 3] == ib[5 * i + 3]);
        assert(p[3 + 5 * i + 4] == ib[5 * i + 4]);
        assert(ib[5 * i] == sub[0] && ib[5 * i + 1] == sub[1] && ib[5 * i + 2] == sub[2] && ib[5
            * i + 3] == sub[3] && ib[5 * i + 4] == sub[4]);
        crate::icecream::lemma_flavour_byte_round_trip(m.items@[i].0);
        lemma_u32_be_round_trip(m.items@[i].1);
    }
}

/// An order forwarded by the leader to a robot, tagged with the resolver
/// that owns the conversation.
#[derive(Debug)]
pub struct RobotOrder {
    pub resolver_owner: u8,
    pub order: Order,
}

impl RobotOrder {
    /// The frame: the kind byte, the resolver's id, then the order's whole
    /// frame, own kind byte included.
    pub open spec fn spec_bytes(self) -> Seq<u8> {
        seq![Messages::RobotOrder.spec_as_u8(), self.resolver_owner] + self.order.spec_bytes()
    }

    pub fn new(resolver_owner: u8, screen_owner: u8, order_id: u8, items: Vec<(IceCream, u32)>) -> (m:
        RobotOrder)
        ensures
            m.resolver_owner == resolver_owner,
            m.order.screen_id == screen_owner,
            m.order.order_id == order_id,
            m.order.items == items,
    {
        let order = Order::new(screen_owner, order_id, items);
        RobotOrder { resolver_owner, order }
    }

    /// Frames the message.  The order's line count must fit its one-byte
    /// wire field.
    pub fn as_bytes(&self) -> (buf: Vec<u8>)
        requires
            self.order.items@.len() <= 255,
        ensures
            buf@ == self.spec_bytes(),
    {
        let mut buf: Vec<u8> = Vec::new();
        buf.push(Messages::RobotOrder.as_u8());
        buf.push(self.resolver_owner);
        let mut order_bytes = self.order.as_bytes();
        buf.append(&mut order_bytes);
        proof {
            assert(buf@ =~= self.spec_bytes());
        }
        buf
    }

    /// Parses a payload: the resolver's id, the repeated order kind byte,
    /// then the order's payload.
    pub fn from_bytes(buffer: &[u8]) -> (m: RobotOrder)
        requires
            buffer@.len() >= 5,
            buffer@.len() >= 5 + 5 * buffer@[4],
            forall|i: int| 0 <= i < buffer@[4] ==> #[trigger] buffer@[5 + 5 * i] <= 4,
        ensures
            m.resolver_owner == buffer@[0],
            m.order.screen_id == buffer@[2],
            m.order.order_id == buffer@[3],
            m.order.items@.len() == buffer@[4],
            forall|i: int|
                0 <= i < buffer@[4] ==> m.order.items@[i] == (
                    spec_byte_flavour(buffer@[5 + 5 * i]),
                    u32_of_be_bytes(
                        buffer@[5 + 5 * i + 1],
                        buffer@[5 + 5 * i + 2],
                        buffer@[5 + 5 * i + 3],
                        buffer@[5 + 5 * i + 4],
                    ),
                ),
    {
        let resolver_owner = buffer[0];
        let rest = vstd::slice::slice_subrange(buffer, 2, buffer.len());
        proof {
            assert(rest@[2] == buffer@[4]);
            assert forall|i: int| 0 <= i < rest@[2] implies #[trigger] rest@[3 + 5 * i] <= 4 by {
                assert(rest@[3 + 5 * i] == buffer@[5 + 5 * i]);
            }
        }
        let order = Order::from_bytes(rest);
        proof {
            assert(order.screen_id == buffer@[2] && order.order_id == buffer@[3]
                && order.items@.len() == buffer@[4]);
            assert forall|i: int| 0 <= i < buffer@[4] implies order.items@[i] == (
            spec_byte_flavour(buffer@[5 + 5 * i]),
            u32_of_be_bytes(
                buffer@[5 + 5 * i + 1],
                buffer@[5 + 5 * i + 2],
                buffer@[5 + 5 * i + 3],
                buffer@[5 + 5 * i + 4],
            )) by {
                assert(order.items@[i] == (
                spec_byte_flavour(rest@[3 + 5 * i]),
                u32_of_be_bytes(
                    rest@[3 + 5 * i + 1],
                    rest@[3 + 5 * i + 2],
                    rest@[3 + 5 * i + 3],
                    rest@[3 + 5 * i + 4],
                )));
                assert(rest@[3 + 5 * i] == buffer@[5 + 5 * i]);
                assert(rest@[3 + 5 * i + 1] == buffer@[5 + 5 * i + 1]);
                assert(rest@[3 + 5 * i + 2] == buffer@[5 + 5 * i + 2]);
                assert(rest@[3 + 5 * i + 3] == buffer@[5 + 5 * i + 3]);
                assert(rest@[3 + 5 * i + 4] == buffer@[5 + 5 * i + 4]);
            }
        }
        RobotOrder { resolver_owner, order }
    }
}

/// Framing a robot order and parsing the frame's payload gives the fields
/// back.
pub proof fn lemma_robot_order_round_trip(m: RobotOrder)
    requires
        m.order.items@.len() <= 255,
    ensures
        ({
            let p = m.spec_bytes().skip(1);
            &&& p.len() == 5 + 5 * m.order.items@.len()
            &&& p[0] == m.resolver_owner
            &&& p[1] == Messages::Order.spec_as_u8()
            &&& p[2] == m.order.screen_id
            &&& p[3] == m.order.order_id
            &&& p[4] == m.order.items@.len()
        }),
{
    lemma_items_bytes_len(m.order.items@);
    let p = m.spec_bytes().skip(1);
    assert(p[1] == m.order.spec_bytes()[0]);
    assert(p[2] == m.order.spec_bytes()[1]);
    assert(p[3] == m.order.spec_bytes()[2]);
    assert(p[4] == m.order.spec_bytes()[3]);
}

/// A robot's report that its upstream neighbour died, carrying the
/// reporter's own per-flavour grades.
pub struct RobotDead {
    pub owner: u8,
    pub status: Vec<(IceCream, Grade)>,
}

/// The two wire bytes of one grade line: the flavour, then the grade.
pub open spec fn spec_grade_line_bytes(line: (IceCream, Grade)) -> Seq<u8> {
    seq![spec_flavour_byte(line.0), spec_grade_byte(line.1)]
}

/// The wire bytes of a list of grade lines, in list order.
pub open spec fn spec_grade_lines_bytes(lines: Seq<(IceCream, Grade)>) -> Seq<u8>
    decreases lines.len(),
{
    if lines.len() == 0 {
        Seq::empty()
    } else {
        spec_grade_lines_bytes(lines.drop_last()) + spec_grade_line_bytes(lines.last())
    }
}

/// The serialised list of grade lines is two bytes per line, and line `k`
/// occupies bytes `2k` and `2k + 1`.
pub proof fn lemma_grade_lines_bytes_index(lines: Seq<(IceCream, Grade)>, k: int)
    requires
        0 <= k < lines.len(),
    ensures
        spec_grade_lines_bytes(lines).len() == 2 * lines.len(),
        spec_grade_lines_bytes(lines)[2 * k] == spec_flavour_byte(lines[k].0),
        spec_grade_lines_bytes(lines)[2 * k + 1] == spec_grade_byte(lines[k].1),
    decreases lines.len(),
{
    lemma_grade_lines_bytes_len(lines);
    if k < lines.len() - 1 {
        lemma_grade_lines_bytes_index(lines.drop_last(), k);
        lemma_grade_lines_bytes_len(lines.drop_last());
    } else {
        lemma_grade_lines_bytes_len(lines.drop_last());
    }
}

/// The serialised list of grade lines is two bytes per line.
pub proof fn lemma_grade_lines_bytes_len(lines: Seq<(IceCream, Grade)>)
    ensures
        spec_grade_lines_bytes(lines).len() == 2 * lines.len(),
    decreases lines.len(),
{
    if lines.len() > 0 {
        lemma_grade_lines_bytes_len(lines.drop_last());
    }
}

impl RobotDead {
    /// The frame: the kind byte, the reporter, the line count, then two
    /// bytes per line.
    pub open spec fn spec_bytes(self) -> Seq<u8> {
        seq![Messages::RobotDead.spec_as_u8(), self.owner, self.status@.len() as u8]
            + spec_grade_lines_bytes(self.status@)
    }

    pub fn new(owner: u8, status: Vec<(IceCream, Grade)>) -> (m: RobotDead)
        ensures
            m.owner == owner,
            m.status == status,
    {
        RobotDead { owner, status }
    }

    /// Frames the report.  The line count must fit its one-byte wire field.
    pub fn as_bytes(self) -> (buf: Vec<u8>)
        requires
            self.status@.len() <= 255,
        ensures
            buf@ == self.spec_bytes(),
    {
        let mut buf: Vec<u8> = Vec::new();
        buf.push(Messages::RobotDead.as_u8());
        buf.push(self.owner);
        buf.push(self.status.len() as u8);
        let ghost prefix = buf@;
        let mut i: usize = 0;
        while i < self.status.len()
            invariant
                i <= self.status@.len(),
                buf@ == prefix + spec_grade_lines_bytes(self.status@.take(i as int)),
            decreases self.status@.len() - i,
        {
            let (flavour, grade) = self.status[i];
            buf.push(flavour.as_u8());
            buf.push(grade.as_u8());
            proof {
                let taken = self.status@.take(i + 1);
                assert(taken.drop_last() =~= self.status@.take(i as int));
                assert(taken.last() == self.status@[i as int]);
                assert(buf@ =~= prefix + spec_grade_lines_bytes(self.status@.take(i + 1)));
            }
            i = i + 1;
        }
        proof {
            assert(self.status@.take(self.status@.len() as int) =~= self.status@);
            assert(buf@ =~= self.spec_bytes());
        }
        buf
    }

    /// Parses a payload: the reporter, a line count, then two bytes per
    /// line.  Every line must name a flavour and a grade; a frame produced
    /// by `as_bytes` always satisfies that.
    pub fn from_bytes(buffer: &[u8]) -> (m: RobotDead)
        requires
            buffer@.len() >= 2,
            buffer@.len() >= 2 + 2 * buffer@[1],
            forall|i: int|
                0 <= i < buffer@[1] ==> #[trigger] buffer@[2 + 2 * i] <= 4 && buffer@[3 + 2 * i]
                    <= 2,
        ensures
            m.owner == buffer@[0],
            m.status@.len() == buffer@[1],
            forall|i: int|
                0 <= i < buffer@[1] ==> m.status@[i] == (
                    spec_byte_flavour(buffer@[2 + 2 * i]),
                    spec_byte_grade(buffer@[3 + 2 * i]),
                ),
    {
        let owner = buffer[0];
        let len_status = buffer[1] as usize;
        let mut status: Vec<(IceCream, Grade)> = Vec::new();
        let mut i: usize = 0;
        while i < len_status
            invariant
                i <= len_status,
                len_status == buffer@[1],
                buffer@.len() >= 2 + 2 * len_status,
                forall|j: int|
                    0 <= j < len_status ==> #[trigger] buffer@[2 + 2 * j] <= 4 && buffer@[3 + 2
                        * j] <= 2,
                status@.len() == i,
                forall|j: int|
                    0 <= j < i ==> status@[j] == (
                        spec_byte_flavour(buffer@[2 + 2 * j]),
                        spec_byte_grade(buffer@[3 + 2 * j]),
                    ),
            decreases len_status - i,
        {
            let flavour = match IceCream::try_from(buffer[2 + 2 * i]) {
                Ok(f) => f,
                Err(_) => {
                    proof {
                        assert(buffer@[2 + 2 * (i as int)] <= 4);
                        assert(false);
                    }
                    return RobotDead { owner, status };
                },
            };
            let grade = match Grade::try_from(buffer[3 + 2 * i]) {
                Ok(g) => g,
                Err(_) => {
                    proof {
                        assert(buffer@[3 + 2 * (i as int)] <= 2);
                        assert(false);
                    }
                    return RobotDead { owner, status };
                },
            };
            status.push((flavour, grade));
            i = i + 1;
        }
        RobotDead { owner, status }
    }
}

/// Framing a death report and parsing the frame's payload gives the fields
/// back, line by line.
pub proof fn lemma_robot_dead_round_trip(m: RobotDead)
    requires
        m.status@.len() <= 255,
    ensures
        ({
            let p = m.spec_bytes().skip(1);
            &&& p.len() == 2 + 2 * m.status@.len()
            &&& p[0] == m.owner
            &&& p[1] == m.status@.len()
            &&& forall|i: int| 0 <= i < m.status@.len() ==> #[trigger] p[2 + 2 * i] <= 4
            &&& forall|i: int| 0 <= i < m.status@.len() ==> #[trigger] p[3 + 2 * i] <= 2
            &&& forall|i: int|
                0 <= i < m.status@.len() ==> (
                #[trigger] spec_byte_flavour(p[2 + 2 * i]),
                spec_byte_grade(p[3 + 2 * i])) == m.status@[i]
        }),
{
    let p = m.spec_bytes().skip(1);
    lemma_grade_lines_bytes_len(m.status@);
    assert(p[1] == m.status@.len() as u8);
    assert(m.status@.len() as u8 == m.status@.len());
    assert forall|i: int| 0 <= i < m.status@.len() implies #[trigger] p[2 + 2 * i] <= 4 by {
        lemma_grade_lines_bytes_index(m.status@, i);
        assert(p[2 + 2 * i] == spec_grade_lines_bytes(m.status@)[2 * i]);
        crate::icecream::lemma_flavour_byte_round_trip(m.status@[i].0);
    }
    assert forall|i: int| 0 <= i < m.status@.len() implies #[trigger] p[3 + 2 * i] <= 2 by {
        lemma_grade_lines_bytes_index(m.status@, i);
        assert(p[3 + 2 * i] == spec_grade_lines_bytes(m.status@)[2 * i + 1]);
        crate::grade::lemma_grade_byte_round_trip(m.status@[i].1);
    }
    assert forall|i: int| 0 <= i < m.status@.len() implies (
    #[trigger] spec_byte_flavour(p[2 + 2 * i]),
    spec_byte_grade(p[3 + 2 * i])) == m.status@[i] by {
        lemma_grade_lines_bytes_index(m.status@, i);
        assert(p[2 + 2 * i] == spec_grade_lines_bytes(m.status@)[2 * i]);
        assert(p[3 + 2 * i] == spec_grade_lines_bytes(m.status@)[2 * i + 1]);
        crate::icecream::lemma_flavour_byte_round_trip(m.status@[i].0);
        crate::grade::lemma_grade_byte_round_trip(m.status@[i].1);
    }
}

} // verus!
