//! A customer screen: it drives the two-phase commit with the gateway,
//! ships orders to the leader, and runs the bully election when the leader
//! goes quiet.
//!
//! The socket loop is outside the library; its every decision is here, as
//! one flat step function over the screen's status and the datagram in
//! hand, so that a re-entrant election is impossible by construction.

use crate::gateway::GatewayAction;
use crate::messages::Alive;
use crate::messages::BullyOk;
use crate::messages::GatewayResponse;
use crate::messages::Order;
use crate::messages::OrderResult;
use crate::messages::OrderStatus;
use vstd::prelude::*;

verus! {

/// The card every order is charged to.
pub const CARDNUMBER: u32 = 32231244;

/// The 64-bit wire encoding of the flat price charged per order.
pub const PRICE_BITS: u64 = 0x408F400000000000;

/// Where the screen stands in its order cycle.
#[derive(Clone, Copy, Debug, PartialEq, Eq, Structural)]
pub enum ScreenStatus {
    /// Reading the next order from its stream.
    ReadingOrder,
    /// A capture is out; awaiting the gateway's verdict.
    WaitingGatewayResponse,
    /// The order is with the leader; awaiting the robots' verdict.
    WaitingRobotResponse,
    /// Settling the charge.
    ChargingOrder,
    /// Running a bully election.
    ElectingNewLeader,
    /// Acting as the leader.
    BeingLeader,
}

/// A datagram, or its absence, as the screen's wait sees it.
pub enum ScreenIncoming {
    /// The wait timed out.
    Timeout,
    /// A lower peer challenges for the leadership.
    BullyElectionMsg { owner: u8 },
    /// A higher peer is alive and takes the election over.
    BullyOkMsg,
    /// A peer announces itself as the new leader.
    CoordinatorMsg { leader: u8 },
    /// The gateway's verdict on a capture.
    GatewayResponseMsg(GatewayResponse),
    /// The robots' verdict on the in-flight order.
    OrderResultMsg(OrderResult),
    /// A peer probes for liveness.
    KeepAliveMsg,
    /// The leader answered a liveness probe.
    AliveMsg,
    /// A newly elected leader asks for the in-flight order.
    OrderRequestMsg,
    /// Anything else.
    Other,
}

/// What the screen's loop must do next.
pub enum ScreenAction {
    /// Answer the sender with a bully acknowledgement.
    ReplyBullyOk,
    /// Start a bully election round.
    StartElection,
    /// Answer the sender that this screen is alive.
    ReplyAlive,
    /// Send the given action to the gateway.
    SendGateway(GatewayAction),
    /// Send the in-flight order to the leader again.
    ResendOrderToLeader,
    /// Answer the sender with the in-flight order.
    SendCurrentOrder,
    /// Probe the leader for liveness.
    SendKeepAliveToLeader,
    /// Wait without a timeout for the coordinator announcement.
    AwaitCoordinator,
}

/// The largest id among the peers; 0 when there are none.
pub open spec fn spec_max_peer(peers: Seq<u8>) -> u8
    decreases peers.len(),
{
    if peers.len() == 0 {
        0
    } else {
        let rest = spec_max_peer(peers.drop_last());
        if peers.last() >= rest {
            peers.last()
        } else {
            rest
        }
    }
}

/// A screen's guarded state, as plain values: who it is, where it stands,
/// whom it takes for the leader, its peers, and the order in flight.
pub struct Screen {
    /// This screen's id.
    pub id: u8,
    /// Where the screen stands in its order cycle.
    pub status: ScreenStatus,
    /// The status to return to when an election ends with another screen
    /// as the leader.
    pub resume_status: ScreenStatus,
    /// The id of the screen taken for the leader.
    pub leader: u8,
    /// Every screen id in the system, this one included.
    pub peers: Vec<u8>,
    /// The order in flight, if any.
    pub current_order: Option<Order>,
    /// How many robots the leader stack drives.
    pub nrobots: u8,
}

impl Screen {
    /// A fresh screen: the highest peer is taken for the leader, and the
    /// screen that finds itself highest starts as the leader.
    pub fn new(id: u8, peers: Vec<u8>, nrobots: u8) -> (s: Screen)
        ensures
            s.id == id,
            s.peers == peers,
            s.nrobots == nrobots,
            s.current_order is None,
            s.resume_status == s.status,
            s.leader == spec_max_peer(peers@),
            peers@.len() > 0 ==> (s.status == ScreenStatus::BeingLeader <==> spec_max_peer(peers@)
                == id),
            peers@.len() == 0 ==> s.status == ScreenStatus::ReadingOrder,
    {
        let (leader, status) = Screen::determine_leader(id, &peers);
        Screen { id, status, resume_status: status, leader, peers, current_order: None, nrobots }
    }

    /// The highest peer id and the starting status: the highest screen
    /// leads, every other reads orders.
    fn determine_leader(id: u8, peers: &Vec<u8>) -> (r: (u8, ScreenStatus))
        ensures
            r.0 == spec_max_peer(peers@),
            peers@.len() > 0 ==> (r.1 == ScreenStatus::BeingLeader <==> spec_max_peer(peers@)
                == id),
            peers@.len() == 0 ==> r.1 == ScreenStatus::ReadingOrder,
    {
        let mut best: u8 = 0;
        let mut i: usize = 0;
        while i < peers.len()
            invariant
                i <= peers@.len(),
                best == spec_max_peer(peers@.take(i as int)),
            decreases peers@.len() - i,
        {
            let p = peers[i];
            if p >= best {
                best = p;
            }
            proof {
                assert(peers@.take(i + 1).drop_last() =~= peers@.take(i as int));
                assert(peers@.take(i + 1).last() == peers@[i as int]);
            }
            i = i + 1;
        }
        proof {
            assert(peers@.take(peers@.len() as int) =~= peers@);
        }
        if peers.len() > 0 && best == id {
            (best, ScreenStatus::BeingLeader)
        } else {
            (best, ScreenStatus::ReadingOrder)
        }
    }

    /// Opens an election round: the screen is now electing, and the
    /// returned peers — every one with a higher id — get the challenge.
    pub fn leader_election(&mut self) -> (targets: Vec<u8>)
        ensures
            final(self).status == ScreenStatus::ElectingNewLeader,
            final(self).resume_status == old(self).status,
            final(self).id == old(self).id && final(self).leader == old(self).leader && final(self).peers == old(self).peers && final(self).current_order == old(self).current_order
                && final(self).nrobots == old(self).nrobots,
            targets@ == old(self).peers@.filter(|p: u8| p > old(self).id),
    {
        let ghost pred = |p: u8| p > self.id;
        let mut targets: Vec<u8> = Vec::new();
        let mut i: usize = 0;
        while i < self.peers.len()
            invariant
                i <= self.peers@.len(),
                self.id == old(self).id,
                self.peers == old(self).peers,
                targets@ == self.peers@.take(i as int).filter(pred),
                pred == (|p: u8| p > old(self).id),
            decreases self.peers@.len() - i,
        {
            let p = self.peers[i];
            proof {
                assert(self.peers@.take(i + 1).drop_last() =~= self.peers@.take(i as int));
                assert(self.peers@.take(i + 1).last() == self.peers@[i as int]);
                reveal_with_fuel(Seq::filter, 2);
            }
            if p > self.id {
                targets.push(p);
            }
            i = i + 1;
        }
        proof {
            assert(self.peers@.take(self.peers@.len() as int) =~= self.peers@);
        }
        self.resume_status = self.status;
        self.status = ScreenStatus::ElectingNewLeader;
        targets
    }

    /// Answers a lower peer's challenge — the acknowledgement to send back
    /// and the higher peers to challenge in turn — and joins the election.
    pub fn handle_election(&mut self) -> (r: (BullyOk, Vec<u8>))
        ensures
            r.0.owner == old(self).id,
            r.1@ == old(self).peers@.filter(|p: u8| p > old(self).id),
            final(self).status == ScreenStatus::ElectingNewLeader,
            final(self).resume_status == old(self).status,
            final(self).id == old(self).id && final(self).leader == old(self).leader && final(self).peers == old(self).peers && final(self).current_order == old(self).current_order
                && final(self).nrobots == old(self).nrobots,
    {
        let ok = BullyOk { owner: self.id };
        let targets = self.leader_election();
        (ok, targets)
    }

    /// The reply to a liveness probe.
    pub fn handle_keepalive(&self) -> (m: Alive)
        ensures
            m.owner == self.id,
    {
        Alive::new(self.id)
    }

    /// Takes note of the announced leader.
    pub fn handle_coordinator(&mut self, leader: u8)
        ensures
            *final(self) == (Screen { leader, ..*old(self) }),
    {
        self.leader = leader;
    }

    /// The settlement an order's verdict demands: a ready order is
    /// committed, an aborted one is released, always under the verdict's
    /// own (order, screen) key.
    pub fn handle_orderresult(&self, result: OrderResult) -> (a: GatewayAction)
        ensures
            result.status == OrderStatus::Ready ==> a == (GatewayAction::Commit {
                order_id: result.order_id,
                owner_id: result.owner_id,
            }),
            result.status == OrderStatus::Abort ==> a == (GatewayAction::Abort {
                order_id: result.order_id,
                owner_id: result.owner_id,
            }),
    {
        match result.status {
            OrderStatus::Ready => GatewayAction::Commit {
                order_id: result.order_id,
                owner_id: result.owner_id,
            },
            OrderStatus::Abort => GatewayAction::Abort {
                order_id: result.order_id,
                owner_id: result.owner_id,
            },
        }
    }

    /// The capture that opens an order's two-phase commit: the fixed card
    /// and price, this screen as owner.
    pub fn make_capture(&self, order_id: u8) -> (a: GatewayAction)
        ensures
            a == (GatewayAction::Capture {
                order_id,
                card_number: CARDNUMBER,
                amount_bits: PRICE_BITS,
                owner_id: self.id,
            }),
    {
        GatewayAction::Capture {
            order_id,
            card_number: CARDNUMBER,
            amount_bits: PRICE_BITS,
            owner_id: self.id,
        }
    }

    /// Loads the order about to be captured and dispatched.
    pub fn set_current_order(&mut self, order: Order)
        ensures
            final(self).current_order == Some(order),
            *final(self) == (Screen {
                current_order: final(self).current_order,
                ..*old(self)
            }),
    {
        self.current_order = Some(order);
    }

    /// One step of the screen's wait loop: from the status and the
    /// datagram in hand to the actions to perform, the new probe flag, and
    /// whether the wait is over.
    pub fn listen_step(&mut self, event: ScreenIncoming, waiting_keepalive: bool) -> (r: (
        Vec<ScreenAction>,
        bool,
        bool,
    ))
        ensures
            final(self).id == old(self).id && final(self).peers == old(self).peers && final(self).current_order == old(self).current_order && final(self).nrobots == old(self).nrobots
                && final(self).resume_status == old(self).resume_status,
            event is Timeout && old(self).status == ScreenStatus::WaitingRobotResponse
                && !waiting_keepalive ==> r.0@ == seq![ScreenAction::SendKeepAliveToLeader] && r.1
                && !r.2 && *final(self) == *old(self),
            event is Timeout && old(self).status == ScreenStatus::WaitingRobotResponse
                && waiting_keepalive ==> r.0@ == seq![ScreenAction::StartElection] && !r.1 && r.2
                && *final(self) == *old(self),
            event is Timeout && old(self).status == ScreenStatus::ElectingNewLeader ==> r.0@
                == Seq::<ScreenAction>::empty() && r.2 && final(self).status
                == ScreenStatus::BeingLeader && final(self).leader == old(self).leader,
            event is Timeout && old(self).status != ScreenStatus::WaitingRobotResponse && old(self).status != ScreenStatus::ElectingNewLeader ==> r.0@ == Seq::<ScreenAction>::empty()
                && r.1 == waiting_keepalive && !r.2 && *final(self) == *old(self),
            event is BullyElectionMsg && old(self).status == ScreenStatus::WaitingGatewayResponse
                ==> r.0@ == seq![ScreenAction::ReplyBullyOk, ScreenAction::StartElection] && r.2
                && *final(self) == *old(self),
            event is BullyElectionMsg && old(self).status == ScreenStatus::WaitingRobotResponse
                ==> r.0@ == seq![ScreenAction::ReplyBullyOk, ScreenAction::StartElection] && !r.1
                && r.2 && *final(self) == *old(self),
            event is BullyElectionMsg && old(self).status == ScreenStatus::ElectingNewLeader ==> r.0@
                == seq![ScreenAction::ReplyBullyOk] && r.1 == waiting_keepalive && !r.2 && *final(self) == *old(self),
            event is BullyOkMsg && old(self).status == ScreenStatus::ElectingNewLeader ==> r.0@
                == seq![ScreenAction::AwaitCoordinator] && r.1 == waiting_keepalive && !r.2
                && *final(self) == *old(self),
            event matches ScreenIncoming::CoordinatorMsg { leader } ==> (old(self).status
                == ScreenStatus::WaitingRobotResponse ==> final(self).leader == leader && final(
                self).status == old(self).status && !r.1 && !r.2 && (old(self).current_order
                is Some ==> r.0@ == seq![ScreenAction::ResendOrderToLeader]) && (old(
                self).current_order is None ==> r.0@ == Seq::<ScreenAction>::empty())),
            event matches ScreenIncoming::CoordinatorMsg { leader } ==> (old(self).status
                == ScreenStatus::ElectingNewLeader ==> final(self).leader == leader && final(self).status == old(self).resume_status && !r.1 && (r.2 <==> !(old(self).resume_status
                == ScreenStatus::WaitingGatewayResponse || old(self).resume_status
                == ScreenStatus::WaitingRobotResponse)) && (old(self).resume_status
                == ScreenStatus::WaitingRobotResponse && old(self).current_order is Some ==> r.0@
                == seq![ScreenAction::ResendOrderToLeader]) && (!(old(self).resume_status
                == ScreenStatus::WaitingRobotResponse && old(self).current_order is Some) ==> r.0@
                == Seq::<ScreenAction>::empty())),
            event matches ScreenIncoming::GatewayResponseMsg(resp) ==> (old(self).status
                == ScreenStatus::WaitingGatewayResponse ==> r.0@ == Seq::<ScreenAction>::empty()
                && r.2 && final(self).leader == old(self).leader && (resp
                == GatewayResponse::Acknowledge ==> final(self).status
                == ScreenStatus::WaitingRobotResponse) && (resp != GatewayResponse::Acknowledge
                ==> final(self).status == ScreenStatus::ReadingOrder)),
            event matches ScreenIncoming::OrderResultMsg(result) ==> (old(self).status
                == ScreenStatus::WaitingRobotResponse ==> r.2 && *final(self) == *old(self) && (
            result.status == OrderStatus::Ready ==> r.0@ == seq![
                ScreenAction::SendGateway(
                    GatewayAction::Commit { order_id: result.order_id, owner_id: result.owner_id },
                ),
            ]) && (result.status == OrderStatus::Abort ==> r.0@ == seq![
                ScreenAction::SendGateway(
                    GatewayAction::Abort { order_id: result.order_id, owner_id: result.owner_id },
                ),
            ])),
            event is OrderResultMsg ==> (old(self).status == ScreenStatus::ElectingNewLeader
                ==> final(self).leader == old(self).leader && final(self).status == old(self).resume_status && !r.1 && (r.2 <==> !(old(self).resume_status
                == ScreenStatus::WaitingGatewayResponse || old(self).resume_status
                == ScreenStatus::WaitingRobotResponse)) && (old(self).resume_status
                == ScreenStatus::WaitingRobotResponse && old(self).current_order is Some ==> r.0@
                == seq![ScreenAction::ResendOrderToLeader]) && (!(old(self).resume_status
                == ScreenStatus::WaitingRobotResponse && old(self).current_order is Some) ==> r.0@
                == Seq::<ScreenAction>::empty())),
            event is KeepAliveMsg ==> r.0@ == seq![ScreenAction::ReplyAlive] && r.1
                == waiting_keepalive && !r.2 && *final(self) == *old(self),
            event is AliveMsg && old(self).status == ScreenStatus::WaitingRobotResponse ==> r.0@
                == Seq::<ScreenAction>::empty() && !r.1 && !r.2 && *final(self) == *old(self),
            event is OrderRequestMsg ==> r.1 == waiting_keepalive && !r.2 && *final(self) == *old(self) && (old(self).current_order is Some ==> r.0@ == seq![ScreenAction::SendCurrentOrder])
                && (old(self).current_order is None ==> r.0@ == Seq::<ScreenAction>::empty()),
            event is Other ==> r.0@ == Seq::<ScreenAction>::empty() && r.1 == waiting_keepalive
                && !r.2 && *final(self) == *old(self),
            event is BullyElectionMsg && old(self).status != ScreenStatus::WaitingGatewayResponse
                && old(self).status != ScreenStatus::WaitingRobotResponse && old(self).status
                != ScreenStatus::ElectingNewLeader ==> r.0@ == Seq::<ScreenAction>::empty() && r.1
                == waiting_keepalive && !r.2 && *final(self) == *old(self),
            event is BullyOkMsg && old(self).status != ScreenStatus::ElectingNewLeader ==> r.0@
                == Seq::<ScreenAction>::empty() && r.1 == waiting_keepalive && !r.2 && *final(self)
                == *old(self),
            event matches ScreenIncoming::CoordinatorMsg { leader } ==> (old(self).status
                != ScreenStatus::WaitingRobotResponse && old(self).status
                != ScreenStatus::ElectingNewLeader ==> r.0@ == Seq::<ScreenAction>::empty() && r.1
                == waiting_keepalive && !r.2 && *final(self) == (Screen {
                leader,
                ..*old(self)
            })),
            event is GatewayResponseMsg && old(self).status
                != ScreenStatus::WaitingGatewayResponse ==> r.0@ == Seq::<ScreenAction>::empty()
                && r.1 == waiting_keepalive && !r.2 && *final(self) == *old(self),
            event is OrderResultMsg && old(self).status != ScreenStatus::WaitingRobotResponse
                && old(self).status != ScreenStatus::ElectingNewLeader ==> r.0@ == Seq::<
                ScreenAction,
            >::empty() && r.1 == waiting_keepalive && !r.2 && *final(self) == *old(self),
            event is AliveMsg && old(self).status != ScreenStatus::WaitingRobotResponse ==> r.0@
                == Seq::<ScreenAction>::empty() && r.1 == waiting_keepalive && !r.2 && *final(self)
                == *old(self),
    {
        let mut actions: Vec<ScreenAction> = Vec::new();
        let mut waiting = waiting_keepalive;
        let mut done = false;
        match event {
            ScreenIncoming::Timeout => {
                match self.status {
                    ScreenStatus::WaitingRobotResponse => {
                        if waiting {
                            actions.push(ScreenAction::StartElection);
                            waiting = false;
                            done = true;
                        } else {
                            actions.push(ScreenAction::SendKeepAliveToLeader);
                            waiting = true;
                        }
                    },
                    ScreenStatus::ElectingNewLeader => {
                        self.status = ScreenStatus::BeingLeader;
                        done = true;
                    },
                    _ => {},
                }
            },
            ScreenIncoming::BullyElectionMsg { owner: _ } => {
                match self.status {
                    ScreenStatus::WaitingGatewayResponse => {
                        actions.push(ScreenAction::ReplyBullyOk);
                        actions.push(ScreenAction::StartElection);
                        done = true;
                    },
                    ScreenStatus::WaitingRobotResponse => {
                        actions.push(ScreenAction::ReplyBullyOk);
                        actions.push(ScreenAction::StartElection);
                        waiting = false;
                        done = true;
                    },
                    ScreenStatus::ElectingNewLeader => {
                        actions.push(ScreenAction::ReplyBullyOk);
                    },
                    _ => {},
                }
            },
            ScreenIncoming::BullyOkMsg => {
                match self.status {
                    ScreenStatus::ElectingNewLeader => {
                        actions.push(ScreenAction::AwaitCoordinator);
                    },
                    _ => {},
                }
            },
            ScreenIncoming::CoordinatorMsg { leader } => {
                match self.status {
                    ScreenStatus::WaitingRobotResponse => {
                        waiting = false;
                        self.leader = leader;
                        match &self.current_order {
                            Some(_) => {
                                actions.push(ScreenAction::ResendOrderToLeader);
                            },
                            None => {},
                        }
                    },
                    ScreenStatus::ElectingNewLeader => {
                        self.leader = leader;
                        self.status = self.resume_status;
                        waiting = false;
                        match self.status {
                            ScreenStatus::WaitingRobotResponse => {
                                match &self.current_order {
                                    Some(_) => {
                                        actions.push(ScreenAction::ResendOrderToLeader);
                                    },
                                    None => {},
                                }
                            },
                            _ => {},
                        }
                        done = !(self.status == ScreenStatus::WaitingGatewayResponse
                            || self.status == ScreenStatus::WaitingRobotResponse);
                    },
                    _ => {
                        self.leader = leader;
                    },
                }
            },
            ScreenIncoming::GatewayResponseMsg(resp) => {
                match self.status {
                    ScreenStatus::WaitingGatewayResponse => {
                        match resp {
                            GatewayResponse::Acknowledge => {
                                self.status = ScreenStatus::WaitingRobotResponse;
                            },
                            _ => {
                                self.status = ScreenStatus::ReadingOrder;
                            },
                        }
                        done = true;
                    },
                    _ => {},
                }
            },
            ScreenIncoming::OrderResultMsg(result) => {
                match self.status {
                    ScreenStatus::WaitingRobotResponse => {
                        let settle = self.handle_orderresult(result);
                        actions.push(ScreenAction::SendGateway(settle));
                        done = true;
                    },
                    ScreenStatus::ElectingNewLeader => {
                        self.status = self.resume_status;
                        waiting = false;
                        match self.status {
                            ScreenStatus::WaitingRobotResponse => {
                                match &self.current_order {
                                    Some(_) => {
                                        actions.push(ScreenAction::ResendOrderToLeader);
                                    },
                                    None => {},
                                }
                            },
                            _ => {},
                        }
                        done = !(self.status == ScreenStatus::WaitingGatewayResponse
                            || self.status == ScreenStatus::WaitingRobotResponse);
                    },
                    _ => {},
                }
            },
            ScreenIncoming::KeepAliveMsg => {
                actions.push(ScreenAction::ReplyAlive);
            },
            ScreenIncoming::AliveMsg => {
                match self.status {
                    ScreenStatus::WaitingRobotResponse => {
                        waiting = false;
                    },
                    _ => {},
                }
            },
            ScreenIncoming::OrderRequestMsg => {
                match &self.current_order {
                    Some(_) => {
                        actions.push(ScreenAction::SendCurrentOrder);
                    },
                    None => {},
                }
            },
            ScreenIncoming::Other => {},
        }
        (actions, waiting, done)
    }
}

} // verus!
