//! A resolver: the leader-side conversation partner of one robot.
//!
//! The socket waits and timeouts run outside the library; here the
//! resolver's result-wait protocol and its first contact with the robot
//! after an election are step functions with exact contracts.

use crate::coordinator::RegisterResolver;
use crate::messages::OrderResult;
use vstd::prelude::*;

verus! {

/// What the wait on the resolver's socket produced.
pub enum ResolverEvent {
    /// The robot answered a liveness probe.
    AliveReceived,
    /// The robot shipped its verdict on the order.
    OrderResultReceived(OrderResult),
    /// The wait timed out.
    TimedOut,
    /// An unrelated datagram arrived.
    UnknownDatagram,
}

/// What the resolver does next.
#[derive(Clone, Copy, Debug, PartialEq, Eq, Structural)]
pub enum ResolverStep {
    /// Keep waiting on the socket.
    KeepWaiting,
    /// Probe the robot and keep waiting.
    SendKeepAlive,
    /// The robot stayed silent after a probe: give it up for dead.
    RobotDead,
    /// Acknowledge the robot and deliver the verdict to the screen.
    AckAndDeliver(OrderResult),
}

/// What the robot answered when a new leader's resolver introduced itself.
pub enum InspectOutcome {
    /// Nothing within the wait: the robot is taken for dead.
    NoReply,
    /// The robot is serving the (screen, order) it names.
    WithOrder(u8, u8),
    /// Any other answer: the robot is free.
    OtherReply,
}

/// The resolver's wait-protocol state: its robot's id, and whether a probe
/// is outstanding.
pub struct OrderResolver {
    pub id: u8,
    pub waiting_keepalive: bool,
}

impl OrderResolver {
    /// A fresh resolver with no probe outstanding.
    pub fn new(id: u8) -> (r: OrderResolver)
        ensures
            r.id == id,
            !r.waiting_keepalive,
    {
        OrderResolver { id, waiting_keepalive: false }
    }

    /// One step of the result wait: a liveness reply clears the
    /// outstanding probe, a verdict is acknowledged and delivered, a first
    /// timeout sends a probe, a second in a row gives the robot up, and
    /// anything else is ignored.
    pub fn receive_order_result_ka(&mut self, event: ResolverEvent) -> (step: ResolverStep)
        ensures
            final(self).id == old(self).id,
            event is AliveReceived ==> step == ResolverStep::KeepWaiting && !final(self).waiting_keepalive,
            event matches ResolverEvent::OrderResultReceived(r) ==> step
                == ResolverStep::AckAndDeliver(r) && final(self).waiting_keepalive == old(self).waiting_keepalive,
            event is TimedOut && old(self).waiting_keepalive ==> step == ResolverStep::RobotDead
                && final(self).waiting_keepalive == old(self).waiting_keepalive,
            event is TimedOut && !old(self).waiting_keepalive ==> step
                == ResolverStep::SendKeepAlive && final(self).waiting_keepalive,
            event is UnknownDatagram ==> step == ResolverStep::KeepWaiting && final(self).waiting_keepalive == old(self).waiting_keepalive,
    {
        match event {
            ResolverEvent::AliveReceived => {
                self.waiting_keepalive = false;
                ResolverStep::KeepWaiting
            },
            ResolverEvent::OrderResultReceived(result) => ResolverStep::AckAndDeliver(result),
            ResolverEvent::TimedOut => {
                if self.waiting_keepalive {
                    ResolverStep::RobotDead
                } else {
                    self.waiting_keepalive = true;
                    ResolverStep::SendKeepAlive
                }
            },
            ResolverEvent::UnknownDatagram => ResolverStep::KeepWaiting,
        }
    }

    /// The registration a newly elected leader's resolver files after
    /// introducing itself: a silent robot registers as busy with no order,
    /// a busy robot registers with its order, and any other answer
    /// registers it free.
    pub fn register_after_inspect(&self, outcome: InspectOutcome) -> (r: RegisterResolver)
        ensures
            r.resolver_id == self.id,
            outcome is NoReply ==> !r.robot_availability && r.order is None,
            outcome matches InspectOutcome::WithOrder(screen, order) ==> !r.robot_availability
                && r.order == Some((screen, order)),
            outcome is OtherReply ==> r.robot_availability && r.order is None,
    {
        match outcome {
            InspectOutcome::NoReply => RegisterResolver {
                resolver_id: self.id,
                robot_availability: false,
                order: None,
            },
            InspectOutcome::WithOrder(screen, order) => RegisterResolver {
                resolver_id: self.id,
                robot_availability: false,
                order: Some((screen, order)),
            },
            InspectOutcome::OtherReply => RegisterResolver {
                resolver_id: self.id,
                robot_availability: true,
                order: None,
            },
        }
    }
}

} // verus!
