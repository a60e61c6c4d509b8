//! The leader-side coordinator: assigns orders to robots through their
//! resolvers, tracks which robots are free, and survives robot death and
//! leader takeover.
//!
//! The actor plumbing around it lives outside the library; here the
//! coordinator is a plain state machine whose steps say exactly which robot,
//! if any, an order goes to.  An order already recorded as being worked on
//! is never dispatched again: that is what keeps a leader takeover from
//! double-assigning.

use crate::icecream::IceCream;
use vstd::prelude::*;

verus! {

/// What the leader believes about a robot's availability.
#[derive(Clone, Copy, Debug, PartialEq, Eq, Structural)]
pub enum RobotStatus {
    Unknown,
    Available,
    Disavailable,
}

/// An order as the coordinator carries it: the owning screen, the screen's
/// order number, and the required amount encoding per flavour.
#[derive(Clone, Debug)]
pub struct OrderActorMessage {
    pub screen_owner: u8,
    pub order_id: u8,
    pub items: Vec<(IceCream, u32)>,
}

/// Whether two carried orders agree in every field.
pub open spec fn spec_same_order(a: OrderActorMessage, b: OrderActorMessage) -> bool {
    a.screen_owner == b.screen_owner && a.order_id == b.order_id && a.items@ == b.items@
}

impl OrderActorMessage {
    /// An identical copy, field for field.
    pub fn duplicate(&self) -> (c: OrderActorMessage)
        ensures
            spec_same_order(c, *self),
    {
        let mut items: Vec<(IceCream, u32)> = Vec::new();
        let mut i: usize = 0;
        while i < self.items.len()
            invariant
                i <= self.items@.len(),
                items@ == self.items@.take(i as int),
            decreases self.items@.len() - i,
        {
            items.push(self.items[i]);
            proof {
                assert(self.items@.take(i + 1) =~= self.items@.take(i as int) + seq![
                    self.items@[i as int],
                ]);
            }
            i = i + 1;
        }
        proof {
            assert(self.items@.take(self.items@.len() as int) =~= self.items@);
        }
        let c = OrderActorMessage {
            screen_owner: self.screen_owner,
            order_id: self.order_id,
            items,
        };
        c
    }
}

/// A resolver's registration with the coordinator: which robot it speaks
/// for, whether that robot is free, and the order the robot was already
/// serving under the previous leader, if any.
pub struct RegisterResolver {
    pub resolver_id: u8,
    pub robot_availability: bool,
    pub order: Option<(u8, u8)>,
}

/// The instruction to keep listening for a robot's result for an order it
/// was already serving.
pub struct ListenRobot {
    pub order: (u8, u8),
}

/// Whether `keys` holds the (screen, order) key.
pub open spec fn spec_has_order_key(keys: Seq<(u8, u8)>, key: (u8, u8)) -> bool {
    exists|i: int| 0 <= i < keys.len() && keys[i] == key
}

/// The availability recorded for a robot, if it is registered.
pub open spec fn spec_robot_available(states: Seq<(u8, bool)>, robot_id: u8) -> Option<bool>
    decreases states.len(),
{
    if states.len() == 0 {
        None
    } else if states[0].0 == robot_id {
        Some(states[0].1)
    } else {
        spec_robot_available(states.skip(1), robot_id)
    }
}

/// The robot states with `robot_id` marked `available`.
pub open spec fn spec_mark_robot(states: Seq<(u8, bool)>, robot_id: u8, available: bool) -> Seq<
    (u8, bool),
> {
    states.map_values(
        |row: (u8, bool)|
            if row.0 == robot_id {
                (row.0, available)
            } else {
                row
            },
    )
}

/// The first robot recorded as free, scanning the table in registration
/// order; this is the robot an order is handed to.
pub open spec fn spec_first_available(states: Seq<(u8, bool)>) -> Option<u8>
    decreases states.len(),
{
    if states.len() == 0 {
        None
    } else if states[0].1 {
        Some(states[0].0)
    } else {
        spec_first_available(states.skip(1))
    }
}

/// The robot table with `robot_id`'s row taken out.
pub open spec fn spec_remove_robot(states: Seq<(u8, bool)>, robot_id: u8) -> Seq<(u8, bool)> {
    states.filter(|row: (u8, bool)| row.0 != robot_id)
}

/// The key table with `key` taken out.
pub open spec fn spec_remove_order_key(keys: Seq<(u8, u8)>, key: (u8, u8)) -> Seq<(u8, u8)> {
    keys.filter(|k: (u8, u8)| k != key)
}

/// The key table with `key` recorded once.
pub open spec fn spec_insert_order_key(keys: Seq<(u8, u8)>, key: (u8, u8)) -> Seq<(u8, u8)> {
    if spec_has_order_key(keys, key) {
        keys
    } else {
        keys.push(key)
    }
}

/// The robot table with `robot_id` recorded at `available`: marked in
/// place when already registered, appended otherwise.
pub open spec fn spec_upsert_robot(
    states: Seq<(u8, bool)>,
    robot_id: u8,
    available: bool,
) -> Seq<(u8, bool)> {
    if spec_robot_available(states, robot_id) is Some {
        spec_mark_robot(states, robot_id, available)
    } else {
        states.push((robot_id, available))
    }
}

/// The one-time queue walk once the last resolver has registered, taking
/// `rounds` heads in turn: an order being worked on is re-queued, the rest
/// go to the first free robot, or back on the queue when every robot is
/// busy.  The result is the robot table, the queue, and the dispatch list
/// the walk leaves behind.
pub open spec fn spec_drain(
    fulfilled: Seq<(u8, u8)>,
    states: Seq<(u8, bool)>,
    queue: Seq<OrderActorMessage>,
    rounds: nat,
) -> (Seq<(u8, bool)>, Seq<OrderActorMessage>, Seq<(u8, OrderActorMessage)>)
    decreases rounds,
{
    if rounds == 0 || queue.len() == 0 {
        (states, queue, Seq::empty())
    } else {
        let head = queue[0];
        let rest = queue.skip(1);
        if spec_has_order_key(fulfilled, (head.screen_owner, head.order_id)) {
            spec_drain(fulfilled, states, rest.push(head), (rounds - 1) as nat)
        } else {
            match spec_first_available(states) {
                Some(id) => {
                    let tail = spec_drain(
                        fulfilled,
                        spec_mark_robot(states, id, false),
                        rest,
                        (rounds - 1) as nat,
                    );
                    (tail.0, tail.1, seq![(id, head)] + tail.2)
                },
                None => spec_drain(fulfilled, states, rest.push(head), (rounds - 1) as nat),
            }
        }
    }
}

/// The coordinator's state: the orders being worked on, each robot's
/// availability, the queue of orders awaiting a free robot, and the count
/// of resolvers still to register before the first dispatch.
pub struct OrderCoordinator {
    /// The (screen, order) keys currently being worked on.
    pub fulfilled_orders: Vec<(u8, u8)>,
    /// Per robot: whether it is free to take an order.
    pub robot_states: Vec<(u8, bool)>,
    /// Orders awaiting a free robot, oldest first.
    pub pending_orders: Vec<OrderActorMessage>,
    /// Resolvers still to register; dispatch is gated until this reaches
    /// zero.
    pub nresolvers: u8,
}

impl OrderCoordinator {
    /// No robot is registered twice and no key is recorded twice.
    pub open spec fn wf(self) -> bool {
        &&& forall|i: int, j: int|
            0 <= i < j < self.robot_states@.len() ==> (#[trigger] self.robot_states@[i]).0 != (
            #[trigger] self.robot_states@[j]).0
        &&& forall|i: int, j: int|
            0 <= i < j < self.fulfilled_orders@.len() ==> (#[trigger] self.fulfilled_orders@[i])
                != (#[trigger] self.fulfilled_orders@[j])
    }

    /// A fresh coordinator awaiting its resolvers.
    pub fn new(nresolvers: u8) -> (c: OrderCoordinator)
        ensures
            c.wf(),
            c.fulfilled_orders@.len() == 0,
            c.robot_states@.len() == 0,
            c.pending_orders@.len() == 0,
            c.nresolvers == nresolvers,
    {
        OrderCoordinator {
            fulfilled_orders: Vec::new(),
            robot_states: Vec::new(),
            pending_orders: Vec::new(),
            nresolvers,
        }
    }

    /// Tries to hand an order to a free robot.  An order already being
    /// worked on is dropped; otherwise some free robot takes it and is
    /// marked busy, or, with every robot busy, the order joins the queue.
    pub fn assign_order(&mut self, order: OrderActorMessage) -> (r: Option<u8>)
        requires
            old(self).wf(),
        ensures
            final(self).wf(),
            final(self).fulfilled_orders == old(self).fulfilled_orders,
            final(self).nresolvers == old(self).nresolvers,
            spec_has_order_key(
                old(self).fulfilled_orders@,
                (order.screen_owner, order.order_id),
            ) ==> r is None && final(self).robot_states == old(self).robot_states && final(self).pending_orders == old(self).pending_orders,
            !spec_has_order_key(
                old(self).fulfilled_orders@,
                (order.screen_owner, order.order_id),
            ) ==> ({
                &&& r == spec_first_available(old(self).robot_states@)
                &&& (r matches Some(id) ==> spec_robot_available(old(self).robot_states@, id)
                    == Some(true) && final(self).robot_states@ == spec_mark_robot(
                    old(self).robot_states@,
                    id,
                    false,
                ) && final(self).pending_orders == old(self).pending_orders)
                &&& (r is None ==> (forall|i: int|
                    0 <= i < old(self).robot_states@.len() ==> !(
                    #[trigger] old(self).robot_states@[i]).1) && final(self).robot_states == old(self).robot_states && final(self).pending_orders@ == old(self).pending_orders@.push(
                    order,
                ))
            }),
    {
        if self.find_fulfilled(order.screen_owner, order.order_id) {
            return None;
        }
        match self.find_first_available() {
            Some(id) => {
                proof {
                    lemma_first_available_is_available(self.robot_states@);
                }
                self.mark_robot(id, false);
                Some(id)
            },
            None => {
                proof {
                    lemma_none_available_means_all_busy(self.robot_states@);
                }
                self.pending_orders.push(order);
                None
            },
        }
    }

    /// The first robot recorded as free, in registration order.
    fn find_first_available(&self) -> (r: Option<u8>)
        ensures
            r == spec_first_available(self.robot_states@),
    {
        proof {
            assert(self.robot_states@.skip(0) =~= self.robot_states@);
        }
        let mut i: usize = 0;
        while i < self.robot_states.len()
            invariant
                i <= self.robot_states@.len(),
                spec_first_available(self.robot_states@) == spec_first_available(
                    self.robot_states@.skip(i as int),
                ),
            decreases self.robot_states@.len() - i,
        {
            proof {
                assert(self.robot_states@.skip(i as int)[0] == self.robot_states@[i as int]);
                assert(self.robot_states@.skip(i as int).skip(1) =~= self.robot_states@.skip(
                    i + 1,
                ));
            }
            let (rid, avail) = self.robot_states[i];
            if avail {
                return Some(rid);
            }
            i = i + 1;
        }
        proof {
            assert(self.robot_states@.skip(self.robot_states@.len() as int).len() == 0);
        }
        None
    }

    /// Marks a returning robot free, clears its finished order, and hands
    /// the oldest queued order to the first free robot.  A popped head
    /// whose key is still being worked on is a duplicate submission and is
    /// dropped.
    pub fn free_robot(&mut self, robot_id: u8, finished: (u8, u8)) -> (r: Option<
        (u8, OrderActorMessage),
    >)
        requires
            old(self).wf(),
        ensures
            final(self).wf(),
            final(self).nresolvers == old(self).nresolvers,
            final(self).fulfilled_orders@ == spec_remove_order_key(
                old(self).fulfilled_orders@,
                finished,
            ),
            !spec_has_order_key(final(self).fulfilled_orders@, finished),
            spec_robot_available(old(self).robot_states@, robot_id) is None ==> final(self).robot_states == old(self).robot_states && final(self).pending_orders == old(self).pending_orders && r is None,
            spec_robot_available(old(self).robot_states@, robot_id) is Some ==> ({
                let freed = spec_mark_robot(old(self).robot_states@, robot_id, true);
                &&& (old(self).pending_orders@.len() == 0 ==> final(self).robot_states@ == freed
                    && final(self).pending_orders == old(self).pending_orders && r is None)
                &&& (old(self).pending_orders@.len() >= 1 ==> ({
                    let head = old(self).pending_orders@[0];
                    &&& final(self).pending_orders@ == old(self).pending_orders@.skip(1)
                    &&& (spec_has_order_key(
                        final(self).fulfilled_orders@,
                        (head.screen_owner, head.order_id),
                    ) ==> r is None && final(self).robot_states@ == freed)
                    &&& (!spec_has_order_key(
                        final(self).fulfilled_orders@,
                        (head.screen_owner, head.order_id),
                    ) ==> (r matches Some((id, o)) && o == head && Some(id)
                        == spec_first_available(freed) && final(self).robot_states@
                        == spec_mark_robot(freed, id, false)))
                }))
            }),
    {
        self.remove_fulfilled(finished.0, finished.1);
        if !self.find_robot(robot_id) {
            return None;
        }
        self.mark_robot(robot_id, true);
        if self.pending_orders.len() == 0 {
            return None;
        }
        let ghost freed = self.robot_states@;
        let order = self.pending_orders.remove(0);
        proof {
            assert(old(self).pending_orders@.remove(0) =~= old(self).pending_orders@.skip(1));
        }
        if self.find_fulfilled(order.screen_owner, order.order_id) {
            return None;
        }
        match self.find_first_available() {
            Some(id) => {
                proof {
                    lemma_first_available_is_available(freed);
                }
                self.mark_robot(id, false);
                Some((id, order))
            },
            None => {
                proof {
                    lemma_none_available_means_all_busy(freed);
                    lemma_available_means_present(old(self).robot_states@, robot_id);
                    let w = choose|w: int|
                        0 <= w < old(self).robot_states@.len() && (#[trigger] old(self).robot_states@[w]).0 == robot_id;
                    assert(freed[w] == (robot_id, true));
                    assert(false);
                }
                None
            },
        }
    }

    /// Evicts a dead robot, forgets that its order was being worked on, and
    /// hands the order back to assignment: the first free robot takes it,
    /// or it joins the queue, so a robot death never loses an accepted
    /// order.
    pub fn handle_robot_failure(&mut self, robot_id: u8, order: OrderActorMessage) -> (r: Option<
        u8,
    >)
        requires
            old(self).wf(),
        ensures
            final(self).wf(),
            final(self).nresolvers == old(self).nresolvers,
            spec_robot_available(final(self).robot_states@, robot_id) is None,
            final(self).fulfilled_orders@ == spec_remove_order_key(
                old(self).fulfilled_orders@,
                (order.screen_owner, order.order_id),
            ),
            !spec_has_order_key(
                final(self).fulfilled_orders@,
                (order.screen_owner, order.order_id),
            ),
            ({
                let evicted = spec_remove_robot(old(self).robot_states@, robot_id);
                &&& r == spec_first_available(evicted)
                &&& (r matches Some(id) ==> id != robot_id && spec_robot_available(evicted, id)
                    == Some(true) && final(self).robot_states@ == spec_mark_robot(
                    evicted,
                    id,
                    false,
                ) && final(self).pending_orders == old(self).pending_orders)
                &&& (r is None ==> final(self).robot_states@ == evicted && final(self).pending_orders@ == old(self).pending_orders@.push(order))
            }),
    {
        self.remove_robot(robot_id);
        self.remove_fulfilled(order.screen_owner, order.order_id);
        let ghost evicted = self.robot_states@;
        let r = self.assign_order(order);
        proof {
            match r {
                Some(id) => {
                    assert(spec_robot_available(evicted, robot_id) is None);
                    assert(spec_robot_available(evicted, id) == Some(true));
                    lemma_mark_keeps_absence(evicted, id, false, robot_id);
                },
                None => {},
            }
        }
        r
    }

    /// An order arriving from a screen: dispatched at once when every
    /// resolver has registered, queued otherwise.
    pub fn handle_order_message(&mut self, order: OrderActorMessage) -> (r: Option<u8>)
        requires
            old(self).wf(),
        ensures
            final(self).wf(),
            final(self).nresolvers == old(self).nresolvers,
            final(self).fulfilled_orders == old(self).fulfilled_orders,
            old(self).nresolvers != 0 ==> r is None && final(self).pending_orders@ == old(self).pending_orders@.push(order) && final(self).robot_states == old(self).robot_states,
            old(self).nresolvers == 0 && spec_has_order_key(
                old(self).fulfilled_orders@,
                (order.screen_owner, order.order_id),
            ) ==> r is None && final(self).robot_states == old(self).robot_states && final(self).pending_orders == old(self).pending_orders,
            old(self).nresolvers == 0 && !spec_has_order_key(
                old(self).fulfilled_orders@,
                (order.screen_owner, order.order_id),
            ) ==> ({
                &&& (r matches Some(id) ==> spec_robot_available(old(self).robot_states@, id)
                    == Some(true) && final(self).robot_states@ == spec_mark_robot(
                    old(self).robot_states@,
                    id,
                    false,
                ) && final(self).pending_orders == old(self).pending_orders)
                &&& (r is None ==> final(self).robot_states == old(self).robot_states && final(self).pending_orders@ == old(self).pending_orders@.push(order))
            }),
    {
        if self.nresolvers == 0 {
            self.assign_order(order)
        } else {
            self.pending_orders.push(order);
            None
        }
    }

    /// A resolver registers its robot.  An order the robot was already
    /// serving is recorded as being worked on before anything is
    /// dispatched; when the last resolver registers, the queue is walked
    /// once, exactly as the drain function says: every order not being
    /// worked on is offered to the first free robot, the rest are
    /// re-queued.  Nothing dispatched is among the orders recorded as
    /// being worked on.
    pub fn register_resolver(&mut self, msg: RegisterResolver) -> (r: (
        bool,
        Vec<(u8, OrderActorMessage)>,
    ))
        requires
            old(self).wf(),
            old(self).nresolvers >= 1,
        ensures
            final(self).wf(),
            final(self).nresolvers == old(self).nresolvers - 1,
            r.0 == (msg.order is Some),
            final(self).fulfilled_orders@ == (match msg.order {
                Some(key) => spec_insert_order_key(old(self).fulfilled_orders@, key),
                None => old(self).fulfilled_orders@,
            }),
            msg.order matches Some(key) ==> spec_has_order_key(final(self).fulfilled_orders@, key),
            spec_robot_available(final(self).robot_states@, msg.resolver_id) is Some,
            old(self).nresolvers >= 2 ==> r.1@.len() == 0 && final(self).pending_orders == old(self).pending_orders && final(self).robot_states@ == spec_upsert_robot(
                old(self).robot_states@,
                msg.resolver_id,
                msg.robot_availability,
            ),
            old(self).nresolvers == 1 ==> ({
                let drained = spec_drain(
                    final(self).fulfilled_orders@,
                    spec_upsert_robot(
                        old(self).robot_states@,
                        msg.resolver_id,
                        msg.robot_availability,
                    ),
                    old(self).pending_orders@,
                    old(self).pending_orders@.len(),
                );
                &&& final(self).robot_states@ == drained.0
                &&& final(self).pending_orders@ == drained.1
                &&& r.1@ == drained.2
            }),
            forall|i: int|
                0 <= i < r.1@.len() ==> !spec_has_order_key(
                    final(self).fulfilled_orders@,
                    ((#[trigger] r.1@[i]).1.screen_owner, r.1@[i].1.order_id),
                ),
    {
        self.nresolvers = self.nresolvers - 1;
        self.upsert_robot(msg.resolver_id, msg.robot_availability);
        let listen = match msg.order {
            Some(key) => {
                self.insert_fulfilled(key.0, key.1);
                true
            },
            None => false,
        };
        let ghost settled = self.fulfilled_orders@;
        let ghost registered = self.robot_states@;
        let ghost nres = self.nresolvers;
        let mut dispatches: Vec<(u8, OrderActorMessage)> = Vec::new();
        if self.nresolvers == 0 {
            let rounds = self.pending_orders.len();
            let ghost q0 = self.pending_orders@;
            let ghost target = spec_drain(settled, registered, q0, rounds as nat);
            let mut round: usize = 0;
            while round < rounds
                invariant
                    round <= rounds,
                    self.wf(),
                    self.nresolvers == nres,
                    self.fulfilled_orders@ == settled,
                    spec_robot_available(self.robot_states@, msg.resolver_id) is Some,
                    target == ({
                        let d = spec_drain(
                            settled,
                            self.robot_states@,
                            self.pending_orders@,
                            (rounds - round) as nat,
                        );
                        (d.0, d.1, dispatches@ + d.2)
                    }),
                    forall|i: int|
                        0 <= i < dispatches@.len() ==> !spec_has_order_key(
                            self.fulfilled_orders@,
                            (
                                (#[trigger] dispatches@[i]).1.screen_owner,
                                dispatches@[i].1.order_id,
                            ),
                        ),
                decreases rounds - round,
            {
                let ghost k = (rounds - round) as nat;
                let ghost states_here = self.robot_states@;
                let ghost queue_here = self.pending_orders@;
                if self.pending_orders.len() == 0 {
                    proof {
                        assert(spec_drain(settled, states_here, queue_here, k) == (
                            states_here,
                            queue_here,
                            Seq::<(u8, OrderActorMessage)>::empty(),
                        ));
                        assert(spec_drain(settled, states_here, queue_here, (k - 1) as nat) == (
                            states_here,
                            queue_here,
                            Seq::<(u8, OrderActorMessage)>::empty(),
                        ));
                    }
                } else {
                    let order = self.pending_orders.remove(0);
                    proof {
                        assert(queue_here.remove(0) =~= queue_here.skip(1));
                    }
                    if self.find_fulfilled(order.screen_owner, order.order_id) {
                        self.pending_orders.push(order);
                        proof {
                            assert(spec_drain(settled, states_here, queue_here, k) == spec_drain(
                                settled,
                                states_here,
                                queue_here.skip(1).push(queue_here[0]),
                                (k - 1) as nat,
                            ));
                        }
                    } else {
                        match self.find_first_available() {
                            Some(id) => {
                                proof {
                                    lemma_first_available_is_available(states_here);
                                    lemma_mark_keeps_presence(
                                        states_here,
                                        id,
                                        false,
                                        msg.resolver_id,
                                    );
                                }
                                self.mark_robot(id, false);
                                let ghost dbefore = dispatches@;
                                dispatches.push((id, order));
                                proof {
                                    let tail = spec_drain(
                                        settled,
                                        spec_mark_robot(states_here, id, false),
                                        queue_here.skip(1),
                                        (k - 1) as nat,
                                    );
                                    assert(spec_drain(settled, states_here, queue_here, k) == (
                                        tail.0,
                                        tail.1,
                                        seq![(id, queue_here[0])] + tail.2,
                                    ));
                                    assert(dbefore + (seq![(id, queue_here[0])] + tail.2)
                                        =~= dispatches@ + tail.2);
                                }
                            },
                            None => {
                                self.pending_orders.push(order);
                                proof {
                                    assert(spec_drain(settled, states_here, queue_here, k)
                                        == spec_drain(
                                        settled,
                                        states_here,
                                        queue_here.skip(1).push(queue_here[0]),
                                        (k - 1) as nat,
                                    ));
                                }
                            },
                        }
                    }
                }
                round = round + 1;
            }
            proof {
                assert(spec_drain(settled, self.robot_states@, self.pending_orders@, 0) == (
                    self.robot_states@,
                    self.pending_orders@,
                    Seq::<(u8, OrderActorMessage)>::empty(),
                ));
                assert(dispatches@ + Seq::<(u8, OrderActorMessage)>::empty() =~= dispatches@);
            }
        }
        (listen, dispatches)
    }

    /// Whether the (screen, order) key is recorded as being worked on.
    fn find_fulfilled(&self, screen: u8, order: u8) -> (found: bool)
        ensures
            found == spec_has_order_key(self.fulfilled_orders@, (screen, order)),
    {
        let mut i: usize = 0;
        while i < self.fulfilled_orders.len()
            invariant
                i <= self.fulfilled_orders@.len(),
                forall|j: int| 0 <= j < i ==> #[trigger] self.fulfilled_orders@[j] != (
                    screen,
                    order,
                ),
            decreases self.fulfilled_orders@.len() - i,
        {
            let (s, o) = self.fulfilled_orders[i];
            if s == screen && o == order {
                return true;
            }
            i = i + 1;
        }
        false
    }

    /// Records a (screen, order) key as being worked on, once.
    fn insert_fulfilled(&mut self, screen: u8, order: u8)
        requires
            old(self).wf(),
        ensures
            final(self).wf(),
            final(self).fulfilled_orders@ == spec_insert_order_key(
                old(self).fulfilled_orders@,
                (screen, order),
            ),
            spec_has_order_key(final(self).fulfilled_orders@, (screen, order)),
            final(self).robot_states == old(self).robot_states,
            final(self).pending_orders == old(self).pending_orders,
            final(self).nresolvers == old(self).nresolvers,
            forall|key: (u8, u8)|
                spec_has_order_key(old(self).fulfilled_orders@, key) ==> spec_has_order_key(
                    final(self).fulfilled_orders@,
                    key,
                ),
    {
        if !self.find_fulfilled(screen, order) {
            let ghost before = self.fulfilled_orders@;
            self.fulfilled_orders.push((screen, order));
            proof {
                assert(self.fulfilled_orders@[before.len() as int] == (screen, order));
                assert forall|key: (u8, u8)|
                    spec_has_order_key(before, key) implies spec_has_order_key(
                    self.fulfilled_orders@,
                    key,
                ) by {
                    let w = choose|w: int| 0 <= w < before.len() && before[w] == key;
                    assert(self.fulfilled_orders@[w] == key);
                }
            }
        }
    }

    /// Forgets a (screen, order) key.
    fn remove_fulfilled(&mut self, screen: u8, order: u8)
        requires
            old(self).wf(),
        ensures
            final(self).wf(),
            final(self).fulfilled_orders@ == spec_remove_order_key(
                old(self).fulfilled_orders@,
                (screen, order),
            ),
            !spec_has_order_key(final(self).fulfilled_orders@, (screen, order)),
            final(self).robot_states == old(self).robot_states,
            final(self).pending_orders == old(self).pending_orders,
            final(self).nresolvers == old(self).nresolvers,
    {
        let ghost orig = self.fulfilled_orders@;
        let mut kept: Vec<(u8, u8)> = Vec::new();
        let mut i: usize = 0;
        while i < self.fulfilled_orders.len()
            invariant
                i <= orig.len(),
                self.fulfilled_orders@ == orig,
                forall|a: int, b: int|
                    0 <= a < b < orig.len() ==> #[trigger] orig[a] != #[trigger] orig[b],
                kept@.len() <= i,
                kept@ == spec_remove_order_key(orig.take(i as int), (screen, order)),
                forall|j: int| 0 <= j < kept@.len() ==> #[trigger] kept@[j] != (screen, order),
                forall|j: int|
                    0 <= j < kept@.len() ==> exists|w: int|
                        0 <= w < i && #[trigger] kept@[j] == orig[w],
                forall|j1: int, j2: int|
                    0 <= j1 < j2 < kept@.len() ==> #[trigger] kept@[j1] != #[trigger] kept@[j2],
            decreases orig.len() - i,
        {
            let (s, o) = self.fulfilled_orders[i];
            proof {
                assert(orig.take(i + 1).drop_last() =~= orig.take(i as int));
                assert(orig.take(i + 1).last() == orig[i as int]);
                reveal_with_fuel(Seq::filter, 2);
            }
            if !(s == screen && o == order) {
                let ghost kbefore = kept@;
                kept.push((s, o));
                proof {
                    assert forall|j1: int, j2: int|
                        0 <= j1 < j2 < kept@.len() implies #[trigger] kept@[j1] != #[trigger] kept@[j2] by {
                        if j2 == kept@.len() - 1 {
                            let w = choose|w: int| 0 <= w < i && #[trigger] kbefore[j1] == orig[w];
                            if orig[w] == orig[i as int] {
                                lemma_distinct_keys(orig, w, i as int);
                            }
                        }
                    }
                }
            }
            proof {
                assert(kept@ =~= spec_remove_order_key(orig.take(i + 1), (screen, order)));
            }
            i = i + 1;
        }
        proof {
            assert(orig.take(orig.len() as int) =~= orig);
        }
        self.fulfilled_orders = kept;
    }

    /// Whether a robot is registered.
    fn find_robot(&self, robot_id: u8) -> (found: bool)
        ensures
            found == (spec_robot_available(self.robot_states@, robot_id) is Some),
    {
        proof {
            assert(self.robot_states@.skip(0) =~= self.robot_states@);
        }
        let mut i: usize = 0;
        while i < self.robot_states.len()
            invariant
                i <= self.robot_states@.len(),
                spec_robot_available(self.robot_states@, robot_id) == spec_robot_available(
                    self.robot_states@.skip(i as int),
                    robot_id,
                ),
            decreases self.robot_states@.len() - i,
        {
            proof {
                assert(self.robot_states@.skip(i as int)[0] == self.robot_states@[i as int]);
                assert(self.robot_states@.skip(i as int).skip(1) =~= self.robot_states@.skip(
                    i + 1,
                ));
            }
            if self.robot_states[i].0 == robot_id {
                return true;
            }
            i = i + 1;
        }
        proof {
            assert(self.robot_states@.skip(self.robot_states@.len() as int).len() == 0);
        }
        false
    }

    /// Marks a registered robot's availability.
    fn mark_robot(&mut self, robot_id: u8, available: bool)
        requires
            old(self).wf(),
        ensures
            final(self).wf(),
            final(self).robot_states@ == spec_mark_robot(
                old(self).robot_states@,
                robot_id,
                available,
            ),
            final(self).fulfilled_orders == old(self).fulfilled_orders,
            final(self).pending_orders == old(self).pending_orders,
            final(self).nresolvers == old(self).nresolvers,
    {
        let ghost states = self.robot_states@;
        let mut marked: Vec<(u8, bool)> = Vec::new();
        let mut k: usize = 0;
        while k < self.robot_states.len()
            invariant
                k <= self.robot_states@.len(),
                self.robot_states@ == states,
                marked@ == spec_mark_robot(states.take(k as int), robot_id, available),
                self.fulfilled_orders == old(self).fulfilled_orders,
                self.pending_orders == old(self).pending_orders,
                self.nresolvers == old(self).nresolvers,
            decreases self.robot_states@.len() - k,
        {
            let (rid, avail) = self.robot_states[k];
            if rid == robot_id {
                marked.push((rid, available));
            } else {
                marked.push((rid, avail));
            }
            proof {
                assert(marked@ =~= spec_mark_robot(states.take(k + 1), robot_id, available));
            }
            k = k + 1;
        }
        proof {
            assert(states.take(states.len() as int) =~= states);
        }
        self.robot_states = marked;
        proof {
            assert forall|i2: int, j2: int|
                0 <= i2 < j2 < self.robot_states@.len() implies (
            #[trigger] self.robot_states@[i2]).0 != (#[trigger] self.robot_states@[j2]).0 by {
                assert(states[i2].0 != states[j2].0);
            }
        }
    }

    /// Registers a robot's availability, replacing any earlier record.
    fn upsert_robot(&mut self, robot_id: u8, available: bool)
        requires
            old(self).wf(),
        ensures
            final(self).wf(),
            final(self).robot_states@ == spec_upsert_robot(
                old(self).robot_states@,
                robot_id,
                available,
            ),
            spec_robot_available(final(self).robot_states@, robot_id) is Some,
            final(self).fulfilled_orders == old(self).fulfilled_orders,
            final(self).pending_orders == old(self).pending_orders,
            final(self).nresolvers == old(self).nresolvers,
    {
        if self.find_robot(robot_id) {
            self.mark_robot(robot_id, available);
            proof {
                lemma_mark_keeps_presence(old(self).robot_states@, robot_id, available, robot_id);
            }
        } else {
            let ghost before = self.robot_states@;
            proof {
                lemma_lookup_none_means_absent(before, robot_id);
            }
            self.robot_states.push((robot_id, available));
            proof {
                lemma_lookup_appended(before, robot_id, available);
                assert forall|i2: int, j2: int|
                    0 <= i2 < j2 < self.robot_states@.len() implies (
                #[trigger] self.robot_states@[i2]).0 != (#[trigger] self.robot_states@[j2]).0 by {
                    if j2 == self.robot_states@.len() - 1 {
                        if before[i2].0 == robot_id {
                            lemma_present_means_lookup_some(before, i2);
                        }
                    }
                }
            }
        }
    }

    /// Evicts a robot.
    fn remove_robot(&mut self, robot_id: u8)
        requires
            old(self).wf(),
        ensures
            final(self).wf(),
            final(self).robot_states@ == spec_remove_robot(old(self).robot_states@, robot_id),
            spec_robot_available(final(self).robot_states@, robot_id) is None,
            final(self).fulfilled_orders == old(self).fulfilled_orders,
            final(self).pending_orders == old(self).pending_orders,
            final(self).nresolvers == old(self).nresolvers,
    {
        let ghost orig = self.robot_states@;
        let mut kept: Vec<(u8, bool)> = Vec::new();
        let mut i: usize = 0;
        while i < self.robot_states.len()
            invariant
                i <= orig.len(),
                self.robot_states@ == orig,
                kept@ == spec_remove_robot(orig.take(i as int), robot_id),
                forall|a: int, b: int|
                    0 <= a < b < orig.len() ==> (#[trigger] orig[a]).0 != (#[trigger] orig[b]).0,
                forall|j: int| 0 <= j < kept@.len() ==> (#[trigger] kept@[j]).0 != robot_id,
                forall|j: int|
                    0 <= j < kept@.len() ==> exists|w: int|
                        0 <= w < i && #[trigger] kept@[j] == orig[w],
                forall|j1: int, j2: int|
                    0 <= j1 < j2 < kept@.len() ==> (#[trigger] kept@[j1]).0 != (
                    #[trigger] kept@[j2]).0,
            decreases orig.len() - i,
        {
            let (rid, avail) = self.robot_states[i];
            proof {
                assert(orig.take(i + 1).drop_last() =~= orig.take(i as int));
                assert(orig.take(i + 1).last() == orig[i as int]);
                reveal_with_fuel(Seq::filter, 2);
            }
            if rid != robot_id {
                let ghost kbefore = kept@;
                kept.push((rid, avail));
                proof {
                    assert forall|j1: int, j2: int|
                        0 <= j1 < j2 < kept@.len() implies (#[trigger] kept@[j1]).0 != (
                    #[trigger] kept@[j2]).0 by {
                        if j2 == kept@.len() - 1 {
                            let w = choose|w: int| 0 <= w < i && #[trigger] kbefore[j1] == orig[w];
                            if orig[w].0 == orig[i as int].0 {
                                lemma_distinct_robot_keys(orig, w, i as int);
                            }
                        }
                    }
                }
            }
            proof {
                assert(kept@ =~= spec_remove_robot(orig.take(i + 1), robot_id));
            }
            i = i + 1;
        }
        proof {
            assert(orig.take(orig.len() as int) =~= orig);
        }
        self.robot_states = kept;
        proof {
            lemma_absent_means_lookup_none(self.robot_states@, robot_id);
        }
    }
}

/// A key that some row holds is found by the lookup.
proof fn lemma_present_means_lookup_some(states: Seq<(u8, bool)>, i: int)
    requires
        0 <= i < states.len(),
    ensures
        spec_robot_available(states, states[i].0) is Some,
    decreases states.len(),
{
    if states[0].0 != states[i].0 {
        lemma_present_means_lookup_some(states.skip(1), i - 1);
        assert(states.skip(1)[i - 1] == states[i]);
    }
}

/// A key that the lookup finds is held by some row.
proof fn lemma_available_means_present(states: Seq<(u8, bool)>, id: u8)
    requires
        spec_robot_available(states, id) is Some,
    ensures
        exists|i: int| 0 <= i < states.len() && (#[trigger] states[i]).0 == id,
    decreases states.len(),
{
    if states.len() > 0 {
        if states[0].0 == id {
            assert(states[0].0 == id);
        } else {
            lemma_available_means_present(states.skip(1), id);
            let w = choose|w: int|
                0 <= w < states.skip(1).len() && (#[trigger] states.skip(1)[w]).0 == id;
            assert(states[w + 1].0 == id);
        }
    }
}

/// A key that no row holds is missed by the lookup.
proof fn lemma_absent_means_lookup_none(states: Seq<(u8, bool)>, id: u8)
    requires
        forall|i: int| 0 <= i < states.len() ==> (#[trigger] states[i]).0 != id,
    ensures
        spec_robot_available(states, id) is None,
    decreases states.len(),
{
    if states.len() > 0 {
        assert forall|i: int|
            0 <= i < states.skip(1).len() implies (#[trigger] states.skip(1)[i]).0 != id by {
            assert(states[i + 1].0 != id);
        }
        lemma_absent_means_lookup_none(states.skip(1), id);
    }
}

/// Marking one robot's availability never registers an absent one.
proof fn lemma_mark_keeps_absence(states: Seq<(u8, bool)>, id: u8, available: bool, absent: u8)
    requires
        spec_robot_available(states, absent) is None,
    ensures
        spec_robot_available(spec_mark_robot(states, id, available), absent) is None,
    decreases states.len(),
{
    if states.len() > 0 {
        let marked = spec_mark_robot(states, id, available);
        assert(marked[0].0 == states[0].0);
        lemma_mark_keeps_absence(states.skip(1), id, available, absent);
        assert(marked.skip(1) =~= spec_mark_robot(states.skip(1), id, available));
    }
}

/// Marking one robot's availability never unregisters any robot.
proof fn lemma_mark_keeps_presence(states: Seq<(u8, bool)>, id: u8, available: bool, present: u8)
    requires
        spec_robot_available(states, present) is Some,
    ensures
        spec_robot_available(spec_mark_robot(states, id, available), present) is Some,
    decreases states.len(),
{
    if states.len() > 0 {
        let marked = spec_mark_robot(states, id, available);
        assert(marked[0].0 == states[0].0);
        if states[0].0 != present {
            lemma_mark_keeps_presence(states.skip(1), id, available, present);
            assert(marked.skip(1) =~= spec_mark_robot(states.skip(1), id, available));
        }
    }
}

/// The first free robot the scan finds is registered, and registered as
/// free; keys must be unique for the lookup to land on that very row.
proof fn lemma_first_available_is_available(states: Seq<(u8, bool)>)
    requires
        forall|a: int, b: int|
            0 <= a < b < states.len() ==> (#[trigger] states[a]).0 != (#[trigger] states[b]).0,
    ensures
        spec_first_available(states) matches Some(id) ==> spec_robot_available(states, id)
            == Some(true),
    decreases states.len(),
{
    if states.len() > 0 && !states[0].1 {
        assert forall|a: int, b: int|
            0 <= a < b < states.skip(1).len() implies (#[trigger] states.skip(1)[a]).0 != (
        #[trigger] states.skip(1)[b]).0 by {
            assert(states[a + 1].0 != states[b + 1].0);
        }
        lemma_first_available_is_available(states.skip(1));
        match spec_first_available(states.skip(1)) {
            Some(id) => {
                lemma_available_means_present(states.skip(1), id);
                let w = choose|w: int|
                    0 <= w < states.skip(1).len() && (#[trigger] states.skip(1)[w]).0 == id;
                assert(states[w + 1].0 == id);
                assert(states[0].0 != id);
            },
            None => {},
        }
    }
}

/// When the scan finds no free robot, every row is busy.
proof fn lemma_none_available_means_all_busy(states: Seq<(u8, bool)>)
    requires
        spec_first_available(states) is None,
    ensures
        forall|i: int| 0 <= i < states.len() ==> !(#[trigger] states[i]).1,
    decreases states.len(),
{
    if states.len() > 0 {
        lemma_none_available_means_all_busy(states.skip(1));
        assert forall|i: int| 0 <= i < states.len() implies !(#[trigger] states[i]).1 by {
            if i > 0 {
                assert(states.skip(1)[i - 1] == states[i]);
            }
        }
    }
}

/// A key that the lookup misses is held by no row.
proof fn lemma_lookup_none_means_absent(states: Seq<(u8, bool)>, id: u8)
    requires
        spec_robot_available(states, id) is None,
    ensures
        forall|i: int| 0 <= i < states.len() ==> (#[trigger] states[i]).0 != id,
    decreases states.len(),
{
    if states.len() > 0 {
        lemma_lookup_none_means_absent(states.skip(1), id);
        assert forall|i: int| 0 <= i < states.len() implies (#[trigger] states[i]).0 != id by {
            if i > 0 {
                assert(states.skip(1)[i - 1] == states[i]);
            }
        }
    }
}

/// Looking a key up right after appending its row finds the row.
proof fn lemma_lookup_appended(states: Seq<(u8, bool)>, id: u8, available: bool)
    requires
        forall|i: int| 0 <= i < states.len() ==> (#[trigger] states[i]).0 != id,
    ensures
        spec_robot_available(states.push((id, available)), id) == Some(available),
    decreases states.len(),
{
    if states.len() == 0 {
        assert(states.push((id, available))[0] == (id, available));
    } else {
        assert forall|i: int|
            0 <= i < states.skip(1).len() implies (#[trigger] states.skip(1)[i]).0 != id by {
            assert(states[i + 1].0 != id);
        }
        lemma_lookup_appended(states.skip(1), id, available);
        assert(states.push((id, available)).skip(1) =~= states.skip(1).push((id, available)));
    }
}

/// Two distinct positions of a unique-key table never hold the same key.
proof fn lemma_distinct_keys(keys: Seq<(u8, u8)>, a: int, b: int)
    requires
        forall|i: int, j: int|
            0 <= i < j < keys.len() ==> #[trigger] keys[i] != #[trigger] keys[j],
        0 <= a < keys.len(),
        0 <= b < keys.len(),
        a != b,
    ensures
        keys[a] != keys[b],
{
    if a < b {
        assert(keys[a] != keys[b]);
    } else {
        assert(keys[b] != keys[a]);
    }
}

/// Two distinct positions of a unique-key robot table never hold the same
/// robot.
proof fn lemma_distinct_robot_keys(states: Seq<(u8, bool)>, a: int, b: int)
    requires
        forall|i: int, j: int|
            0 <= i < j < states.len() ==> (#[trigger] states[i]).0 != (#[trigger] states[j]).0,
        0 <= a < states.len(),
        0 <= b < states.len(),
        a != b,
    ensures
        states[a].0 != states[b].0,
{
    if a < b {
        assert(states[a].0 != states[b].0);
    } else {
        assert(states[b].0 != states[a].0);
    }
}

} // verus!
