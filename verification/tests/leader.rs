use helados_grido::Bucket;
use helados_grido::GatewayAction;
use helados_grido::GatewayResponse;
use helados_grido::IceCream;
use helados_grido::InspectOutcome;
use helados_grido::Order;
use helados_grido::OrderActorMessage;
use helados_grido::OrderCoordinator;
use helados_grido::OrderResolver;
use helados_grido::OrderResult;
use helados_grido::OrderStatus;
use helados_grido::PaymentGateway;
use helados_grido::PaymentInformation;
use helados_grido::ResolverEvent;
use helados_grido::ResolverStep;
use helados_grido::Robot;
use helados_grido::Screen;
use helados_grido::ScreenAction;
use helados_grido::ScreenIncoming;
use helados_grido::ScreenStatus;
use helados_grido::TokenRoute;
use helados_grido::CARDNUMBER;
use helados_grido::PRICE_BITS;

fn simple_order(screen: u8, order: u8, items: Vec<(IceCream, u32)>) -> OrderActorMessage {
    OrderActorMessage {
        screen_owner: screen,
        order_id: order,
        items,
    }
}

#[test]
fn coordinator_queues_until_all_resolvers_registered() {
    let mut coordinator = OrderCoordinator::new(2);
    let order = simple_order(1, 1, vec![(IceCream::Chocolate, 3.0f32.to_bits())]);
    assert_eq!(coordinator.handle_order_message(order), None);
    assert_eq!(coordinator.pending_orders.len(), 1);
}

#[test]
fn coordinator_dispatches_to_a_free_robot() {
    let mut coordinator = OrderCoordinator::new(1);
    let resolver = OrderResolver::new(0);
    let registration = resolver.register_after_inspect(InspectOutcome::OtherReply);
    let (listen, dispatches) = coordinator.register_resolver(registration);
    assert!(!listen);
    assert!(dispatches.is_empty());
    let order = simple_order(1, 1, vec![(IceCream::Vanilla, 2.0f32.to_bits())]);
    assert_eq!(coordinator.handle_order_message(order), Some(0));
    assert_eq!(coordinator.robot_states, vec![(0, false)]);
}

#[test]
fn coordinator_frees_a_robot_and_hands_it_the_queue_head() {
    let mut coordinator = OrderCoordinator::new(1);
    let resolver = OrderResolver::new(0);
    let (_, _) = coordinator.register_resolver(resolver.register_after_inspect(InspectOutcome::OtherReply));
    let first = simple_order(1, 1, vec![(IceCream::Vanilla, 2.0f32.to_bits())]);
    let second = simple_order(1, 2, vec![(IceCream::Lemon, 1.0f32.to_bits())]);
    assert_eq!(coordinator.handle_order_message(first), Some(0));
    assert_eq!(coordinator.handle_order_message(second), None);
    assert_eq!(coordinator.pending_orders.len(), 1);
    let dispatched = coordinator.free_robot(0, (1, 1)).expect("the queue head goes out");
    assert_eq!(dispatched.0, 0);
    assert_eq!(dispatched.1.order_id, 2);
    assert!(coordinator.pending_orders.is_empty());
}

#[test]
fn coordinator_reassigns_after_a_robot_death() {
    let mut coordinator = OrderCoordinator::new(2);
    let r0 = OrderResolver::new(0);
    let r1 = OrderResolver::new(1);
    let (_, _) = coordinator.register_resolver(r0.register_after_inspect(InspectOutcome::OtherReply));
    let (_, _) = coordinator.register_resolver(r1.register_after_inspect(InspectOutcome::OtherReply));
    let order = simple_order(1, 1, vec![(IceCream::Chocolate, 3.0f32.to_bits())]);
    let chosen = coordinator.handle_order_message(order.duplicate()).expect("a robot is free");
    let replacement = coordinator
        .handle_robot_failure(chosen, order)
        .expect("the other robot takes over");
    assert_ne!(replacement, chosen);
    assert_eq!(coordinator.robot_states.len(), 1);
}

#[test]
fn takeover_records_running_orders_before_dispatching() {
    // A robot was mid-order when the previous leader died: its key is
    // recorded before the queue is drained, and the drained dispatches
    // never name it.
    let mut coordinator = OrderCoordinator::new(1);
    let running = simple_order(1, 1, vec![(IceCream::Chocolate, 3.0f32.to_bits())]);
    assert_eq!(coordinator.handle_order_message(running), None);
    let resolver = OrderResolver::new(0);
    let registration = resolver.register_after_inspect(InspectOutcome::WithOrder(1, 1));
    let (listen, dispatches) = coordinator.register_resolver(registration);
    assert!(listen);
    assert!(dispatches.is_empty());
    assert!(coordinator.fulfilled_orders.contains(&(1, 1)));
    assert_eq!(coordinator.pending_orders.len(), 1);
}

#[test]
fn resolver_wait_protocol_probes_then_gives_up() {
    let mut resolver = OrderResolver::new(3);
    assert_eq!(
        resolver.receive_order_result_ka(ResolverEvent::TimedOut),
        ResolverStep::SendKeepAlive
    );
    assert_eq!(
        resolver.receive_order_result_ka(ResolverEvent::AliveReceived),
        ResolverStep::KeepWaiting
    );
    assert_eq!(
        resolver.receive_order_result_ka(ResolverEvent::TimedOut),
        ResolverStep::SendKeepAlive
    );
    assert_eq!(
        resolver.receive_order_result_ka(ResolverEvent::TimedOut),
        ResolverStep::RobotDead
    );
}

#[test]
fn resolver_delivers_a_result_and_acknowledges() {
    let mut resolver = OrderResolver::new(3);
    let result = OrderResult::new(OrderStatus::Ready, 1, 1);
    match resolver.receive_order_result_ka(ResolverEvent::OrderResultReceived(result)) {
        ResolverStep::AckAndDeliver(delivered) => assert_eq!(delivered, result),
        _ => panic!("a result must be delivered"),
    }
}

#[test]
fn the_flat_price_encodes_a_thousand() {
    assert_eq!(PRICE_BITS, 1000.0f64.to_bits());
    assert_eq!(CARDNUMBER, 32231244);
}

#[test]
fn highest_peer_becomes_leader() {
    let leader = Screen::new(2, vec![1, 2], 1);
    assert_eq!(leader.status, ScreenStatus::BeingLeader);
    assert_eq!(leader.leader, 2);
    let follower = Screen::new(1, vec![1, 2], 1);
    assert_eq!(follower.status, ScreenStatus::ReadingOrder);
    assert_eq!(follower.leader, 2);
}

#[test]
fn election_challenges_only_higher_peers() {
    let mut screen = Screen::new(2, vec![1, 2, 3, 5], 1);
    let targets = screen.leader_election();
    assert_eq!(targets, vec![3, 5]);
    assert_eq!(screen.status, ScreenStatus::ElectingNewLeader);
}

#[test]
fn screen_settles_results_under_the_result_key() {
    let screen = Screen::new(1, vec![1, 2], 1);
    let ready = OrderResult::new(OrderStatus::Ready, 4, 1);
    assert_eq!(
        screen.handle_orderresult(ready),
        GatewayAction::Commit {
            order_id: 4,
            owner_id: 1
        }
    );
    let abort = OrderResult::new(OrderStatus::Abort, 4, 1);
    assert_eq!(
        screen.handle_orderresult(abort),
        GatewayAction::Abort {
            order_id: 4,
            owner_id: 1
        }
    );
}

#[test]
fn happy_path_captures_produces_and_commits() {
    // Screen 1, one order of three chocolate and two vanilla, two robots,
    // rejection rate zero: the gateway acknowledges the capture, the robot
    // produces both lines, and the verdict comes back as a commit.
    let mut gateway = PaymentGateway::new();
    let mut screen = Screen::new(1, vec![1, 2], 2);
    let order = Order::new(
        1,
        1,
        vec![
            (IceCream::Chocolate, 3.0f32.to_bits()),
            (IceCream::Vanilla, 2.0f32.to_bits()),
        ],
    );
    screen.set_current_order(order);

    let capture = screen.make_capture(1);
    assert_eq!(
        capture,
        GatewayAction::Capture {
            order_id: 1,
            card_number: CARDNUMBER,
            amount_bits: PRICE_BITS,
            owner_id: 1,
        }
    );
    assert_eq!(gateway.handle_action(capture, 0), Some(GatewayResponse::Acknowledge));

    screen.status = ScreenStatus::WaitingGatewayResponse;
    let (actions, _, done) = screen.listen_step(
        ScreenIncoming::GatewayResponseMsg(GatewayResponse::Acknowledge),
        false,
    );
    assert!(actions.is_empty());
    assert!(done);
    assert_eq!(screen.status, ScreenStatus::WaitingRobotResponse);

    let mut robot = Robot::new(0, vec![0, 1]);
    robot.handle_order(Order::new(
        1,
        1,
        vec![
            (IceCream::Chocolate, 3.0f32.to_bits()),
            (IceCream::Vanilla, 2.0f32.to_bits()),
        ],
    ));
    let chocolate = helados_grido::Token::new(1, Bucket::new(IceCream::Chocolate, 20.0f32.to_bits()));
    let bucket = match robot.handle_token(chocolate) {
        TokenRoute::HandToOrderHandler(b) => b,
        TokenRoute::Forward(_) => panic!("chocolate is needed"),
    };
    let (_, verdict) = robot.prepare_token(bucket, true, (20.0f32 - 3.0).to_bits());
    assert!(verdict.is_none());
    let vanilla = helados_grido::Token::new(1, Bucket::new(IceCream::Vanilla, 20.0f32.to_bits()));
    let bucket = match robot.handle_token(vanilla) {
        TokenRoute::HandToOrderHandler(b) => b,
        TokenRoute::Forward(_) => panic!("vanilla is needed"),
    };
    let (_, verdict) = robot.prepare_token(bucket, true, (20.0f32 - 2.0).to_bits());
    let verdict = verdict.expect("the order is complete");
    assert_eq!(verdict.status, OrderStatus::Ready);
    assert_eq!(verdict.order_id, 1);
    assert_eq!(verdict.owner_id, 1);

    let (actions, _, done) = screen.listen_step(ScreenIncoming::OrderResultMsg(verdict), false);
    assert!(done);
    assert_eq!(actions.len(), 1);
    match &actions[0] {
        ScreenAction::SendGateway(settle) => {
            assert_eq!(gateway.handle_action(*settle, 0), None);
        }
        _ => panic!("the result is settled with the gateway"),
    }
    assert!(gateway.pending_payments.is_empty());
}

#[test]
fn rejected_card_skips_the_order() {
    // The same run at rejection rate one: the screen skips the order, no
    // robot order goes out, and nothing remains to commit or abort.
    let mut gateway = PaymentGateway::new();
    let mut screen = Screen::new(1, vec![1, 2], 2);
    let capture = screen.make_capture(1);
    assert_eq!(
        gateway.handle_action(capture, 1_000_000),
        Some(GatewayResponse::RejectedCard)
    );
    screen.status = ScreenStatus::WaitingGatewayResponse;
    let (actions, _, done) = screen.listen_step(
        ScreenIncoming::GatewayResponseMsg(GatewayResponse::RejectedCard),
        false,
    );
    assert!(actions.is_empty());
    assert!(done);
    assert_eq!(screen.status, ScreenStatus::ReadingOrder);
    assert!(gateway.pending_payments.is_empty());
}

#[test]
fn leader_death_is_survived_by_the_next_screen() {
    // Two screens with 2 leading and one order in flight; 2 dies.  Screen 1
    // probes, hears nothing, wins the election unopposed, inspects the
    // robot, records its running order and routes the eventual result.
    let mut screen = Screen::new(1, vec![1, 2], 1);
    screen.set_current_order(Order::new(1, 1, vec![(IceCream::Chocolate, 3.0f32.to_bits())]));
    screen.status = ScreenStatus::WaitingRobotResponse;

    let (actions, waiting, done) = screen.listen_step(ScreenIncoming::Timeout, false);
    assert!(matches!(actions[..], [ScreenAction::SendKeepAliveToLeader]));
    assert!(waiting && !done);

    let (actions, _, done) = screen.listen_step(ScreenIncoming::Timeout, true);
    assert!(matches!(actions[..], [ScreenAction::StartElection]));
    assert!(done);

    let targets = screen.leader_election();
    assert_eq!(targets, vec![2]);
    let (actions, _, done) = screen.listen_step(ScreenIncoming::Timeout, false);
    assert!(actions.is_empty());
    assert!(done);
    assert_eq!(screen.status, ScreenStatus::BeingLeader);

    // The new leader's stack starts: the busy robot answers the probe.
    let mut robot = Robot::new(0, vec![0]);
    robot.handle_order(Order::new(1, 1, vec![(IceCream::Chocolate, 3.0f32.to_bits())]));
    let with_order = robot.handle_newleader().expect("the robot is busy");

    let mut coordinator = OrderCoordinator::new(1);
    let resolver = OrderResolver::new(0);
    let registration = resolver
        .register_after_inspect(InspectOutcome::WithOrder(with_order.screen_id, with_order.order_id));
    let (listen, dispatches) = coordinator.register_resolver(registration);
    assert!(listen);
    assert!(dispatches.is_empty());
    assert!(coordinator.fulfilled_orders.contains(&(1, 1)));

    // The robot finishes; the result is routed back to screen 1, which
    // settles with the gateway.
    let bucket = Bucket::new(IceCream::Chocolate, 20.0f32.to_bits());
    let (_, verdict) = robot.prepare_token(bucket, true, (20.0f32 - 3.0).to_bits());
    let verdict = verdict.expect("the order is complete");
    let mut gateway = PaymentGateway::new();
    gateway.capture(
        PaymentInformation {
            order_id: 1,
            card_number: CARDNUMBER,
            amount_bits: PRICE_BITS,
            owner_id: 1,
        },
        0,
    );
    let settle = screen.handle_orderresult(verdict);
    assert_eq!(gateway.handle_action(settle, 0), None);
    assert!(gateway.pending_payments.is_empty());
}

#[test]
fn keepalive_is_always_answered() {
    let mut screen = Screen::new(1, vec![1, 2], 1);
    let (actions, _, done) = screen.listen_step(ScreenIncoming::KeepAliveMsg, false);
    assert!(matches!(actions[..], [ScreenAction::ReplyAlive]));
    assert!(!done);
    assert_eq!(screen.handle_keepalive().owner, 1);
}

#[test]
fn election_yields_to_a_higher_peer() {
    let mut screen = Screen::new(1, vec![1, 2, 3], 1);
    let _ = screen.leader_election();
    assert_eq!(screen.resume_status, ScreenStatus::ReadingOrder);
    let (actions, _, done) = screen.listen_step(ScreenIncoming::BullyOkMsg, false);
    assert!(matches!(actions[..], [ScreenAction::AwaitCoordinator]));
    assert!(!done);
    let (actions, _, done) = screen.listen_step(ScreenIncoming::CoordinatorMsg { leader: 3 }, false);
    assert!(actions.is_empty());
    assert!(done);
    assert_eq!(screen.leader, 3);
    // The status the screen held before the election is back in force.
    assert_eq!(screen.status, ScreenStatus::ReadingOrder);
}

#[test]
fn lost_election_resends_the_order_in_flight() {
    // A screen waiting on the robots loses the election: the announcement
    // restores the wait, puts the outstanding order in front of the new
    // leader, and the wait goes on until the verdict arrives, so an
    // acknowledged capture is never abandoned.
    let mut screen = Screen::new(1, vec![1, 2, 3], 1);
    screen.set_current_order(Order::new(1, 4, vec![(IceCream::Lemon, 1.0f32.to_bits())]));
    screen.status = ScreenStatus::WaitingRobotResponse;
    let targets = screen.leader_election();
    assert_eq!(targets, vec![2, 3]);
    assert_eq!(screen.resume_status, ScreenStatus::WaitingRobotResponse);
    let (actions, waiting, done) =
        screen.listen_step(ScreenIncoming::CoordinatorMsg { leader: 3 }, true);
    assert!(matches!(actions[..], [ScreenAction::ResendOrderToLeader]));
    assert!(!waiting);
    assert!(!done);
    assert_eq!(screen.leader, 3);
    assert_eq!(screen.status, ScreenStatus::WaitingRobotResponse);
    // The verdict is still collected and settled after the failover.
    let verdict = OrderResult::new(OrderStatus::Ready, 4, 1);
    let (actions, _, done) = screen.listen_step(ScreenIncoming::OrderResultMsg(verdict), false);
    assert!(done);
    assert!(matches!(
        actions[..],
        [ScreenAction::SendGateway(GatewayAction::Commit {
            order_id: 4,
            owner_id: 1
        })]
    ));
}

#[test]
fn lost_election_during_a_gateway_wait_keeps_waiting() {
    // A challenge arrives while the capture's verdict is outstanding and a
    // higher peer wins: the screen returns to the gateway wait instead of
    // moving on past a possibly acknowledged capture.
    let mut screen = Screen::new(1, vec![1, 2, 3], 1);
    screen.status = ScreenStatus::WaitingGatewayResponse;
    let _ = screen.leader_election();
    assert_eq!(screen.resume_status, ScreenStatus::WaitingGatewayResponse);
    let (actions, _, done) = screen.listen_step(ScreenIncoming::CoordinatorMsg { leader: 2 }, false);
    assert!(actions.is_empty());
    assert!(!done);
    assert_eq!(screen.status, ScreenStatus::WaitingGatewayResponse);
    let (_, _, done) = screen.listen_step(
        ScreenIncoming::GatewayResponseMsg(GatewayResponse::Acknowledge),
        false,
    );
    assert!(done);
    assert_eq!(screen.status, ScreenStatus::WaitingRobotResponse);
}

#[test]
fn challenge_during_a_wait_is_acknowledged() {
    let mut screen = Screen::new(2, vec![1, 2, 3], 1);
    screen.status = ScreenStatus::WaitingRobotResponse;
    let (actions, waiting, done) =
        screen.listen_step(ScreenIncoming::BullyElectionMsg { owner: 1 }, true);
    assert!(matches!(
        actions[..],
        [ScreenAction::ReplyBullyOk, ScreenAction::StartElection]
    ));
    assert!(!waiting && done);
}

#[test]
fn order_request_returns_the_order_in_flight() {
    let mut screen = Screen::new(1, vec![1, 2], 1);
    let (actions, _, _) = screen.listen_step(ScreenIncoming::OrderRequestMsg, false);
    assert!(actions.is_empty());
    screen.set_current_order(Order::new(1, 1, vec![(IceCream::Lemon, 1.0f32.to_bits())]));
    let (actions, _, _) = screen.listen_step(ScreenIncoming::OrderRequestMsg, false);
    assert!(matches!(actions[..], [ScreenAction::SendCurrentOrder]));
}
