use helados_grido::Bucket;
use helados_grido::Grade;
use helados_grido::Handshake;
use helados_grido::IceCream;
use helados_grido::Next;
use helados_grido::Order;
use helados_grido::OrderStatus;
use helados_grido::Robot;
use helados_grido::RobotDead;
use helados_grido::RobotInspector;
use helados_grido::TokenRoute;
use helados_grido::INITIAL_AMOUNT_BITS;

#[test]
fn grade_successor_cycles_in_three_steps() {
    for g in [Grade::A, Grade::B, Grade::C] {
        assert_eq!(g.next().next().next(), g);
    }
    assert_eq!(Grade::A.next(), Grade::B);
    assert_eq!(Grade::B.next(), Grade::C);
    assert_eq!(Grade::C.next(), Grade::A);
}

#[test]
fn grade_cyclic_comparison() {
    assert!(Grade::B > Grade::A);
    assert!(Grade::C > Grade::B);
    assert!(Grade::A > Grade::C);
    assert!(Grade::A < Grade::B);
    assert!(!(Grade::A > Grade::A));
}

#[test]
fn initial_amount_encodes_twenty_units() {
    assert_eq!(INITIAL_AMOUNT_BITS, 20.0f32.to_bits());
}

#[test]
fn new_robot_takes_ring_neighbours_by_id() {
    let robot = Robot::new(1, vec![0, 1, 2]);
    assert_eq!(robot.prev, 0);
    assert_eq!(robot.next, 2);
    assert_eq!(robot.token_status.len(), 5);
    assert!(robot
        .token_status
        .iter()
        .all(|(_, bits, grade)| *bits == INITIAL_AMOUNT_BITS && *grade == Grade::A));
}

#[test]
fn lowest_robot_emits_one_token_per_flavour() {
    let mut robot = Robot::new(0, vec![0, 1]);
    let tokens = robot.initial_tokens();
    assert_eq!(tokens.len(), 5);
    let mut flavours: Vec<u8> = tokens.iter().map(|t| t.bucket.ice_cream.as_u8()).collect();
    flavours.sort();
    assert_eq!(flavours, vec![0, 1, 2, 3, 4]);
    assert!(tokens
        .iter()
        .all(|t| t.owner == 0 && t.bucket.amount_bits == INITIAL_AMOUNT_BITS));
    assert!(robot.token_status.iter().all(|(_, _, grade)| *grade == Grade::B));
}

#[test]
fn unneeded_token_is_forwarded_with_a_fresh_grade() {
    let mut robot = Robot::new(1, vec![0, 1, 2]);
    let token = helados_grido::Token::new(0, Bucket::new(IceCream::Lemon, 18.0f32.to_bits()));
    match robot.handle_token(token) {
        TokenRoute::Forward(t) => {
            assert_eq!(t.owner, 1);
            assert_eq!(t.bucket.ice_cream, IceCream::Lemon);
            assert_eq!(t.bucket.amount_bits, 18.0f32.to_bits());
        }
        TokenRoute::HandToOrderHandler(_) => panic!("no order is loaded"),
    }
    let lemon = robot
        .token_status
        .iter()
        .find(|(f, _, _)| *f == IceCream::Lemon)
        .expect("lemon has a status row");
    assert_eq!(lemon.1, 18.0f32.to_bits());
    assert_eq!(lemon.2, Grade::B);
}

#[test]
fn needed_token_goes_to_the_order_handler() {
    let mut robot = Robot::new(1, vec![0, 1, 2]);
    robot.handle_order(Order::new(1, 1, vec![(IceCream::Chocolate, 3.0f32.to_bits())]));
    let token = helados_grido::Token::new(0, Bucket::new(IceCream::Chocolate, 20.0f32.to_bits()));
    match robot.handle_token(token) {
        TokenRoute::HandToOrderHandler(bucket) => {
            assert_eq!(bucket.ice_cream, IceCream::Chocolate);
            assert_eq!(bucket.amount_bits, 20.0f32.to_bits());
        }
        TokenRoute::Forward(_) => panic!("the order needs chocolate"),
    }
}

#[test]
fn sufficient_token_completes_a_single_line_order() {
    let mut robot = Robot::new(0, vec![0, 1]);
    robot.handle_order(Order::new(1, 1, vec![(IceCream::Chocolate, 3.0f32.to_bits())]));
    let bucket = Bucket::new(IceCream::Chocolate, 20.0f32.to_bits());
    let remaining = (20.0f32 - 3.0f32).to_bits();
    let (token, verdict) = robot.prepare_token(bucket, true, remaining);
    assert_eq!(token.bucket.amount_bits, remaining);
    let verdict = verdict.expect("the order is complete");
    assert_eq!(verdict.status, OrderStatus::Ready);
    assert_eq!(verdict.order_id, 1);
    assert_eq!(verdict.owner_id, 1);
    // The decided order stays loaded until the resolver acknowledges it.
    assert!(robot.order.as_ref().is_some_and(|o| o.items.is_empty()));
    assert_eq!(robot.result_sent, helados_grido::ResultFlag::Idle);
    robot.handle_ack();
    assert!(robot.confirm_result());
    assert!(robot.order.is_none());
}

#[test]
fn partial_order_consumes_one_line_and_waits() {
    let mut robot = Robot::new(0, vec![0, 1]);
    robot.handle_order(Order::new(
        1,
        1,
        vec![
            (IceCream::Chocolate, 3.0f32.to_bits()),
            (IceCream::Vanilla, 2.0f32.to_bits()),
        ],
    ));
    let remaining = (20.0f32 - 3.0f32).to_bits();
    let (token, verdict) = robot.prepare_token(
        Bucket::new(IceCream::Chocolate, 20.0f32.to_bits()),
        true,
        remaining,
    );
    assert_eq!(token.bucket.amount_bits, remaining);
    assert!(verdict.is_none());
    let order = robot.order.as_ref().expect("vanilla is still owed");
    assert_eq!(order.items.len(), 1);
    assert_eq!(order.items[0].0, IceCream::Vanilla);
}

#[test]
fn insufficient_token_aborts_the_order() {
    let mut robot = Robot::new(0, vec![0]);
    robot.handle_order(Order::new(1, 1, vec![(IceCream::Chocolate, 25.0f32.to_bits())]));
    let bucket = Bucket::new(IceCream::Chocolate, 20.0f32.to_bits());
    let (token, verdict) = robot.prepare_token(bucket, false, 0);
    assert_eq!(token.bucket.amount_bits, 20.0f32.to_bits());
    let verdict = verdict.expect("the order is given up");
    assert_eq!(verdict.status, OrderStatus::Abort);
    assert_eq!(verdict.order_id, 1);
    assert_eq!(verdict.owner_id, 1);
    assert!(robot.order.is_some());
    robot.handle_ack();
    assert!(robot.confirm_result());
    assert!(robot.order.is_none());
}

#[test]
fn takeover_during_the_rendezvous_redirects_the_verdict() {
    // The verdict is decided but not yet acknowledged when a new leader's
    // resolver probes: the robot still reports its order, the wait is
    // released for a retry, and only the eventual acknowledgement clears
    // the order.
    let mut robot = Robot::new(0, vec![0, 1]);
    robot.handle_order(Order::new(1, 7, vec![(IceCream::Chocolate, 3.0f32.to_bits())]));
    let bucket = Bucket::new(IceCream::Chocolate, 20.0f32.to_bits());
    let (_, verdict) = robot.prepare_token(bucket, true, (20.0f32 - 3.0).to_bits());
    assert!(verdict.is_some());
    let reply = robot.handle_newleader().expect("the robot is still busy");
    assert_eq!(reply.screen_id, 1);
    assert_eq!(reply.order_id, 7);
    assert_eq!(robot.result_sent, helados_grido::ResultFlag::Reassigned);
    assert!(!robot.confirm_result());
    assert!(robot.order.is_some());
    robot.handle_ack();
    assert!(robot.confirm_result());
    assert!(robot.order.is_none());
}

#[test]
fn startup_exchange_of_the_opening_robot_settles_both_sides() {
    let mut protocol = helados_grido::InitProtocol::new();
    let (action, done) = protocol.origin_step(helados_grido::InitEvent::TimedOut);
    assert!(action.is_none() && !done);
    let (action, done) = protocol.origin_step(helados_grido::InitEvent::InitArrived);
    assert_eq!(action, Some(helados_grido::InitAction::SendAckToPrev));
    assert!(!done);
    let (action, done) = protocol.origin_step(helados_grido::InitEvent::AckArrived);
    assert!(action.is_none());
    assert!(done);
}

#[test]
fn startup_exchange_of_a_ring_member_mirrors_forward() {
    let (actions, done) = helados_grido::member_init_step(helados_grido::InitEvent::InitArrived);
    assert_eq!(
        actions,
        vec![
            helados_grido::InitAction::SendAckToPrev,
            helados_grido::InitAction::SendInitToNext
        ]
    );
    assert!(!done);
    let (actions, done) = helados_grido::member_init_step(helados_grido::InitEvent::TimedOut);
    assert_eq!(actions, vec![helados_grido::InitAction::SendInitToNext]);
    assert!(!done);
    let (actions, done) = helados_grido::member_init_step(helados_grido::InitEvent::AckArrived);
    assert!(actions.is_empty());
    assert!(done);
}

#[test]
fn inspector_alerts_two_hops_upstream() {
    let status = vec![(IceCream::Chocolate, Grade::B)];
    let inspector = RobotInspector::new(2, vec![0, 1, 2], 1, status.clone());
    let (target, report) = inspector
        .dead_robot_alert()
        .expect("the inspector is on its own ring");
    assert_eq!(target, 0);
    assert_eq!(report.owner, 2);
    assert_eq!(report.status, status);
}

#[test]
fn death_report_repairs_ring_and_reissues_fresher_tokens() {
    let mut robot = Robot::new(0, vec![0, 1, 2]);
    // The robot saw the chocolate token after the reporter did: its grade
    // is one step ahead, so it re-emits chocolate; vanilla matches the
    // reporter's view, so with the lower id it stays quiet.
    let tokens = robot.initial_tokens();
    assert_eq!(tokens.len(), 5);
    let report = RobotDead::new(
        2,
        vec![(IceCream::Chocolate, Grade::A), (IceCream::Vanilla, Grade::B)],
    );
    let (handshake, reissued) = robot.handle_robotdead(&report);
    assert_eq!(robot.next, 2);
    assert_eq!(handshake.owner, 0);
    assert_eq!(handshake.ids, vec![0]);
    assert_eq!(reissued.len(), 1);
    assert_eq!(reissued[0].owner, 0);
    assert_eq!(reissued[0].bucket.ice_cream, IceCream::Chocolate);
    assert_eq!(reissued[0].bucket.amount_bits, INITIAL_AMOUNT_BITS);
}

#[test]
fn downstream_survivor_reissues_on_equal_grades() {
    let mut robot = Robot::new(2, vec![0, 1, 2]);
    let report = RobotDead::new(0, vec![(IceCream::Lemon, Grade::A)]);
    let (_, reissued) = robot.handle_robotdead(&report);
    assert_eq!(reissued.len(), 1);
    assert_eq!(reissued[0].bucket.ice_cream, IceCream::Lemon);
    assert_eq!(reissued[0].owner, 2);
}

#[test]
fn handshake_splices_and_extends_the_round() {
    let mut robot = Robot::new(2, vec![0, 1, 2]);
    let round = Handshake::new(0, vec![0]);
    let forward = robot
        .handle_handshake(&round)
        .expect("this robot is not yet in the round");
    assert_eq!(robot.ring_path, vec![0]);
    assert_eq!(robot.prev, 0);
    assert_eq!(forward.owner, 2);
    assert_eq!(forward.ids, vec![0, 2]);
}

#[test]
fn handshake_that_came_around_stops() {
    let mut robot = Robot::new(0, vec![0, 1, 2]);
    robot.next = 2;
    let round = Handshake::new(2, vec![0, 2]);
    let forward = robot.handle_handshake(&round);
    assert!(forward.is_none());
    assert_eq!(robot.ring_path, vec![0, 2]);
    assert_eq!(robot.prev, 2);
}

#[test]
fn new_leader_probe_reports_the_running_order() {
    let mut robot = Robot::new(0, vec![0, 1]);
    assert!(robot.handle_newleader().is_none());
    robot.handle_order(Order::new(2, 7, vec![(IceCream::Vanilla, 1.0f32.to_bits())]));
    let reply = robot.handle_newleader().expect("the robot is busy");
    assert_eq!(reply.screen_id, 2);
    assert_eq!(reply.order_id, 7);
    assert_eq!(robot.result_sent, helados_grido::ResultFlag::Reassigned);
}

#[test]
fn ack_releases_the_order_handler() {
    let mut robot = Robot::new(0, vec![0, 1]);
    robot.handle_ack();
    assert_eq!(robot.result_sent, helados_grido::ResultFlag::Acked);
    assert_eq!(robot.handle_keepalive().owner, 0);
    assert_eq!(robot.handle_keepalive_from_resolver().owner, 0);
}
