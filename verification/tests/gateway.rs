use helados_grido::GatewayAction;
use helados_grido::GatewayResponse;
use helados_grido::PaymentGateway;
use helados_grido::PaymentInformation;

fn payment(order_id: u8, owner_id: u8) -> PaymentInformation {
    PaymentInformation {
        order_id,
        card_number: 1234,
        amount_bits: 100.0f64.to_bits(),
        owner_id,
    }
}

#[test]
fn capture_at_zero_rate_never_rejects() {
    for _ in 0..50 {
        let mut gateway = PaymentGateway::new();
        let response = gateway.capture(payment(1, 1), 0);
        assert_eq!(response, GatewayResponse::Acknowledge);
        assert_eq!(gateway.pending_payments.len(), 1);
    }
}

#[test]
fn capture_at_full_rate_always_rejects() {
    for _ in 0..50 {
        let mut gateway = PaymentGateway::new();
        let response = gateway.capture(payment(1, 1), 1_000_000);
        assert_eq!(response, GatewayResponse::RejectedCard);
        assert!(gateway.pending_payments.is_empty());
    }
}

#[test]
fn duplicate_capture_is_refused() {
    let mut gateway = PaymentGateway::new();
    let first = gateway.capture(payment(7, 2), 0);
    assert_eq!(first, GatewayResponse::Acknowledge);
    let second = gateway.capture(payment(7, 2), 0);
    assert_eq!(second, GatewayResponse::DuplicatedOrder);
    assert_eq!(gateway.pending_payments.len(), 1);
}

#[test]
fn duplicate_capture_is_refused_before_the_card_is_tried() {
    let mut gateway = PaymentGateway::new();
    assert_eq!(gateway.capture(payment(7, 2), 0), GatewayResponse::Acknowledge);
    let second = gateway.capture(payment(7, 2), 1_000_000);
    assert_eq!(second, GatewayResponse::DuplicatedOrder);
}

#[test]
fn commit_settles_a_pending_payment_silently() {
    let mut gateway = PaymentGateway::new();
    assert_eq!(gateway.capture(payment(1, 1), 0), GatewayResponse::Acknowledge);
    let response = gateway.commit(1, 1);
    assert_eq!(response, None);
    assert!(gateway.pending_payments.is_empty());
}

#[test]
fn commit_without_pending_payment_is_reported() {
    let mut gateway = PaymentGateway::new();
    let response = gateway.commit(5, 1);
    assert_eq!(response, Some(GatewayResponse::NoSuchPendingPayment));
}

#[test]
fn abort_releases_a_pending_payment() {
    let mut gateway = PaymentGateway::new();
    assert_eq!(gateway.capture(payment(1, 1), 0), GatewayResponse::Acknowledge);
    assert!(gateway.abort(1, 1));
    assert!(gateway.pending_payments.is_empty());
}

#[test]
fn abort_without_pending_payment_is_silent() {
    let mut gateway = PaymentGateway::new();
    assert!(!gateway.abort(5, 1));
    assert!(gateway.pending_payments.is_empty());
}

#[test]
fn distinct_keys_capture_independently() {
    let mut gateway = PaymentGateway::new();
    assert_eq!(gateway.capture(payment(1, 1), 0), GatewayResponse::Acknowledge);
    assert_eq!(gateway.capture(payment(1, 2), 0), GatewayResponse::Acknowledge);
    assert_eq!(gateway.capture(payment(2, 1), 0), GatewayResponse::Acknowledge);
    assert_eq!(gateway.pending_payments.len(), 3);
    assert_eq!(gateway.commit(1, 2), None);
    assert_eq!(gateway.pending_payments.len(), 2);
    assert!(gateway
        .pending_payments
        .iter()
        .all(|p| !(p.order_id == 1 && p.owner_id == 2)));
}

#[test]
fn handle_action_answers_like_the_wire_protocol() {
    let mut gateway = PaymentGateway::new();
    let capture = GatewayAction::Capture {
        order_id: 7,
        card_number: 1234,
        amount_bits: 100.0f64.to_bits(),
        owner_id: 2,
    };
    let response = gateway.handle_action(capture, 0);
    assert_eq!(response, Some(GatewayResponse::Acknowledge));

    let commit_unknown = GatewayAction::Commit {
        order_id: 9,
        owner_id: 9,
    };
    assert_eq!(
        gateway.handle_action(commit_unknown, 0),
        Some(GatewayResponse::NoSuchPendingPayment)
    );

    let commit = GatewayAction::Commit {
        order_id: 7,
        owner_id: 2,
    };
    assert_eq!(gateway.handle_action(commit, 0), None);

    let abort_unknown = GatewayAction::Abort {
        order_id: 7,
        owner_id: 2,
    };
    assert_eq!(gateway.handle_action(abort_unknown, 0), None);
    assert!(gateway.pending_payments.is_empty());
}
