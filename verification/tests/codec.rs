use helados_grido::Alive;
use helados_grido::Bucket;
use helados_grido::BullyElection;
use helados_grido::BullyOk;
use helados_grido::Coordinator;
use helados_grido::GatewayAction;
use helados_grido::GatewayResponse;
use helados_grido::Grade;
use helados_grido::Handshake;
use helados_grido::IceCream;
use helados_grido::KeepAlive;
use helados_grido::KeepAliveFromResolver;
use helados_grido::Messages;
use helados_grido::NewLeader;
use helados_grido::Order;
use helados_grido::OrderRequest;
use helados_grido::OrderResult;
use helados_grido::OrderStatus;
use helados_grido::ParseError;
use helados_grido::RobotDead;
use helados_grido::RobotOrder;
use helados_grido::RobotWithOrder;
use helados_grido::Token;

#[test]
fn handshake_round_trip() {
    let bytes = Handshake::new(3, vec![3, 4, 0]).as_bytes();
    assert_eq!(bytes, vec![0u8, 3, 3, 3, 4, 0, 10]);
    let parsed = Handshake::from_bytes(&bytes[1..]);
    assert_eq!(parsed.owner, 3);
    assert_eq!(parsed.ids, vec![3, 4, 0]);
}

#[test]
fn handshake_empty_ids_round_trip() {
    let bytes = Handshake::new(7, vec![]).as_bytes();
    assert_eq!(bytes, vec![0u8, 7, 0, 10]);
    let parsed = Handshake::from_bytes(&bytes[1..]);
    assert_eq!(parsed.owner, 7);
    assert!(parsed.ids.is_empty());
}

#[test]
fn handshake_with_largest_id_list_round_trips() {
    let ids: Vec<u8> = (0..=254).collect();
    let bytes = Handshake::new(1, ids.clone()).as_bytes();
    assert_eq!(bytes.len(), 3 + 255 + 1);
    assert_eq!(bytes[2], 255);
    let parsed = Handshake::from_bytes(&bytes[1..]);
    assert_eq!(parsed.ids, ids);
}

#[test]
fn token_round_trip_matches_float_encoding() {
    let amount = 20.0f32;
    let token = Token::new(2, Bucket::new(IceCream::Strawberry, amount.to_bits()));
    let bytes = token.as_bytes();
    let mut expected = vec![1u8, 2, 2];
    expected.extend_from_slice(&amount.to_be_bytes());
    assert_eq!(bytes, expected);
    let parsed = Token::from_bytes(&bytes[1..]).expect("flavour byte is valid");
    assert_eq!(parsed.owner, 2);
    assert_eq!(parsed.bucket.ice_cream, IceCream::Strawberry);
    assert_eq!(f32::from_bits(parsed.bucket.amount_bits), 20.0f32);
}

#[test]
fn token_rejects_bad_flavour() {
    let r = Token::from_bytes(&[1, 9, 0, 0, 0, 0]);
    assert_eq!(r, Err(ParseError::ConversionError));
}

#[test]
fn bucket_round_trip() {
    let bucket = Bucket::new(IceCream::Lemon, 3.5f32.to_bits());
    let bytes = bucket.as_bytes();
    assert_eq!(bytes.len(), 5);
    assert_eq!(bytes[0], 3);
    assert_eq!(&bytes[1..5], &3.5f32.to_be_bytes());
    let parsed = Bucket::from_bytes(&bytes).expect("flavour byte is valid");
    assert_eq!(parsed, bucket);
}

#[test]
fn order_round_trip() {
    let items = vec![
        (IceCream::Chocolate, 3.0f32.to_bits()),
        (IceCream::Vanilla, 2.0f32.to_bits()),
    ];
    let order = Order::new(1, 1, items.clone());
    let bytes = order.as_bytes();
    assert_eq!(bytes[0], 3);
    assert_eq!(bytes[1], 1);
    assert_eq!(bytes[2], 1);
    assert_eq!(bytes[3], 2);
    assert_eq!(bytes.len(), 4 + 5 * 2);
    let parsed = Order::from_bytes(&bytes[1..]);
    assert_eq!(parsed.screen_id, 1);
    assert_eq!(parsed.order_id, 1);
    assert_eq!(parsed.items, items);
}

#[test]
fn robot_order_round_trip() {
    let items = vec![(IceCream::DulceDeLeche, 1.25f32.to_bits())];
    let msg = RobotOrder::new(4, 2, 9, items.clone());
    let bytes = msg.as_bytes();
    assert_eq!(bytes[0], 13);
    assert_eq!(bytes[1], 4);
    assert_eq!(bytes[2], 3);
    let parsed = RobotOrder::from_bytes(&bytes[1..]);
    assert_eq!(parsed.resolver_owner, 4);
    assert_eq!(parsed.order.screen_id, 2);
    assert_eq!(parsed.order.order_id, 9);
    assert_eq!(parsed.order.items, items);
}

#[test]
fn order_result_round_trip() {
    let result = OrderResult::new(OrderStatus::Abort, 7, 2);
    let bytes = result.as_bytes();
    assert_eq!(bytes, vec![8u8, 1, 7, 2]);
    let parsed = OrderResult::from_bytes(&bytes[1..]).expect("status byte is valid");
    assert_eq!(parsed, result);
}

#[test]
fn order_result_rejects_bad_status() {
    assert_eq!(
        OrderResult::from_bytes(&[5, 7, 2]),
        Err(ParseError::ConversionError)
    );
}

#[test]
fn robot_dead_round_trip() {
    let status = vec![(IceCream::Chocolate, Grade::B), (IceCream::Lemon, Grade::A)];
    let msg = RobotDead::new(2, status.clone());
    let bytes = msg.as_bytes();
    assert_eq!(bytes, vec![11u8, 2, 2, 0, 1, 3, 0]);
    let parsed = RobotDead::from_bytes(&bytes[1..]);
    assert_eq!(parsed.owner, 2);
    assert_eq!(parsed.status, status);
}

#[test]
fn single_owner_messages_round_trip() {
    let ka = KeepAlive::new(5).as_bytes();
    assert_eq!(ka, vec![4u8, 5]);
    assert_eq!(KeepAlive::from_bytes(&ka[1..]).owner, 5);

    let alive = Alive::new(6).as_bytes();
    assert_eq!(alive, vec![9u8, 6]);
    assert_eq!(Alive::from_bytes(&alive[1..]).owner, 6);

    let kafr = KeepAliveFromResolver::new(7).as_bytes();
    assert_eq!(kafr, vec![12u8, 7]);
    assert_eq!(KeepAliveFromResolver::from_bytes(&kafr[1..]).owner, 7);

    let req = OrderRequest::new(8).as_bytes();
    assert_eq!(req, vec![15u8, 8]);
    assert_eq!(OrderRequest::from_bytes(&req[1..]).owner, 8);

    let nl = NewLeader::new(9).as_bytes();
    assert_eq!(nl, vec![10u8, 9]);
    assert_eq!(NewLeader::from_bytes(&nl[1..]).owner, 9);

    let coord = Coordinator::new(1).as_bytes();
    assert_eq!(coord, vec![7u8, 1]);
    assert_eq!(Coordinator::from_bytes(&coord[1..]).owner, 1);

    let ok = BullyOk { owner: 2 }.as_bytes();
    assert_eq!(ok, vec![6u8, 2]);
    assert_eq!(BullyOk::from_bytes(&ok[1..]).owner, 2);

    let el = BullyElection { owner: 3 }.as_bytes();
    assert_eq!(el, vec![5u8, 3]);
    assert_eq!(BullyElection::from_bytes(&el[1..]).owner, 3);
}

#[test]
fn robot_with_order_round_trip() {
    let bytes = RobotWithOrder::new(2, 7).as_bytes();
    assert_eq!(bytes, vec![17u8, 2, 7]);
    let parsed = RobotWithOrder::from_bytes(&bytes[1..]);
    assert_eq!(parsed.screen_id, 2);
    assert_eq!(parsed.order_id, 7);
}

#[test]
fn gateway_response_round_trip() {
    let codes = [
        (GatewayResponse::Acknowledge, 0u8),
        (GatewayResponse::RejectedCard, 1u8),
        (GatewayResponse::NoSuchPendingPayment, 2u8),
        (GatewayResponse::DuplicatedOrder, 3u8),
    ];
    for (resp, code) in codes {
        let bytes = resp.as_bytes();
        assert_eq!(bytes, vec![18u8, code]);
        assert_eq!(GatewayResponse::try_from(bytes[1]), Ok(resp));
    }
    assert_eq!(
        GatewayResponse::try_from(4),
        Err(ParseError::ConversionError)
    );
}

#[test]
fn message_kind_bytes_round_trip() {
    for value in 0u8..=19 {
        let kind = Messages::try_from(value).expect("kind byte is valid");
        assert_eq!(kind.as_u8(), value);
    }
    assert_eq!(Messages::try_from(20), Err(ParseError::ConversionError));
    assert_eq!(Messages::try_from(255), Err(ParseError::ConversionError));
}

#[test]
fn flavour_and_grade_bytes_round_trip() {
    for value in 0u8..=4 {
        let flavour = IceCream::try_from(value).expect("flavour byte is valid");
        assert_eq!(flavour.as_u8(), value);
    }
    assert_eq!(IceCream::try_from(5), Err(ParseError::ConversionError));
    for value in 0u8..=2 {
        let grade = Grade::try_from(value).expect("grade byte is valid");
        assert_eq!(grade.as_u8(), value);
    }
    assert_eq!(Grade::try_from(3), Err(ParseError::ConversionError));
    assert_eq!(OrderStatus::try_from(2), Err(ParseError::ConversionError));
}

#[test]
fn gateway_action_capture_round_trip() {
    let amount = 1000.0f64;
    let action = GatewayAction::Capture {
        order_id: 7,
        card_number: 32231244,
        amount_bits: amount.to_bits(),
        owner_id: 2,
    };
    let bytes = action.as_bytes();
    assert_eq!(bytes.len(), 15);
    assert_eq!(bytes[0], 0);
    assert_eq!(bytes[1], 7);
    assert_eq!(&bytes[2..6], &32231244u32.to_be_bytes());
    assert_eq!(&bytes[6..14], &amount.to_be_bytes());
    assert_eq!(bytes[14], 2);
    assert_eq!(GatewayAction::try_from(&bytes[..]), Ok(action));
}

#[test]
fn gateway_action_commit_abort_round_trip() {
    let commit = GatewayAction::Commit {
        order_id: 3,
        owner_id: 1,
    };
    assert_eq!(commit.as_bytes(), vec![1u8, 3, 1]);
    assert_eq!(GatewayAction::try_from(&[1u8, 3, 1][..]), Ok(commit));

    let abort = GatewayAction::Abort {
        order_id: 3,
        owner_id: 1,
    };
    assert_eq!(abort.as_bytes(), vec![2u8, 3, 1]);
    assert_eq!(GatewayAction::try_from(&[2u8, 3, 1][..]), Ok(abort));
}

#[test]
fn gateway_action_parse_errors() {
    assert_eq!(
        GatewayAction::try_from(&[][..]),
        Err(ParseError::EmptyPacket)
    );
    assert_eq!(
        GatewayAction::try_from(&[0u8, 1, 2][..]),
        Err(ParseError::IncompleteCapturePacket)
    );
    assert_eq!(
        GatewayAction::try_from(&[1u8][..]),
        Err(ParseError::IncompleteCommitPacket)
    );
    assert_eq!(
        GatewayAction::try_from(&[2u8, 5][..]),
        Err(ParseError::IncompleteAbortPacket)
    );
    assert_eq!(
        GatewayAction::try_from(&[9u8, 1, 2][..]),
        Err(ParseError::UnknownPacket)
    );
}

#[test]
fn parse_errors_convert_into_component_errors() {
    let robot_err = helados_grido::RobotError::from(ParseError::EmptyPacket);
    assert!(matches!(
        robot_err,
        helados_grido::RobotError::Parse(ParseError::EmptyPacket)
    ));
    let screen_err = helados_grido::ScreenError::from(ParseError::UnknownPacket);
    assert!(matches!(
        screen_err,
        helados_grido::ScreenError::Parse(ParseError::UnknownPacket)
    ));
}
