//! A distributed ice-cream shop, modelled and verified.
//!
//! Customer-facing screens place orders, a ring of robots prepares them with
//! shared per-flavour ingredient tokens, and a payment gateway holds and
//! settles card charges under a two-phase commit discipline.  The wire codec,
//! the gateway's pending-payment table and the decision logic of every
//! component live here with proved contracts; sockets, threads and timers
//! stay outside the library and feed plain values in.

mod addresses;
mod bytes;
mod coordinator;
mod errors;
mod gateway;
mod grade;
mod icecream;
mod messages;
mod resolver;
mod robot;
mod screen;

pub use addresses::id_to_addr_leader;
pub use addresses::id_to_addr_resolver;
pub use addresses::id_to_addr_robot;
pub use addresses::id_to_addr_screen;
pub use bytes::push_u32_be;
pub use bytes::push_u64_be;
pub use bytes::read_u32_be;
pub use bytes::read_u64_be;
pub use bytes::lemma_u32_be_round_trip;
pub use bytes::lemma_u64_be_round_trip;
pub use bytes::u32_be_bytes;
pub use bytes::u32_of_be_bytes;
pub use bytes::u64_be_bytes;
pub use bytes::u64_of_be_bytes;
pub use coordinator::spec_has_order_key;
pub use coordinator::spec_mark_robot;
pub use coordinator::spec_robot_available;
pub use coordinator::spec_same_order;
pub use coordinator::ListenRobot;
pub use coordinator::OrderActorMessage;
pub use coordinator::OrderCoordinator;
pub use coordinator::RegisterResolver;
pub use coordinator::RobotStatus;
pub use errors::ParseError;
pub use errors::RobotError;
pub use errors::ScreenError;
pub use gateway::lemma_gateway_action_round_trip;
pub use gateway::lemma_unique_payment;
pub use gateway::spec_has_pending;
pub use gateway::spec_remove_pending;
pub use gateway::GatewayAction;
pub use gateway::PaymentGateway;
pub use gateway::PaymentInformation;
pub use grade::spec_grade_after;
pub use grade::lemma_grade_byte_round_trip;
pub use grade::lemma_grade_cycle;
pub use grade::spec_byte_grade;
pub use grade::spec_grade_byte;
pub use grade::Grade;
pub use grade::Next;
pub use icecream::lemma_bucket_round_trip;
pub use icecream::lemma_flavour_byte_round_trip;
pub use icecream::spec_byte_flavour;
pub use icecream::spec_flavour_byte;
pub use icecream::Bucket;
pub use icecream::IceCream;
pub use messages::lemma_alive_round_trip;
pub use messages::lemma_bully_election_round_trip;
pub use messages::lemma_bully_ok_round_trip;
pub use messages::lemma_coordinator_round_trip;
pub use messages::lemma_gateway_response_round_trip;
pub use messages::lemma_grade_lines_bytes_index;
pub use messages::lemma_grade_lines_bytes_len;
pub use messages::lemma_handshake_round_trip;
pub use messages::lemma_items_bytes_index;
pub use messages::lemma_items_bytes_len;
pub use messages::lemma_keep_alive_from_resolver_round_trip;
pub use messages::lemma_keep_alive_round_trip;
pub use messages::lemma_kind_byte_round_trip;
pub use messages::lemma_new_leader_round_trip;
pub use messages::lemma_order_request_round_trip;
pub use messages::lemma_order_result_round_trip;
pub use messages::lemma_order_round_trip;
pub use messages::lemma_robot_dead_round_trip;
pub use messages::lemma_robot_order_round_trip;
pub use messages::lemma_robot_with_order_round_trip;
pub use messages::lemma_token_round_trip;
pub use messages::spec_byte_response;
pub use messages::spec_byte_status;
pub use messages::spec_grade_line_bytes;
pub use messages::spec_grade_lines_bytes;
pub use messages::spec_item_bytes;
pub use messages::spec_items_bytes;
pub use messages::spec_response_byte;
pub use messages::spec_status_byte;
pub use messages::Alive;
pub use messages::BullyElection;
pub use messages::BullyOk;
pub use messages::Coordinator;
pub use messages::GatewayResponse;
pub use messages::Handshake;
pub use messages::KeepAlive;
pub use messages::KeepAliveFromResolver;
pub use messages::Messages;
pub use messages::NewLeader;
pub use messages::OrderRequest;
pub use messages::OrderResult;
pub use messages::Order;
pub use messages::OrderStatus;
pub use messages::RobotDead;
pub use messages::RobotOrder;
pub use messages::RobotWithOrder;
pub use messages::Token;
pub use resolver::InspectOutcome;
pub use resolver::OrderResolver;
pub use resolver::ResolverEvent;
pub use resolver::ResolverStep;
pub use robot::member_init_step;
pub use robot::lemma_grade_rule_detects_the_lost_token;
pub use robot::lemma_first_index_char;
pub use robot::lemma_reissue_at_most_one_per_flavour;
pub use robot::lemma_reissue_unique_grade;
pub use robot::lemma_round_visits_every_survivor;
pub use robot::spec_first_index;
pub use robot::spec_items_need;
pub use robot::spec_lookup_status;
pub use robot::spec_order_needs;
pub use robot::spec_refresh_status;
pub use robot::spec_reissue_tokens;
pub use robot::spec_ring_sorted;
pub use robot::spec_should_reissue;
pub use robot::spec_splice_cut;
pub use robot::InitAction;
pub use robot::InitEvent;
pub use robot::InitProtocol;
pub use robot::INITIAL_AMOUNT_BITS;
pub use robot::ResultFlag;
pub use robot::Robot;
pub use robot::RobotInspector;
pub use robot::TokenRoute;
pub use screen::spec_max_peer;
pub use screen::CARDNUMBER;
pub use screen::PRICE_BITS;
pub use screen::Screen;
pub use screen::ScreenAction;
pub use screen::ScreenIncoming;
pub use screen::ScreenStatus;
