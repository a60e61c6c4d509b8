//! The payment gateway: a two-phase-commit participant holding the
//! pending-payment table.
//!
//! A capture holds funds for an order, a commit settles them, an abort
//! releases them.  The table is keyed by (order, screen): at most one
//! pending payment ever exists per key, and the contracts here prove that
//! the three actions keep it so.  Amounts are kept as the 64-bit wire
//! encoding that travels in the capture datagram.

use crate::bytes::u32_be_bytes;
use crate::bytes::u32_of_be_bytes;
use crate::bytes::u64_be_bytes;
use crate::bytes::u64_of_be_bytes;
use crate::bytes::lemma_u32_be_round_trip;
use crate::bytes::lemma_u64_be_round_trip;
use crate::bytes::push_u32_be;
use crate::bytes::push_u64_be;
use crate::bytes::read_u32_be;
use crate::bytes::read_u64_be;
use crate::errors::ParseError;
use crate::messages::GatewayResponse;
use rand::Rng;
use vstd::prelude::*;

verus! {

/// A datagram bound for the gateway: the second-phase tag byte is 0 for
/// capture, 1 for commit, 2 for abort.
#[derive(Clone, Copy, Debug, PartialEq, Eq, Structural)]
pub enum GatewayAction {
    /// Hold funds: the order, the card, the amount's 64-bit wire encoding,
    /// and the owning screen.
    Capture { order_id: u8, card_number: u32, amount_bits: u64, owner_id: u8 },
    /// Settle the held funds of (order, screen).
    Commit { order_id: u8, owner_id: u8 },
    /// Release the held funds of (order, screen).
    Abort { order_id: u8, owner_id: u8 },
}

impl GatewayAction {
    /// The datagram: the tag byte, then the fields of the action.
    pub open spec fn spec_bytes(self) -> Seq<u8> {
        match self {
            GatewayAction::Capture { order_id, card_number, amount_bits, owner_id } => seq![
                0u8,
                order_id,
            ] + u32_be_bytes(card_number) + u64_be_bytes(amount_bits) + seq![owner_id],
            GatewayAction::Commit { order_id, owner_id } => seq![1u8, order_id, owner_id],
            GatewayAction::Abort { order_id, owner_id } => seq![2u8, order_id, owner_id],
        }
    }

    /// What parsing a gateway-bound datagram yields: the action, or the
    /// error naming what was missing.
    pub open spec fn spec_parse(bytes: Seq<u8>) -> Result<GatewayAction, ParseError> {
        if bytes.len() == 0 {
            Err(ParseError::EmptyPacket)
        } else if bytes[0] == 0 {
            if bytes.len() < 15 {
                Err(ParseError::IncompleteCapturePacket)
            } else {
                Ok(
                    GatewayAction::Capture {
                        order_id: bytes[1],
                        card_number: u32_of_be_bytes(bytes[2], bytes[3], bytes[4], bytes[5]),
                        amount_bits: u64_of_be_bytes(bytes.subrange(6, 14)),
                        owner_id: bytes[14],
                    },
                )
            }
        } else if bytes[0] == 1 {
            if bytes.len() < 3 {
                Err(ParseError::IncompleteCommitPacket)
            } else {
                Ok(GatewayAction::Commit { order_id: bytes[1], owner_id: bytes[2] })
            }
        } else if bytes[0] == 2 {
            if bytes.len() < 3 {
                Err(ParseError::IncompleteAbortPacket)
            } else {
                Ok(GatewayAction::Abort { order_id: bytes[1], owner_id: bytes[2] })
            }
        } else {
            Err(ParseError::UnknownPacket)
        }
    }

    /// Parses a gateway-bound datagram.
    pub fn try_from(bytes: &[u8]) -> (r: Result<GatewayAction, ParseError>)
        ensures
            r == GatewayAction::spec_parse(bytes@),
    {
        if bytes.len() == 0 {
            return Err(ParseError::EmptyPacket);
        }
        match bytes[0] {
            0 => {
                if bytes.len() < 15 {
                    return Err(ParseError::IncompleteCapturePacket);
                }
                let card_number = read_u32_be(bytes, 2);
                let amount_bits = read_u64_be(bytes, 6);
                Ok(
                    GatewayAction::Capture {
                        order_id: bytes[1],
                        card_number,
                        amount_bits,
                        owner_id: bytes[14],
                    },
                )
            },
            1 => {
                if bytes.len() < 3 {
                    return Err(ParseError::IncompleteCommitPacket);
                }
                Ok(GatewayAction::Commit { order_id: bytes[1], owner_id: bytes[2] })
            },
            2 => {
                if bytes.len() < 3 {
                    return Err(ParseError::IncompleteAbortPacket);
                }
                Ok(GatewayAction::Abort { order_id: bytes[1], owner_id: bytes[2] })
            },
            _ => Err(ParseError::UnknownPacket),
        }
    }

    /// Frames the action as its datagram.
    pub fn as_bytes(self) -> (buf: Vec<u8>)
        ensures
            buf@ == self.spec_bytes(),
    {
        match self {
            GatewayAction::Capture { order_id, card_number, amount_bits, owner_id } => {
                let mut buf: Vec<u8> = Vec::new();
                buf.push(0u8);
                buf.push(order_id);
                push_u32_be(&mut buf, card_number);
                push_u64_be(&mut buf, amount_bits);
                buf.push(owner_id);
                proof {
                    assert(buf@ =~= self.spec_bytes());
                }
                buf
            },
            GatewayAction::Commit { order_id, owner_id } => {
                let buf: Vec<u8> = vec![1u8, order_id, owner_id];
                buf
            },
            GatewayAction::Abort { order_id, owner_id } => {
                let buf: Vec<u8> = vec![2u8, order_id, owner_id];
                buf
            },
        }
    }
}

/// Framing an action and parsing the datagram gives the action back.
pub proof fn lemma_gateway_action_round_trip(a: GatewayAction)
    ensures
        GatewayAction::spec_parse(a.spec_bytes()) == Ok::<GatewayAction, ParseError>(a),
{
    match a {
        GatewayAction::Capture { order_id, card_number, amount_bits, owner_id } => {
            let b = a.spec_bytes();
            lemma_u32_be_round_trip(card_number);
            lemma_u64_be_round_trip(amount_bits);
            assert(b.len() == 15);
            assert(b[2] == u32_be_bytes(card_number)[0]);
            assert(b[3] == u32_be_bytes(card_number)[1]);
            assert(b[4] == u32_be_bytes(card_number)[2]);
            assert(b[5] == u32_be_bytes(card_number)[3]);
            assert(b.subrange(6, 14) =~= u64_be_bytes(amount_bits));
            assert(b[14] == owner_id);
        },
        GatewayAction::Commit { .. } => {},
        GatewayAction::Abort { .. } => {},
    }
}

/// One row of the pending-payment table.
#[derive(Clone, Copy, Debug, PartialEq, Eq, Structural)]
pub struct PaymentInformation {
    pub order_id: u8,
    pub card_number: u32,
    /// The amount, as the 64-bit encoding that travels on the wire.
    pub amount_bits: u64,
    pub owner_id: u8,
}

/// Whether the table holds a row keyed (order, screen).
pub open spec fn spec_has_pending(s: Seq<PaymentInformation>, order_id: u8, owner_id: u8) -> bool {
    exists|i: int|
        0 <= i < s.len() && (#[trigger] s[i]).order_id == order_id && s[i].owner_id == owner_id
}

/// The table with every row keyed (order, screen) taken out.
pub open spec fn spec_remove_pending(
    s: Seq<PaymentInformation>,
    order_id: u8,
    owner_id: u8,
) -> Seq<PaymentInformation> {
    s.filter(|p: PaymentInformation| !(p.order_id == order_id && p.owner_id == owner_id))
}

/// The two-phase-commit participant: the pending-payment table, guarded by
/// the process around it.
pub struct PaymentGateway {
    /// The rows currently holding funds.
    pub pending_payments: Vec<PaymentInformation>,
}

impl PaymentGateway {
    /// No two rows share a key: for any (order, screen) at most one payment
    /// is ever pending.
    pub open spec fn wf(self) -> bool {
        forall|i: int, j: int|
            0 <= i < j < self.pending_payments@.len() ==> !((
            #[trigger] self.pending_payments@[i]).order_id == (
            #[trigger] self.pending_payments@[j]).order_id && self.pending_payments@[i].owner_id
                == self.pending_payments@[j].owner_id)
    }

    /// An empty table.
    pub fn new() -> (g: PaymentGateway)
        ensures
            g.wf(),
            g.pending_payments@.len() == 0,
    {
        PaymentGateway { pending_payments: Vec::new() }
    }

    /// The capture verdict once the card decision is in hand: a duplicate
    /// key is refused whatever the card did, a rejected card holds nothing,
    /// and otherwise the row is inserted and acknowledged.
    pub fn capture_decided(&mut self, info: PaymentInformation, rejected: bool) -> (r:
        GatewayResponse)
        requires
            old(self).wf(),
        ensures
            final(self).wf(),
            spec_has_pending(old(self).pending_payments@, info.order_id, info.owner_id) ==> r
                == GatewayResponse::DuplicatedOrder && *final(self) == *old(self),
            !spec_has_pending(old(self).pending_payments@, info.order_id, info.owner_id) ==> (
            if rejected {
                r == GatewayResponse::RejectedCard && *final(self) == *old(self)
            } else {
                r == GatewayResponse::Acknowledge && final(self).pending_payments@ == old(
                    self).pending_payments@ + seq![info]
            }),
    {
        if self.find_pending(info.order_id, info.owner_id) {
            return GatewayResponse::DuplicatedOrder;
        }
        if rejected {
            return GatewayResponse::RejectedCard;
        }
        self.pending_payments.push(info);
        GatewayResponse::Acknowledge
    }

    /// Captures a payment, drawing the card decision at the given rejection
    /// rate in parts per million.  Whatever the draw: a duplicate key is
    /// refused and nothing else changes the table but an acknowledged
    /// insert; rate 0 never rejects a card, rate 1000000 always does.
    pub fn capture(&mut self, info: PaymentInformation, rejection_ppm: u32) -> (r: GatewayResponse)
        requires
            old(self).wf(),
        ensures
            final(self).wf(),
            spec_has_pending(old(self).pending_payments@, info.order_id, info.owner_id) ==> r
                == GatewayResponse::DuplicatedOrder && *final(self) == *old(self),
            !spec_has_pending(old(self).pending_payments@, info.order_id, info.owner_id) ==> (r
                == GatewayResponse::RejectedCard && *final(self) == *old(self)) || (r
                == GatewayResponse::Acknowledge && final(self).pending_payments@ == old(
                self).pending_payments@ + seq![info]),
            r != GatewayResponse::NoSuchPendingPayment,
            rejection_ppm == 0 ==> r != GatewayResponse::RejectedCard,
            rejection_ppm >= 1000000 && !spec_has_pending(
                old(self).pending_payments@,
                info.order_id,
                info.owner_id,
            ) ==> r == GatewayResponse::RejectedCard,
    {
        let draw = sample_ppm();
        let rejected = draw < rejection_ppm;
        self.capture_decided(info, rejected)
    }

    /// Settles the pending payment keyed (order, screen): the row leaves
    /// the table, and only a missing row is answered, with
    /// `NoSuchPendingPayment`.
    pub fn commit(&mut self, order_id: u8, owner_id: u8) -> (r: Option<GatewayResponse>)
        requires
            old(self).wf(),
        ensures
            final(self).wf(),
            final(self).pending_payments@ == spec_remove_pending(
                old(self).pending_payments@,
                order_id,
                owner_id,
            ),
            spec_has_pending(old(self).pending_payments@, order_id, owner_id) ==> r is None,
            !spec_has_pending(old(self).pending_payments@, order_id, owner_id) ==> r == Some(
                GatewayResponse::NoSuchPendingPayment,
            ),
    {
        let found = self.remove_pending(order_id, owner_id);
        if found {
            None
        } else {
            Some(GatewayResponse::NoSuchPendingPayment)
        }
    }

    /// Releases the pending payment keyed (order, screen): the row leaves
    /// the table, and a missing row is not reported.
    pub fn abort(&mut self, order_id: u8, owner_id: u8) -> (found: bool)
        requires
            old(self).wf(),
        ensures
            final(self).wf(),
            final(self).pending_payments@ == spec_remove_pending(
                old(self).pending_payments@,
                order_id,
                owner_id,
            ),
            found == spec_has_pending(old(self).pending_payments@, order_id, owner_id),
    {
        self.remove_pending(order_id, owner_id)
    }

    /// Handles one parsed gateway-bound datagram and says what to answer:
    /// every capture is answered, a commit is answered only when no row was
    /// pending, an abort never is.
    pub fn handle_action(&mut self, action: GatewayAction, rejection_ppm: u32) -> (resp: Option<
        GatewayResponse,
    >)
        requires
            old(self).wf(),
        ensures
            final(self).wf(),
            action matches GatewayAction::Capture { order_id, card_number, amount_bits, owner_id }
                ==> resp is Some && (resp == Some(GatewayResponse::Acknowledge) <==> final(self).pending_payments@
                == old(self).pending_payments@ + seq![
                (PaymentInformation { order_id, card_number, amount_bits, owner_id }),
            ]),
            action matches GatewayAction::Capture { order_id, card_number, amount_bits, owner_id }
                ==> (spec_has_pending(old(self).pending_payments@, order_id, owner_id) ==> resp
                == Some(GatewayResponse::DuplicatedOrder) && *final(self) == *old(self)),
            action is Capture && rejection_ppm == 0 ==> resp != Some(GatewayResponse::RejectedCard),
            action matches GatewayAction::Commit { order_id, owner_id } ==> final(self).pending_payments@
                == spec_remove_pending(
                old(self).pending_payments@,
                order_id,
                owner_id,
            ) && (resp == Some(GatewayResponse::NoSuchPendingPayment) <==> !spec_has_pending(
                old(self).pending_payments@,
                order_id,
                owner_id,
            )) && (resp is None <==> spec_has_pending(
                old(self).pending_payments@,
                order_id,
                owner_id,
            )),
            action matches GatewayAction::Abort { order_id, owner_id } ==> resp is None && final(
                self).pending_payments@ == spec_remove_pending(
                old(self).pending_payments@,
                order_id,
                owner_id,
            ),
    {
        match action {
            GatewayAction::Capture { order_id, card_number, amount_bits, owner_id } => {
                let info = PaymentInformation { order_id, card_number, amount_bits, owner_id };
                let r = self.capture(info, rejection_ppm);
                proof {
                    if r != GatewayResponse::Acknowledge {
                        assert(final(self).pending_payments@.len() == old(
                            self).pending_payments@.len());
                    }
                }
                Some(r)
            },
            GatewayAction::Commit { order_id, owner_id } => self.commit(order_id, owner_id),
            GatewayAction::Abort { order_id, owner_id } => {
                let _ = self.abort(order_id, owner_id);
                None
            },
        }
    }

    /// Whether the table holds a row keyed (order, screen).
    fn find_pending(&self, order_id: u8, owner_id: u8) -> (found: bool)
        ensures
            found == spec_has_pending(self.pending_payments@, order_id, owner_id),
    {
        let mut i: usize = 0;
        while i < self.pending_payments.len()
            invariant
                i <= self.pending_payments@.len(),
                forall|j: int|
                    0 <= j < i ==> !((#[trigger] self.pending_payments@[j]).order_id == order_id
                        && self.pending_payments@[j].owner_id == owner_id),
            decreases self.pending_payments@.len() - i,
        {
            let p = self.pending_payments[i];
            if p.order_id == order_id && p.owner_id == owner_id {
                return true;
            }
            i = i + 1;
        }
        false
    }

    /// Drops every row keyed (order, screen) and says whether any was
    /// there.
    fn remove_pending(&mut self, order_id: u8, owner_id: u8) -> (found: bool)
        requires
            old(self).wf(),
        ensures
            final(self).wf(),
            final(self).pending_payments@ == spec_remove_pending(
                old(self).pending_payments@,
                order_id,
                owner_id,
            ),
            found == spec_has_pending(old(self).pending_payments@, order_id, owner_id),
    {
        let ghost orig = self.pending_payments@;
        let ghost pred = |p: PaymentInformation| !(p.order_id == order_id && p.owner_id == owner_id);
        let mut kept: Vec<PaymentInformation> = Vec::new();
        let mut found = false;
        let mut i: usize = 0;
        while i < self.pending_payments.len()
            invariant
                i <= orig.len(),
                self.pending_payments@ == orig,
                kept@ == orig.take(i as int).filter(pred),
                found == spec_has_pending(orig.take(i as int), order_id, owner_id),
                pred == (|p: PaymentInformation|
                    !(p.order_id == order_id && p.owner_id == owner_id)),
            decreases orig.len() - i,
        {
            let p = self.pending_payments[i];
            proof {
                assert(orig.take(i + 1).drop_last() =~= orig.take(i as int));
                assert(orig.take(i + 1).last() == orig[i as int]);
                reveal_with_fuel(Seq::filter, 2);
                if spec_has_pending(orig.take(i as int), order_id, owner_id) {
                    let w = choose|w: int|
                        0 <= w < i && (#[trigger] orig.take(i as int)[w]).order_id == order_id
                            && orig.take(i as int)[w].owner_id == owner_id;
                    assert(orig.take(i + 1)[w] == orig.take(i as int)[w]);
                }
            }
            if p.order_id == order_id && p.owner_id == owner_id {
                found = true;
                proof {
                    assert(orig.take(i + 1)[i as int] == orig[i as int]);
                }
            } else {
                kept.push(p);
            }
            i = i + 1;
        }
        proof {
            assert(orig.take(orig.len() as int) =~= orig);
        }
        self.pending_payments = kept;
        proof {
            lemma_filter_keeps_wf(orig, pred);
        }
        found
    }
}

/// Any subsequence kept by a filter preserves pairwise key uniqueness.
proof fn lemma_filter_keeps_wf(s: Seq<PaymentInformation>, pred: spec_fn(PaymentInformation) -> bool)
    requires
        forall|i: int, j: int|
            0 <= i < j < s.len() ==> !((#[trigger] s[i]).order_id == (#[trigger] s[j]).order_id
                && s[i].owner_id == s[j].owner_id),
    ensures
        forall|i: int, j: int|
            0 <= i < j < s.filter(pred).len() ==> !((#[trigger] s.filter(pred)[i]).order_id == (
            #[trigger] s.filter(pred)[j]).order_id && s.filter(pred)[i].owner_id == s.filter(
                pred,
            )[j].owner_id),
    decreases s.len(),
{
    reveal_with_fuel(Seq::filter, 2);
    if s.len() > 0 {
        let prefix = s.drop_last();
        lemma_filter_keeps_wf(prefix, pred);
        let f = s.filter(pred);
        let fp = prefix.filter(pred);
        assert forall|i: int, j: int| 0 <= i < j < f.len() implies !((#[trigger] f[i]).order_id
            == (#[trigger] f[j]).order_id && f[i].owner_id == f[j].owner_id) by {
            if pred(s.last()) && j == f.len() - 1 {
                lemma_filter_subset(prefix, pred);
                assert(f[i] == fp[i]);
                assert(prefix.contains(fp[i]));
                let w = choose|w: int| 0 <= w < prefix.len() && prefix[w] == fp[i];
                assert(s[w] == prefix[w]);
                assert(f[j] == s.last());
                assert(s.last() == s[s.len() - 1]);
            } else {
                assert(f[i] == fp[i] && f[j] == fp[j]);
            }
        }
    }
}

/// Every element a filter keeps stands somewhere in the sequence it was
/// filtered from.
proof fn lemma_filter_subset(s: Seq<PaymentInformation>, pred: spec_fn(PaymentInformation) -> bool)
    ensures
        forall|i: int| 0 <= i < s.filter(pred).len() ==> s.contains(#[trigger] s.filter(pred)[i]),
    decreases s.len(),
{
    reveal_with_fuel(Seq::filter, 2);
    if s.len() > 0 {
        let prefix = s.drop_last();
        lemma_filter_subset(prefix, pred);
        let f = s.filter(pred);
        let fp = prefix.filter(pred);
        assert forall|i: int| 0 <= i < f.len() implies s.contains(#[trigger] f[i]) by {
            if i < fp.len() {
                assert(f[i] == fp[i]);
                assert(prefix.contains(fp[i]));
                let w = choose|w: int| 0 <= w < prefix.len() && prefix[w] == fp[i];
                assert(s[w] == fp[i]);
            } else {
                assert(f[i] == s.last());
                assert(s[s.len() - 1] == s.last());
            }
        }
    }
}

/// The unique-payment guarantee: in a well-formed table, any two rows that
/// share an order and a screen are the same row.
pub proof fn lemma_unique_payment(g: PaymentGateway, i: int, j: int)
    requires
        g.wf(),
        0 <= i < g.pending_payments@.len(),
        0 <= j < g.pending_payments@.len(),
        g.pending_payments@[i].order_id == g.pending_payments@[j].order_id,
        g.pending_payments@[i].owner_id == g.pending_payments@[j].owner_id,
    ensures
        i == j,
{
}

/// Relies on rand::Rng::gen_range over `0..1_000_000`: a draw uniform on
/// that range, so always below one million.
#[verifier::external_body]
fn sample_ppm() -> (draw: u32)
    ensures
        draw < 1000000,
{
    rand::thread_rng().gen_range(0..1_000_000u32)
}

} // verus!
