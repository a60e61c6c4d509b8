//! A ring member: token rotation, order execution, and ring repair.
//!
//! The robot's decisions are pure functions of its state and the datagram
//! in hand; the sockets, threads and locks that carry them sit outside the
//! library.  Each handler says exactly which messages leave the robot, so
//! rotation neither drops nor duplicates a token: what arrives is either
//! handed to the order handler or forwarded to the next ring member, never
//! both and never neither.

use crate::grade::Grade;
use crate::grade::Next;
use crate::icecream::Bucket;
use crate::icecream::IceCream;
use crate::messages::Handshake;
use crate::messages::Order;
use crate::messages::OrderResult;
use crate::messages::OrderStatus;
use crate::messages::RobotDead;
use crate::messages::RobotWithOrder;
use crate::messages::Token;
use vstd::prelude::*;
use vstd::std_specs::cmp::PartialOrdSpec;

verus! {

/// The 32-bit wire encoding of the twenty units each bucket starts with.
pub const INITIAL_AMOUNT_BITS: u32 = 0x41A00000;

/// Why the order handler may resume after shipping a result: the resolver
/// acknowledged it, or a leader change short-circuited the wait.
#[derive(Clone, Copy, Debug, PartialEq, Eq, Structural)]
pub enum ResultFlag {
    /// No acknowledgement yet.
    Idle,
    /// The resolver acknowledged the shipped result.
    Acked,
    /// A new leader's resolver took the conversation over.
    Reassigned,
}

/// Where an arriving token goes.
pub enum TokenRoute {
    /// The current order needs this flavour: hand the bucket to the order
    /// handler.
    HandToOrderHandler(Bucket),
    /// Refresh the status row and pass the token on to the next ring
    /// member.
    Forward(Token),
}

/// The first row of `ts` holding `flavour`, if any.
pub open spec fn spec_lookup_status(ts: Seq<(IceCream, u32, Grade)>, flavour: IceCream) -> Option<
    (u32, Grade),
>
    decreases ts.len(),
{
    if ts.len() == 0 {
        None
    } else if ts[0].0 == flavour {
        Some((ts[0].1, ts[0].2))
    } else {
        spec_lookup_status(ts.skip(1), flavour)
    }
}

/// `ts` with the rows holding `flavour` refreshed: the amount replaced and
/// the grade stepped.
pub open spec fn spec_refresh_status(
    ts: Seq<(IceCream, u32, Grade)>,
    flavour: IceCream,
    amount_bits: u32,
) -> Seq<(IceCream, u32, Grade)> {
    ts.map_values(
        |row: (IceCream, u32, Grade)|
            if row.0 == flavour {
                (row.0, amount_bits, row.2.next_spec())
            } else {
                row
            },
    )
}

/// Whether the order lines still ask for `flavour`.
pub open spec fn spec_items_need(items: Seq<(IceCream, u32)>, flavour: IceCream) -> bool {
    exists|i: int| 0 <= i < items.len() && (#[trigger] items[i]).0 == flavour
}

/// Whether the order still asks for `flavour`.
pub open spec fn spec_order_needs(order: Option<Order>, flavour: IceCream) -> bool {
    match order {
        Some(o) => spec_items_need(o.items@, flavour),
        None => false,
    }
}

/// Taking the one line of `flavour` out of a duplicate-free order leaves
/// exactly the other flavours wanted.
proof fn lemma_items_need_after_remove(before: Seq<(IceCream, u32)>, idx: int, flavour: IceCream)
    requires
        0 <= idx < before.len(),
        before[idx].0 == flavour,
        forall|i: int, j: int|
            0 <= i < j < before.len() ==> (#[trigger] before[i]).0 != (#[trigger] before[j]).0,
    ensures
        !spec_items_need(before.remove(idx), flavour),
        forall|f: IceCream|
            f != flavour ==> (spec_items_need(before.remove(idx), f) <==> spec_items_need(
                before,
                f,
            )),
{
    let after = before.remove(idx);
    assert forall|w: int| 0 <= w < after.len() implies (#[trigger] after[w]).0 != flavour by {
        if w < idx {
            assert(after[w] == before[w]);
        } else {
            assert(after[w] == before[w + 1]);
        }
    }
    assert forall|f: IceCream| f != flavour implies (spec_items_need(after, f)
        <==> spec_items_need(before, f)) by {
        if spec_items_need(after, f) {
            let w = choose|w: int| 0 <= w < after.len() && (#[trigger] after[w]).0 == f;
            if w < idx {
                assert(before[w] == after[w]);
            } else {
                assert(before[w + 1] == after[w]);
            }
        }
        if spec_items_need(before, f) {
            let w = choose|w: int| 0 <= w < before.len() && (#[trigger] before[w]).0 == f;
            if w < idx {
                assert(after[w] == before[w]);
            } else {
                assert(w != idx);
                assert(after[w - 1] == before[w]);
            }
        }
    }
}

/// Whether the ring lists its member ids in strictly increasing order.
/// The repair rule's grade comparison assumes it, so a ring member asserts
/// it at startup.
pub open spec fn spec_ring_sorted(ring: Seq<u8>) -> bool {
    forall|a: int, b: int| 0 <= a < b < ring.len() ==> ring[a] < ring[b]
}

/// The position where an arriving handshake splices the ring: the first
/// occurrence of the round's first id, or the ring's start when that id is
/// unknown.
pub open spec fn spec_splice_cut(ring: Seq<u8>, head: u8) -> int {
    if ring.contains(head) {
        spec_first_index(ring, head)
    } else {
        0
    }
}

/// The first position of `x` in `s`; the length when `x` is absent.
pub open spec fn spec_first_index(s: Seq<u8>, x: u8) -> int
    decreases s.len(),
{
    if s.len() == 0 {
        0
    } else if s[0] == x {
        0
    } else {
        1 + spec_first_index(s.skip(1), x)
    }
}

/// A position that holds `x`, with nothing equal before it, is the first
/// position of `x`.
pub proof fn lemma_first_index_char(s: Seq<u8>, x: u8, i: int)
    requires
        0 <= i < s.len(),
        s[i] == x,
        forall|j: int| 0 <= j < i ==> s[j] != x,
    ensures
        spec_first_index(s, x) == i,
        s.contains(x),
    decreases s.len(),
{
    if i > 0 {
        lemma_first_index_char(s.skip(1), x, i - 1);
    }
}

/// The grade rule detects exactly the lost token.  The reporter is the dead
/// robot's downstream neighbour and the recipient its upstream one, so the
/// recipient has seen the flavour's token either as often as the reporter
/// or exactly once more; with the ring sorted by id, the token sat with the
/// dead robot precisely when the recipient is one sighting ahead (no id
/// wrap) or level (the lap boundary lies in the dead segment).  On exactly
/// those observations the rule re-issues: one surviving copy per flavour,
/// never two, never none.
pub proof fn lemma_grade_rule_detects_the_lost_token(
    recipient: u8,
    reporter: u8,
    recipient_bumps: nat,
    reporter_bumps: nat,
)
    requires
        recipient != reporter,
        reporter_bumps <= recipient_bumps <= reporter_bumps + 1,
    ensures
        recipient < reporter ==> (spec_should_reissue(
            recipient,
            crate::grade::spec_grade_after(recipient_bumps),
            reporter,
            crate::grade::spec_grade_after(reporter_bumps),
        ) <==> recipient_bumps == reporter_bumps + 1),
        recipient > reporter ==> (spec_should_reissue(
            recipient,
            crate::grade::spec_grade_after(recipient_bumps),
            reporter,
            crate::grade::spec_grade_after(reporter_bumps),
        ) <==> recipient_bumps == reporter_bumps),
{
    let g_r = crate::grade::spec_grade_after(recipient_bumps);
    let g_d = crate::grade::spec_grade_after(reporter_bumps);
    if recipient_bumps == reporter_bumps + 1 {
        assert(g_r == g_d.next_spec());
        assert(g_r.newer_than(g_d));
        assert(g_r != g_d);
    } else {
        assert(g_r == g_d);
        assert(!g_r.newer_than(g_d));
    }
}

/// One repair round over survivors with pairwise distinct ids stitches the
/// ring back together.  The round's message after `i` hops lists the first
/// `i` survivors: the survivor receiving it therefore learns the survivor
/// just before it as its new upstream neighbour, never finds itself in the
/// list early — so every survivor is visited — and extends the list with
/// itself; only a list that has come full circle names its reader.
pub proof fn lemma_round_visits_every_survivor(survivors: Seq<u8>, i: int)
    requires
        forall|a: int, b: int|
            0 <= a < b < survivors.len() ==> survivors[a] != survivors[b],
        1 <= i < survivors.len(),
    ensures
        survivors.take(i).len() == i,
        survivors.take(i).last() == survivors[i - 1],
        !survivors.take(i).contains(survivors[i]),
        survivors.take(i).push(survivors[i]) == survivors.take(i + 1),
        survivors.take(survivors.len() as int).contains(survivors[0]),
{
    if survivors.take(i).contains(survivors[i]) {
        let w = choose|w: int|
            0 <= w < i && #[trigger] survivors.take(i)[w] == survivors[i];
        assert(survivors[w] == survivors[i]);
        assert(false);
    }
    assert(survivors.take(i).push(survivors[i]) =~= survivors.take(i + 1));
    assert(survivors.take(survivors.len() as int)[0] == survivors[0]);
}

/// Whether a survivor with grade `my_grade` re-issues a flavour whose
/// reported grade is `reported`: an upstream survivor (lower id than the
/// reporter) must hold the strictly newer observation, a downstream one
/// (higher id) the same observation.
pub open spec fn spec_should_reissue(
    self_id: u8,
    my_grade: Grade,
    reporter: u8,
    reported: Grade,
) -> bool {
    (self_id < reporter && my_grade.newer_than(reported)) || (self_id > reporter && my_grade
        == reported)
}

/// For a fixed death report, exactly one grade observation makes the
/// surviving recipient re-issue a flavour's token: the grade-comparison
/// rule never lets two different observations of the same survivor both
/// qualify, and one always does.
pub proof fn lemma_reissue_unique_grade(self_id: u8, reporter: u8, reported: Grade)
    requires
        self_id != reporter,
    ensures
        exists|h: Grade| spec_should_reissue(self_id, h, reporter, reported),
        forall|h1: Grade, h2: Grade|
            spec_should_reissue(self_id, h1, reporter, reported) && spec_should_reissue(
                self_id,
                h2,
                reporter,
                reported,
            ) ==> h1 == h2,
{
    if self_id < reporter {
        assert(spec_should_reissue(self_id, reported.next_spec(), reporter, reported));
    } else {
        assert(spec_should_reissue(self_id, reported, reporter, reported));
    }
}

/// A death report whose lines name each flavour at most once makes the
/// recipient re-emit at most one token per flavour, and only flavours the
/// report names: repair cannot duplicate a token.
pub proof fn lemma_reissue_at_most_one_per_flavour(
    self_id: u8,
    ts: Seq<(IceCream, u32, Grade)>,
    reporter: u8,
    report: Seq<(IceCream, Grade)>,
)
    requires
        forall|i: int, j: int|
            0 <= i < j < report.len() ==> (#[trigger] report[i]).0 != (#[trigger] report[j]).0,
    ensures
        ({
            let toks = spec_reissue_tokens(self_id, ts, reporter, report);
            &&& forall|i: int|
                0 <= i < toks.len() ==> exists|w: int|
                    0 <= w < report.len() && (#[trigger] report[w]).0 == (
                    #[trigger] toks[i]).bucket.ice_cream
            &&& forall|i: int, j: int|
                0 <= i < j < toks.len() ==> (#[trigger] toks[i]).bucket.ice_cream != (
                #[trigger] toks[j]).bucket.ice_cream
        }),
    decreases report.len(),
{
    if report.len() > 0 {
        let prefix = report.drop_last();
        lemma_reissue_at_most_one_per_flavour(self_id, ts, reporter, prefix);
        let toks = spec_reissue_tokens(self_id, ts, reporter, report);
        let ptoks = spec_reissue_tokens(self_id, ts, reporter, prefix);
        assert forall|i: int| 0 <= i < toks.len() implies exists|w: int|
            0 <= w < report.len() && (#[trigger] report[w]).0 == (
        #[trigger] toks[i]).bucket.ice_cream by {
            if i < ptoks.len() {
                assert(toks[i] == ptoks[i]);
                let w = choose|w: int|
                    0 <= w < prefix.len() && (#[trigger] prefix[w]).0 == ptoks[i].bucket.ice_cream;
                assert(report[w] == prefix[w]);
            } else {
                assert(toks[i].bucket.ice_cream == report.last().0);
                assert(report[report.len() - 1] == report.last());
            }
        }
        assert forall|i: int, j: int| 0 <= i < j < toks.len() implies (
        #[trigger] toks[i]).bucket.ice_cream != (#[trigger] toks[j]).bucket.ice_cream by {
            if j == toks.len() - 1 && toks.len() > ptoks.len() {
                assert(toks[i] == ptoks[i]);
                assert(toks[j].bucket.ice_cream == report.last().0);
                let w = choose|w: int|
                    0 <= w < prefix.len() && (#[trigger] prefix[w]).0 == ptoks[i].bucket.ice_cream;
                assert(report[w] == prefix[w]);
                assert(report[report.len() - 1] == report.last());
                assert(report[w].0 != report[report.len() - 1].0);
            } else {
                assert(toks[i] == ptoks[i] && toks[j] == ptoks[j]);
            }
        }
    }
}

/// The tokens a death report makes this robot re-emit: one per reported
/// flavour whose own observation qualifies, carrying the last-seen amount.
pub open spec fn spec_reissue_tokens(
    self_id: u8,
    ts: Seq<(IceCream, u32, Grade)>,
    reporter: u8,
    report: Seq<(IceCream, Grade)>,
) -> Seq<Token>
    decreases report.len(),
{
    if report.len() == 0 {
        Seq::empty()
    } else {
        spec_reissue_tokens(self_id, ts, reporter, report.drop_last()) + (
        match spec_lookup_status(ts, report.last().0) {
            Some(row) => {
                if spec_should_reissue(self_id, row.1, reporter, report.last().1) {
                    seq![
                        Token {
                            owner: self_id,
                            bucket: Bucket { ice_cream: report.last().0, amount_bits: row.0 },
                        },
                    ]
                } else {
                    Seq::empty()
                }
            },
            None => Seq::empty(),
        })
    }
}

/// A ring member's guarded state, as plain values: the ring layout, the
/// current assignment, the per-flavour observations, and the rendezvous
/// flag between receiver and order handler.
pub struct Robot {
    /// This robot's id.
    pub id: u8,
    /// The ring as an ordered id sequence.
    pub ring_path: Vec<u8>,
    /// The id of the upstream neighbour.
    pub prev: u8,
    /// The id of the downstream neighbour, where tokens are forwarded.
    pub next: u8,
    /// The current assignment, if any.
    pub order: Option<Order>,
    /// Per flavour: the last-seen amount encoding and the grade of that
    /// observation.
    pub token_status: Vec<(IceCream, u32, Grade)>,
    /// The rendezvous flag between the receiver and the order handler.
    pub result_sent: ResultFlag,
}

impl Robot {
    /// Each flavour has at most one status row, and the current order, if
    /// any, is itself well formed.
    pub open spec fn wf(self) -> bool {
        &&& forall|i: int, j: int|
            0 <= i < j < self.token_status@.len() ==> (#[trigger] self.token_status@[i]).0 != (
            #[trigger] self.token_status@[j]).0
        &&& (self.order matches Some(o) ==> o.wf())
    }

    /// A fresh ring member: neighbours taken from the ring layout by id
    /// arithmetic, every flavour at the initial amount with the lowest
    /// grade, no assignment.  The ring must list its ids in increasing
    /// order and include this robot: the repair rule reads grades under
    /// that layout.
    pub fn new(id: u8, ring_path: Vec<u8>) -> (r: Robot)
        requires
            1 <= ring_path@.len() <= 256,
            spec_ring_sorted(ring_path@),
            ring_path@.contains(id),
        ensures
            r.wf(),
            r.id == id,
            r.ring_path == ring_path,
            r.prev == (id as int + ring_path@.len() - 1) % (ring_path@.len() as int),
            r.next == (id as int + ring_path@.len() + 1) % (ring_path@.len() as int),
            r.order is None,
            r.result_sent == ResultFlag::Idle,
            r.token_status@.len() == 5,
            forall|i: int|
                0 <= i < 5 ==> (#[trigger] r.token_status@[i]).1 == INITIAL_AMOUNT_BITS
                    && r.token_status@[i].2 == Grade::A,
            r.token_status@[0].0 == IceCream::Chocolate,
            r.token_status@[1].0 == IceCream::Vanilla,
            r.token_status@[2].0 == IceCream::Strawberry,
            r.token_status@[3].0 == IceCream::Lemon,
            r.token_status@[4].0 == IceCream::DulceDeLeche,
    {
        let n = ring_path.len();
        let prev_id = ((id as usize + n - 1) % n) as u8;
        let next_id = ((id as usize + n + 1) % n) as u8;
        proof {
            assert((id as int + n - 1) % (n as int) < n);
            assert((id as int + n + 1) % (n as int) < n);
            assert(prev_id == (id as int + n - 1) % (n as int));
            assert(next_id == (id as int + n + 1) % (n as int));
        }
        let mut token_status: Vec<(IceCream, u32, Grade)> = Vec::new();
        token_status.push((IceCream::Chocolate, INITIAL_AMOUNT_BITS, Grade::A));
        token_status.push((IceCream::Vanilla, INITIAL_AMOUNT_BITS, Grade::A));
        token_status.push((IceCream::Strawberry, INITIAL_AMOUNT_BITS, Grade::A));
        token_status.push((IceCream::Lemon, INITIAL_AMOUNT_BITS, Grade::A));
        token_status.push((IceCream::DulceDeLeche, INITIAL_AMOUNT_BITS, Grade::A));
        Robot {
            id,
            ring_path,
            prev: prev_id,
            next: next_id,
            order: None,
            token_status,
            result_sent: ResultFlag::Idle,
        }
    }

    /// The five startup tokens that the lowest-id robot emits, one per
    /// flavour at the initial amount; emitting them steps each grade once.
    pub fn initial_tokens(&mut self) -> (tokens: Vec<Token>)
        requires
            old(self).wf(),
        ensures
            final(self).wf(),
            final(self).id == old(self).id && final(self).ring_path == old(self).ring_path && final(self).prev == old(self).prev && final(self).next == old(self).next && final(self).order
                == old(self).order && final(self).result_sent == old(self).result_sent,
            final(self).token_status@.len() == old(self).token_status@.len(),
            forall|i: int|
                0 <= i < old(self).token_status@.len() ==> #[trigger] final(self).token_status@[i]
                    == (
                    old(self).token_status@[i].0,
                    old(self).token_status@[i].1,
                    old(self).token_status@[i].2.next_spec(),
                ),
            tokens@.len() == 5,
            forall|i: int|
                0 <= i < 5 ==> (#[trigger] tokens@[i]).owner == old(self).id
                    && tokens@[i].bucket.amount_bits == INITIAL_AMOUNT_BITS,
            tokens@[0].bucket.ice_cream == IceCream::Chocolate,
            tokens@[1].bucket.ice_cream == IceCream::Vanilla,
            tokens@[2].bucket.ice_cream == IceCream::DulceDeLeche,
            tokens@[3].bucket.ice_cream == IceCream::Strawberry,
            tokens@[4].bucket.ice_cream == IceCream::Lemon,
    {
        let mut tokens: Vec<Token> = Vec::new();
        tokens.push(Token::new(self.id, Bucket::new(IceCream::Chocolate, INITIAL_AMOUNT_BITS)));
        tokens.push(Token::new(self.id, Bucket::new(IceCream::Vanilla, INITIAL_AMOUNT_BITS)));
        tokens.push(Token::new(self.id, Bucket::new(IceCream::DulceDeLeche, INITIAL_AMOUNT_BITS)));
        tokens.push(Token::new(self.id, Bucket::new(IceCream::Strawberry, INITIAL_AMOUNT_BITS)));
        tokens.push(Token::new(self.id, Bucket::new(IceCream::Lemon, INITIAL_AMOUNT_BITS)));
        let mut refreshed: Vec<(IceCream, u32, Grade)> = Vec::new();
        let mut i: usize = 0;
        while i < self.token_status.len()
            invariant
                i <= self.token_status@.len(),
                self.token_status == old(self).token_status,
                refreshed@.len() == i,
                forall|j: int|
                    0 <= j < i ==> #[trigger] refreshed@[j] == (
                        self.token_status@[j].0,
                        self.token_status@[j].1,
                        self.token_status@[j].2.next_spec(),
                    ),
            decreases self.token_status@.len() - i,
        {
            let (flavour, amount, grade) = self.token_status[i];
            refreshed.push((flavour, amount, grade.next()));
            i = i + 1;
        }
        self.token_status = refreshed;
        proof {
            assert forall|i2: int, j2: int| 0 <= i2 < j2 < self.token_status@.len() implies (
            #[trigger] self.token_status@[i2]).0 != (#[trigger] self.token_status@[j2]).0 by {
                assert(old(self).token_status@[i2].0 != old(self).token_status@[j2].0);
            }
        }
        tokens
    }

    /// Refreshes the status row of `flavour`: the amount replaced, the
    /// grade stepped.
    fn refresh_status(&mut self, flavour: IceCream, amount_bits: u32)
        requires
            old(self).wf(),
        ensures
            final(self).wf(),
            final(self).token_status@ == spec_refresh_status(
                old(self).token_status@,
                flavour,
                amount_bits,
            ),
            final(self).id == old(self).id && final(self).ring_path == old(self).ring_path && final(self).prev == old(self).prev && final(self).next == old(self).next && final(self).order
                == old(self).order && final(self).result_sent == old(self).result_sent,
    {
        let mut refreshed: Vec<(IceCream, u32, Grade)> = Vec::new();
        let mut i: usize = 0;
        while i < self.token_status.len()
            invariant
                i <= self.token_status@.len(),
                self.token_status == old(self).token_status,
                refreshed@ == spec_refresh_status(
                    self.token_status@.take(i as int),
                    flavour,
                    amount_bits,
                ),
            decreases self.token_status@.len() - i,
        {
            let (f, amount, grade) = self.token_status[i];
            if f == flavour {
                refreshed.push((f, amount_bits, grade.next()));
            } else {
                refreshed.push((f, amount, grade));
            }
            proof {
                assert(refreshed@ =~= spec_refresh_status(
                    self.token_status@.take(i + 1),
                    flavour,
                    amount_bits,
                ));
            }
            i = i + 1;
        }
        proof {
            assert(self.token_status@.take(self.token_status@.len() as int) =~= self.token_status@);
        }
        self.token_status = refreshed;
        proof {
            assert forall|i2: int, j2: int| 0 <= i2 < j2 < self.token_status@.len() implies (
            #[trigger] self.token_status@[i2]).0 != (#[trigger] self.token_status@[j2]).0 by {
                assert(old(self).token_status@[i2].0 != old(self).token_status@[j2].0);
            }
        }
    }

    /// The status row of `flavour`, if any.
    fn lookup_status(&self, flavour: IceCream) -> (r: Option<(u32, Grade)>)
        ensures
            r == spec_lookup_status(self.token_status@, flavour),
    {
        proof {
            assert(self.token_status@.skip(0) =~= self.token_status@);
        }
        let mut i: usize = 0;
        while i < self.token_status.len()
            invariant
                i <= self.token_status@.len(),
                spec_lookup_status(self.token_status@, flavour) == spec_lookup_status(
                    self.token_status@.skip(i as int),
                    flavour,
                ),
            decreases self.token_status@.len() - i,
        {
            let (f, amount, grade) = self.token_status[i];
            proof {
                assert(self.token_status@.skip(i as int)[0] == self.token_status@[i as int]);
                assert(self.token_status@.skip(i as int).skip(1) =~= self.token_status@.skip(
                    i + 1,
                ));
            }
            if f == flavour {
                return Some((amount, grade));
            }
            i = i + 1;
        }
        proof {
            assert(self.token_status@.skip(self.token_status@.len() as int).len() == 0);
        }
        None
    }

    /// Routes an arriving token: a flavour the current order needs goes to
    /// the order handler untouched; any other refreshes its status row and
    /// leaves for the next ring member under this robot's name.
    pub fn handle_token(&mut self, token: Token) -> (route: TokenRoute)
        requires
            old(self).wf(),
        ensures
            final(self).wf(),
            spec_order_needs(old(self).order, token.bucket.ice_cream) ==> (route matches
            TokenRoute::HandToOrderHandler(b) && b == token.bucket && *final(self) == *old(self)),
            !spec_order_needs(old(self).order, token.bucket.ice_cream) ==> (route matches
            TokenRoute::Forward(t) && t == (Token { owner: old(self).id, ..token }) && final(self).token_status@ == spec_refresh_status(
                old(self).token_status@,
                token.bucket.ice_cream,
                token.bucket.amount_bits,
            ) && final(self).id == old(self).id && final(self).ring_path == old(self).ring_path
                && final(self).prev == old(self).prev && final(self).next == old(self).next
                && final(self).order == old(self).order && final(self).result_sent == old(self).result_sent),
    {
        let needed = match &self.order {
            Some(order) => match order.required_amount(token.bucket.ice_cream) {
                Some(_) => true,
                None => false,
            },
            None => false,
        };
        if needed {
            TokenRoute::HandToOrderHandler(token.bucket)
        } else {
            self.refresh_status(token.bucket.ice_cream, token.bucket.amount_bits);
            TokenRoute::Forward(Token { owner: self.id, bucket: token.bucket })
        }
    }

    /// Loads a freshly assigned order for the order handler.
    pub fn handle_order(&mut self, order: Order)
        requires
            old(self).wf(),
            order.wf(),
        ensures
            final(self).wf(),
            final(self).order == Some(order),
            final(self).id == old(self).id && final(self).ring_path == old(self).ring_path && final(self).prev == old(self).prev && final(self).next == old(self).next && final(self).token_status == old(self).token_status && final(self).result_sent == old(self).result_sent,
    {
        self.order = Some(order);
    }

    /// The order handler's step for one bucket in hand.  The caller settles
    /// the arithmetic on the encoded amounts: `sufficient` says whether the
    /// bucket covers the required amount, `remaining_bits` encodes what the
    /// bucket holds after production.  The step consumes the order line,
    /// decides the verdict, if any, refreshes the status row and returns
    /// the token as it must travel on.  A decided order is kept until the
    /// rendezvous of [`Robot::confirm_result`] clears it, so a new leader
    /// probing mid-wait still finds the robot busy; shipping the verdict
    /// starts with the rendezvous flag lowered.
    pub fn prepare_token(&mut self, bucket: Bucket, sufficient: bool, remaining_bits: u32) -> (r: (
        Token,
        Option<OrderResult>,
    ))
        requires
            old(self).wf(),
        ensures
            final(self).wf(),
            r.0.owner == old(self).id,
            r.0.bucket.ice_cream == bucket.ice_cream,
            final(self).token_status@ == spec_refresh_status(
                old(self).token_status@,
                bucket.ice_cream,
                r.0.bucket.amount_bits,
            ),
            final(self).id == old(self).id && final(self).ring_path == old(self).ring_path && final(self).prev == old(self).prev && final(self).next == old(self).next,
            !spec_order_needs(old(self).order, bucket.ice_cream) ==> r.0.bucket.amount_bits
                == bucket.amount_bits && r.1 is None && final(self).order == old(self).order
                && final(self).result_sent == old(self).result_sent,
            spec_order_needs(old(self).order, bucket.ice_cream) ==> ({
                let o = old(self).order->Some_0;
                &&& (final(self).order matches Some(no) && no.screen_id == o.screen_id
                    && no.order_id == o.order_id && no.items@.len() == o.items@.len() - 1)
                &&& !spec_order_needs(final(self).order, bucket.ice_cream)
                &&& (forall|f: IceCream|
                    f != bucket.ice_cream ==> (spec_order_needs(final(self).order, f)
                        <==> spec_order_needs(old(self).order, f)))
                &&& (!sufficient ==> r.0.bucket.amount_bits == bucket.amount_bits && r.1 == Some(
                    OrderResult {
                        status: OrderStatus::Abort,
                        order_id: o.order_id,
                        owner_id: o.screen_id,
                    },
                ) && final(self).result_sent == ResultFlag::Idle)
                &&& (sufficient ==> r.0.bucket.amount_bits == remaining_bits)
                &&& (sufficient && o.items@.len() == 1 ==> r.1 == Some(
                    OrderResult {
                        status: OrderStatus::Ready,
                        order_id: o.order_id,
                        owner_id: o.screen_id,
                    },
                ) && final(self).result_sent == ResultFlag::Idle)
                &&& (sufficient && o.items@.len() > 1 ==> r.1 is None && final(self).result_sent
                    == old(self).result_sent)
            }),
    {
        let ghost o = old(self).order->Some_0;
        let mut verdict: Option<OrderResult> = None;
        let mut travel_bits: u32 = bucket.amount_bits;
        match &mut self.order {
            Some(order) => {
                let mut idx: usize = 0;
                while idx < order.items.len() && order.items[idx].0 != bucket.ice_cream
                    invariant
                        idx <= order.items@.len(),
                        forall|j: int|
                            0 <= j < idx ==> (#[trigger] order.items@[j]).0 != bucket.ice_cream,
                    decreases order.items@.len() - idx,
                {
                    idx = idx + 1;
                }
                let found = idx < order.items.len();
                if found {
                    let ghost before = order.items@;
                    order.items.remove(idx);
                    proof {
                        assert(before == o.items@);
                        assert(before[idx as int].0 == bucket.ice_cream);
                        lemma_items_need_after_remove(before, idx as int, bucket.ice_cream);
                        assert(order.items@ == before.remove(idx as int));
                        assert forall|i2: int, j2: int|
                            0 <= i2 < j2 < order.items@.len() implies (
                        #[trigger] order.items@[i2]).0 != (#[trigger] order.items@[j2]).0 by {
                            let bi: int = if i2 < idx {
                                i2
                            } else {
                                i2 + 1
                            };
                            let bj: int = if j2 < idx {
                                j2
                            } else {
                                j2 + 1
                            };
                            assert(order.items@[i2] == before[bi]);
                            assert(order.items@[j2] == before[bj]);
                        }
                    }
                    if !sufficient {
                        verdict = Some(
                            OrderResult::new(OrderStatus::Abort, order.order_id, order.screen_id),
                        );
                    } else {
                        travel_bits = remaining_bits;
                        if order.items.len() == 0 {
                            verdict = Some(
                                OrderResult::new(
                                    OrderStatus::Ready,
                                    order.order_id,
                                    order.screen_id,
                                ),
                            );
                        }
                    }
                }
            },
            None => {},
        }
        match &verdict {
            Some(_) => {
                self.result_sent = ResultFlag::Idle;
            },
            None => {},
        }
        self.refresh_status(bucket.ice_cream, travel_bits);
        let travelling = Token {
            owner: self.id,
            bucket: Bucket { ice_cream: bucket.ice_cream, amount_bits: travel_bits },
        };
        (travelling, verdict)
    }

    /// The rendezvous after a verdict has been shipped: an acknowledgement
    /// ends the wait and clears the order, a leader takeover releases the
    /// wait so the verdict is shipped again towards the new resolver, and
    /// a spurious wakeup keeps waiting.
    pub fn confirm_result(&mut self) -> (done: bool)
        requires
            old(self).wf(),
        ensures
            final(self).wf(),
            old(self).result_sent == ResultFlag::Acked ==> done && *final(self) == (Robot {
                order: None,
                result_sent: ResultFlag::Idle,
                ..*old(self)
            }),
            old(self).result_sent == ResultFlag::Reassigned ==> !done && *final(self) == (Robot {
                result_sent: ResultFlag::Idle,
                ..*old(self)
            }),
            old(self).result_sent == ResultFlag::Idle ==> !done && *final(self) == *old(self),
    {
        match self.result_sent {
            ResultFlag::Acked => {
                self.order = None;
                self.result_sent = ResultFlag::Idle;
                true
            },
            ResultFlag::Reassigned => {
                self.result_sent = ResultFlag::Idle;
                false
            },
            ResultFlag::Idle => false,
        }
    }

    /// Splices the arriving handshake round into the ring layout, points
    /// the upstream neighbour at the new ring's tail, and either extends
    /// the round with this robot's id or ends it when the list already came
    /// around.
    pub fn handle_handshake(&mut self, msg: &Handshake) -> (forward: Option<Handshake>)
        requires
            old(self).wf(),
            msg.ids@.len() >= 1,
            old(self).ring_path@.len() >= 1,
        ensures
            final(self).wf(),
            final(self).ring_path@ == old(self).ring_path@.take(
                spec_splice_cut(old(self).ring_path@, msg.ids@[0]),
            ) + msg.ids@,
            final(self).prev == final(self).ring_path@.last(),
            final(self).prev == msg.ids@.last(),
            final(self).id == old(self).id && final(self).next == old(self).next && final(self).order == old(self).order && final(self).token_status == old(self).token_status
                && final(self).result_sent == old(self).result_sent,
            msg.ids@.contains(old(self).id) ==> forward is None,
            !msg.ids@.contains(old(self).id) ==> (forward matches Some(h) && h.owner == old(
                self).id && h.ids@ == msg.ids@.push(old(self).id)),
    {
        let head = msg.ids[0];
        let mut i: usize = 0;
        while i < self.ring_path.len() && self.ring_path[i] != head
            invariant
                i <= self.ring_path@.len(),
                forall|j: int| 0 <= j < i ==> self.ring_path@[j] != head,
            decreases self.ring_path@.len() - i,
        {
            i = i + 1;
        }
        let cut: usize = if i < self.ring_path.len() {
            i
        } else {
            0
        };
        proof {
            if i < self.ring_path@.len() {
                lemma_first_index_char(self.ring_path@, head, i as int);
            } else {
                if self.ring_path@.contains(head) {
                    let w = choose|w: int|
                        0 <= w < self.ring_path@.len() && self.ring_path@[w] == head;
                    assert(false);
                }
            }
            assert(cut == spec_splice_cut(self.ring_path@, head));
        }
        self.ring_path.truncate(cut);
        let mut k: usize = 0;
        while k < msg.ids.len()
            invariant
                k <= msg.ids@.len(),
                self.ring_path@ == old(self).ring_path@.take(
                    spec_splice_cut(old(self).ring_path@, msg.ids@[0]),
                ) + msg.ids@.take(k as int),
                self.id == old(self).id && self.next == old(self).next && self.order == old(
                    self,
                ).order && self.token_status == old(self).token_status && self.result_sent == old(
                    self,
                ).result_sent && self.prev == old(self).prev,
            decreases msg.ids@.len() - k,
        {
            self.ring_path.push(msg.ids[k]);
            proof {
                assert(msg.ids@.take(k + 1) =~= msg.ids@.take(k as int) + seq![msg.ids@[k as int]]);
                assert(self.ring_path@ =~= old(self).ring_path@.take(
                    spec_splice_cut(old(self).ring_path@, msg.ids@[0]),
                ) + msg.ids@.take(k + 1));
            }
            k = k + 1;
        }
        proof {
            assert(msg.ids@.take(msg.ids@.len() as int) =~= msg.ids@);
        }
        self.prev = self.ring_path[self.ring_path.len() - 1];
        let mut c: usize = 0;
        while c < msg.ids.len() && msg.ids[c] != self.id
            invariant
                c <= msg.ids@.len(),
                forall|j: int| 0 <= j < c ==> msg.ids@[j] != self.id,
            decreases msg.ids@.len() - c,
        {
            c = c + 1;
        }
        let contains_self = c < msg.ids.len();
        proof {
            if !contains_self && msg.ids@.contains(self.id) {
                let w = choose|w: int| 0 <= w < msg.ids@.len() && msg.ids@[w] == self.id;
                assert(false);
            }
            if contains_self {
                assert(msg.ids@.contains(self.id));
            }
        }
        if contains_self {
            None
        } else {
            let mut ids: Vec<u8> = Vec::new();
            let mut m: usize = 0;
            while m < msg.ids.len()
                invariant
                    m <= msg.ids@.len(),
                    ids@ == msg.ids@.take(m as int),
                decreases msg.ids@.len() - m,
            {
                ids.push(msg.ids[m]);
                proof {
                    assert(msg.ids@.take(m + 1) =~= msg.ids@.take(m as int) + seq![
                        msg.ids@[m as int],
                    ]);
                }
                m = m + 1;
            }
            proof {
                assert(msg.ids@.take(msg.ids@.len() as int) =~= msg.ids@);
            }
            ids.push(self.id);
            Some(Handshake { owner: self.id, ids })
        }
    }

    /// Repairs the ring after a death report: the reporter becomes the new
    /// downstream neighbour, a fresh handshake round starts there, and the
    /// flavours whose own observation qualifies are re-emitted with their
    /// last-seen amounts.
    pub fn handle_robotdead(&mut self, msg: &RobotDead) -> (r: (Handshake, Vec<Token>))
        requires
            old(self).wf(),
        ensures
            final(self).wf(),
            final(self).next == msg.owner,
            final(self).id == old(self).id && final(self).ring_path == old(self).ring_path && final(self).prev == old(self).prev && final(self).order == old(self).order && final(self).token_status == old(self).token_status && final(self).result_sent == old(self).result_sent,
            r.0.owner == old(self).id,
            r.0.ids@ == seq![old(self).id],
            r.1@ == spec_reissue_tokens(
                old(self).id,
                old(self).token_status@,
                msg.owner,
                msg.status@,
            ),
    {
        self.next = msg.owner;
        let mut ids: Vec<u8> = Vec::new();
        ids.push(self.id);
        let handshake = Handshake { owner: self.id, ids };
        let mut tokens: Vec<Token> = Vec::new();
        let mut i: usize = 0;
        while i < msg.status.len()
            invariant
                i <= msg.status@.len(),
                *self == (Robot { next: msg.owner, ..*old(self) }),
                tokens@ == spec_reissue_tokens(
                    self.id,
                    self.token_status@,
                    msg.owner,
                    msg.status@.take(i as int),
                ),
            decreases msg.status@.len() - i,
        {
            let (flavour, reported) = msg.status[i];
            proof {
                assert(msg.status@.take(i + 1).drop_last() =~= msg.status@.take(i as int));
                assert(msg.status@.take(i + 1).last() == msg.status@[i as int]);
            }
            match self.lookup_status(flavour) {
                Some((amount, my_grade)) => {
                    let reissue = (self.id < msg.owner && my_grade > reported) || (self.id
                        > msg.owner && my_grade == reported);
                    proof {
                        assert(my_grade.partial_cmp_spec(&reported) == Some(
                            core::cmp::Ordering::Greater,
                        ) <==> my_grade.newer_than(reported));
                    }
                    if reissue {
                        tokens.push(
                            Token {
                                owner: self.id,
                                bucket: Bucket { ice_cream: flavour, amount_bits: amount },
                            },
                        );
                    }
                },
                None => {},
            }
            proof {
                assert(tokens@ =~= spec_reissue_tokens(
                    self.id,
                    self.token_status@,
                    msg.owner,
                    msg.status@.take(i + 1),
                ));
            }
            i = i + 1;
        }
        proof {
            assert(msg.status@.take(msg.status@.len() as int) =~= msg.status@);
        }
        (handshake, tokens)
    }

    /// Answers a new leader's resolver: a busy robot names its order and
    /// releases its order handler for the retry towards the new resolver;
    /// a free one reports availability.
    pub fn handle_newleader(&mut self) -> (r: Option<RobotWithOrder>)
        ensures
            old(self).order matches Some(o) ==> r == Some(
                RobotWithOrder { screen_id: o.screen_id, order_id: o.order_id },
            ) && *final(self) == (Robot { result_sent: ResultFlag::Reassigned, ..*old(self) }),
            old(self).order is None ==> r is None && *final(self) == *old(self),
    {
        match &self.order {
            Some(order) => {
                let reply = RobotWithOrder::new(order.screen_id, order.order_id);
                self.result_sent = ResultFlag::Reassigned;
                Some(reply)
            },
            None => None,
        }
    }

    /// Notes the resolver's acknowledgement, releasing the order handler.
    pub fn handle_ack(&mut self)
        ensures
            *final(self) == (Robot { result_sent: ResultFlag::Acked, ..*old(self) }),
    {
        self.result_sent = ResultFlag::Acked;
    }

    /// The reply to a liveness probe.
    pub fn handle_keepalive(&self) -> (m: crate::messages::Alive)
        ensures
            m.owner == self.id,
    {
        crate::messages::Alive::new(self.id)
    }

    /// The reply to a resolver's liveness probe.
    pub fn handle_keepalive_from_resolver(&self) -> (m: crate::messages::Alive)
        ensures
            m.owner == self.id,
    {
        crate::messages::Alive::new(self.id)
    }
}

/// What the startup wait produced.
pub enum InitEvent {
    /// The downstream neighbour acknowledged this robot's opening.
    AckArrived,
    /// The upstream neighbour opened towards this robot.
    InitArrived,
    /// The wait timed out.
    TimedOut,
    /// An unrelated datagram arrived.
    Other,
}

/// What the startup protocol sends next.
#[derive(Clone, Copy, Debug, PartialEq, Eq, Structural)]
pub enum InitAction {
    /// Open, or open again, towards the downstream neighbour.
    SendInitToNext,
    /// Acknowledge the upstream neighbour's opening.
    SendAckToPrev,
}

/// The opening robot's startup state: whether each side of the exchange has
/// settled.
pub struct InitProtocol {
    /// The downstream neighbour acknowledged the opening.
    pub ack_received: bool,
    /// The upstream neighbour opened and was acknowledged.
    pub init_received: bool,
}

impl InitProtocol {
    /// A fresh exchange: neither side settled.
    pub fn new() -> (p: InitProtocol)
        ensures
            !p.ack_received,
            !p.init_received,
    {
        InitProtocol { ack_received: false, init_received: false }
    }

    /// One step of the opening robot's exchange: an acknowledgement settles
    /// the downstream side, an opening from upstream is acknowledged and
    /// settles the upstream side, and the exchange is over when both sides
    /// settled.
    pub fn origin_step(&mut self, event: InitEvent) -> (r: (Option<InitAction>, bool))
        ensures
            event is AckArrived ==> *final(self) == (InitProtocol {
                ack_received: true,
                ..*old(self)
            }) && r.0 is None,
            event is InitArrived ==> *final(self) == (InitProtocol {
                init_received: true,
                ..*old(self)
            }) && r.0 == Some(InitAction::SendAckToPrev),
            event is TimedOut || event is Other ==> *final(self) == *old(self) && r.0 is None,
            r.1 == (final(self).ack_received && final(self).init_received),
    {
        let action = match event {
            InitEvent::AckArrived => {
                self.ack_received = true;
                None
            },
            InitEvent::InitArrived => {
                self.init_received = true;
                Some(InitAction::SendAckToPrev)
            },
            InitEvent::TimedOut => None,
            InitEvent::Other => None,
        };
        (action, self.ack_received && self.init_received)
    }
}

/// One step of every other robot's startup exchange: its own opening is
/// acknowledged from downstream, an opening from upstream is acknowledged
/// and passed on, and silence re-opens towards downstream.
pub fn member_init_step(event: InitEvent) -> (r: (Vec<InitAction>, bool))
    ensures
        event is AckArrived ==> r.0@ == Seq::<InitAction>::empty() && r.1,
        event is InitArrived ==> r.0@ == seq![
            InitAction::SendAckToPrev,
            InitAction::SendInitToNext,
        ] && !r.1,
        event is TimedOut ==> r.0@ == seq![InitAction::SendInitToNext] && !r.1,
        event is Other ==> r.0@ == Seq::<InitAction>::empty() && !r.1,
{
    match event {
        InitEvent::AckArrived => (Vec::new(), true),
        InitEvent::InitArrived => {
            let actions: Vec<InitAction> = vec![
                InitAction::SendAckToPrev,
                InitAction::SendInitToNext,
            ];
            (actions, false)
        },
        InitEvent::TimedOut => {
            let actions: Vec<InitAction> = vec![InitAction::SendInitToNext];
            (actions, false)
        },
        InitEvent::Other => (Vec::new(), false),
    }
}

/// The probe that runs when the receiver times out: it checks the upstream
/// neighbour and, silent, reports the death two hops upstream.
pub struct RobotInspector {
    /// The probing robot's id.
    pub id: u8,
    /// The probing robot's view of the ring.
    pub ring_path: Vec<u8>,
    /// The id of the upstream neighbour under suspicion.
    pub prev: u8,
    /// The probing robot's per-flavour grades, snapshotted for the report.
    pub token_status: Vec<(IceCream, Grade)>,
}

impl RobotInspector {
    pub fn new(id: u8, ring_path: Vec<u8>, prev: u8, token_status: Vec<(IceCream, Grade)>) -> (r:
        RobotInspector)
        ensures
            r.id == id,
            r.ring_path == ring_path,
            r.prev == prev,
            r.token_status == token_status,
    {
        RobotInspector { id, ring_path, prev, token_status }
    }

    /// Whom to alert and with what when the upstream neighbour stays
    /// silent: the ring member two hops upstream of this robot, handed this
    /// robot's own grades.  A robot absent from its own ring view alerts
    /// nobody.
    pub fn dead_robot_alert(self) -> (r: Option<(u8, RobotDead)>)
        requires
            2 <= self.ring_path@.len() <= 256,
        ensures
            self.ring_path@.contains(self.id) ==> (r matches Some((target, m)) && target
                == self.ring_path@[(spec_first_index(self.ring_path@, self.id)
                + self.ring_path@.len() - 2) % (self.ring_path@.len() as int)] && m.owner == self.id
                && m.status == self.token_status),
            !self.ring_path@.contains(self.id) ==> r is None,
    {
        let n = self.ring_path.len();
        let mut i: usize = 0;
        while i < n
            invariant
                i <= n,
                n == self.ring_path@.len(),
                2 <= n <= 256,
                forall|j: int| 0 <= j < i ==> self.ring_path@[j] != self.id,
            decreases n - i,
        {
            if self.ring_path[i] == self.id {
                proof {
                    lemma_first_index_char(self.ring_path@, self.id, i as int);
                    assert(i + n - 2 >= 0);
                    assert((i as int + n - 2) % (n as int) < n);
                }
                let target = self.ring_path[(i + n - 2) % n];
                return Some((target, RobotDead::new(self.id, self.token_status)));
            }
            i = i + 1;
        }
        proof {
            if self.ring_path@.contains(self.id) {
                let w = choose|w: int|
                    0 <= w < self.ring_path@.len() && self.ring_path@[w] == self.id;
                assert(false);
            }
        }
        None
    }
}

} // verus!
