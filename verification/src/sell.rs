//! The Sell stage's order-lifecycle state machine: which working orders
//! a cancel-all pass may touch, the initial exit order for each open
//! position, and the escalating re-pricing schedule applied across a
//! fixed number of passes.

use vstd::prelude::*;
use crate::pricing::{
    get_perc_decrease, get_perc_increase, lemma_perc_decrease_le, lemma_perc_increase_ge,
    lemma_scale_ppm_monotone, spec_perc_decrease, spec_perc_increase, MAX_PRICE,
};
use crate::text::{eq_ignore_ascii_case_str, spec_eq_ci};
use crate::trading::get_sell_quant;
use crate::types::{LimitOrder, Position, SystemLimitOrder, MOVEMENT_DIRECTION};

verus! {

/// The escalation pricing table.  `attempts` is the pass counter before
/// this pass's increment.  Downward-moving positions converge on
/// break-even and then discount; upward-moving positions decay the
/// premium toward the current price.
pub open spec fn spec_escalation_price(
    direction: MOVEMENT_DIRECTION,
    attempts: u32,
    average_price: u64,
    current_price: u64,
) -> int {
    match direction {
        MOVEMENT_DIRECTION::DOWN => {
            if attempts <= 2 {
                average_price as int
            } else if attempts <= 4 {
                spec_perc_decrease(current_price, 100)
            } else {
                spec_perc_decrease(current_price, 500)
            }
        },
        MOVEMENT_DIRECTION::UP => {
            if attempts <= 1 {
                spec_perc_increase(current_price, 5000)
            } else if attempts <= 3 {
                spec_perc_increase(current_price, 2500)
            } else if attempts <= 5 {
                spec_perc_increase(current_price, 1000)
            } else {
                current_price as int
            }
        },
    }
}

/// Computes the limit price for one escalation pass from the table.
pub fn escalation_limit_price(
    direction: MOVEMENT_DIRECTION,
    attempts: u32,
    average_price: u64,
    current_price: u64,
) -> (r: u64)
    requires
        average_price <= MAX_PRICE,
        current_price <= MAX_PRICE,
    ensures
        r == spec_escalation_price(direction, attempts, average_price, current_price),
{
    match direction {
        MOVEMENT_DIRECTION::DOWN => {
            if attempts <= 2 {
                average_price
            } else if attempts <= 4 {
                get_perc_decrease(current_price, 100)
            } else {
                get_perc_decrease(current_price, 500)
            }
        },
        MOVEMENT_DIRECTION::UP => {
            if attempts <= 1 {
                get_perc_increase(current_price, 5000)
            } else if attempts <= 3 {
                get_perc_increase(current_price, 2500)
            } else if attempts <= 5 {
                get_perc_increase(current_price, 1000)
            } else {
                current_price
            }
        },
    }
}

/// Escalation only ever moves the asking price in the more aggressive
/// direction: across passes the table is non-increasing, both for
/// downward-moving positions (whose direction implies the average price
/// is at or above the current price) and for upward-moving ones, whose
/// premium decays toward the current price.
pub proof fn lemma_escalation_monotone(
    direction: MOVEMENT_DIRECTION,
    a1: u32,
    a2: u32,
    average_price: u64,
    current_price: u64,
)
    requires
        a1 <= a2,
        direction == MOVEMENT_DIRECTION::DOWN ==> average_price >= current_price,
    ensures
        spec_escalation_price(direction, a2, average_price, current_price)
            <= spec_escalation_price(direction, a1, average_price, current_price),
{
    match direction {
        MOVEMENT_DIRECTION::DOWN => {
            lemma_perc_decrease_le(current_price, 100);
            lemma_perc_decrease_le(current_price, 500);
            lemma_scale_ppm_monotone(current_price, 999_500, 999_900);
        },
        MOVEMENT_DIRECTION::UP => {
            lemma_perc_increase_ge(current_price, 1000);
            lemma_scale_ppm_monotone(current_price, 1_001_000, 1_002_500);
            lemma_scale_ppm_monotone(current_price, 1_002_500, 1_005_000);
        },
    }
}

/// Whether a cancel-all-sell pass may cancel this order: only sell
/// orders, those with negative quantity, qualify.
pub open spec fn is_sell_order(o: LimitOrder) -> bool {
    o.quantity < 0
}

/// Collects the ids of the sell orders in a freshly fetched order list:
/// exactly the orders with negative (sell-side) quantity, in order.
pub fn sell_order_ids(orders: &Vec<LimitOrder>) -> (ids: Vec<u64>)
    ensures
        ids@ == orders@.filter(|o: LimitOrder| is_sell_order(o)).map_values(
            |o: LimitOrder| o.id,
        ),
{
    broadcast use vstd::seq_lib::group_seq_properties;

    let mut ids: Vec<u64> = Vec::new();
    let mut i: usize = 0;
    while i < orders.len()
        invariant
            i <= orders.len(),
            ids@ == orders@.take(i as int).filter(|o: LimitOrder| is_sell_order(o)).map_values(
                |o: LimitOrder| o.id,
            ),
        decreases orders.len() - i,
    {
        proof {
            assert(orders@.take(i + 1) == orders@.take(i as int).push(orders@[i as int]));
        }
        if orders[i].quantity < 0 {
            ids.push(orders[i].id);
        }
        proof {
            let pred = |o: LimitOrder| is_sell_order(o);
            let f = |o: LimitOrder| o.id;
            orders@.take(i as int).lemma_filter_push(orders@[i as int], pred);
            if pred(orders@[i as int]) {
                assert(orders@.take(i as int).push(orders@[i as int]).filter(pred).map_values(f)
                    =~= orders@.take(i as int).filter(pred).map_values(f).push(
                    orders@[i as int].id,
                ));
            }
        }
        i = i + 1;
    }
    proof {
        assert(orders@.take(orders@.len() as int) == orders@);
    }
    ids
}

/// A cancel-all-sell pass never cancels a buy order: when order ids are
/// distinct, no id in the cancel set belongs to an order with positive
/// quantity.
pub proof fn lemma_cancel_set_spares_buys(orders: Seq<LimitOrder>, ids: Seq<u64>)
    requires
        ids == orders.filter(|o: LimitOrder| is_sell_order(o)).map_values(|o: LimitOrder| o.id),
        forall|i: int, j: int|
            0 <= i < j < orders.len() ==> (#[trigger] orders[i]).id != (#[trigger] orders[j]).id,
    ensures
        forall|i: int|
            0 <= i < orders.len() && (#[trigger] orders[i]).quantity > 0 ==> !ids.contains(
                orders[i].id,
            ),
{
    let pred = |o: LimitOrder| is_sell_order(o);
    let filtered = orders.filter(pred);
    assert forall|i: int|
        0 <= i < orders.len() && (#[trigger] orders[i]).quantity > 0 implies !ids.contains(
        orders[i].id,
    ) by {
        if ids.contains(orders[i].id) {
            let k = choose|k: int| 0 <= k < ids.len() && ids[k] == orders[i].id;
            orders.lemma_filter_pred(pred, k);
            assert(pred(filtered[k]));
            assert(filtered.contains(filtered[k]));
            orders.lemma_filter_contains_rev(pred, filtered[k]);
            assert(orders.contains(filtered[k]));
            let j = choose|j: int| 0 <= j < orders.len() && orders[j] == filtered[k];
            assert(orders[j].id == orders[i].id);
            assert(j == i);
        }
    }
}

/// The initial exit order for a position at the start of a sell cycle:
/// a limit sell one percent above the current price, for the whole
/// position capped at its sell limit.
pub fn plan_initial_sell_order(position: &Position) -> (r: (u64, u64))
    requires
        position.wf(),
    ensures
        r.0 == spec_perc_increase(position.current_price, 10_000),
        r.1 == if position.quantity > position.max_sell {
            position.max_sell
        } else {
            position.quantity
        },
{
    let sale_price: u64 = get_perc_increase(position.current_price, 10_000);
    let sell_quant: u64 = get_sell_quant(position);
    (sale_price, sell_quant)
}

/// How many positions in the list carry this ticker (compared without
/// regard to ASCII case).
pub open spec fn spec_match_count(positions: Seq<Position>, ticker: Seq<char>) -> nat {
    positions.filter(|p: Position| spec_eq_ci(p.ticker@, ticker)).len()
}

/// The Sell stage's cycle-local tracking of its outstanding exit
/// orders: at most one live order per ticker, each with the movement
/// direction fixed at creation and a pass counter that only grows.
pub struct SellCycle {
    pub orders: Vec<SystemLimitOrder>,
}

impl SellCycle {
    pub open spec fn wf(&self) -> bool {
        &&& forall|i: int| 0 <= i < self.orders@.len() ==> (#[trigger] self.orders@[i]).wf()
        &&& forall|i: int, j: int|
            0 <= i < j < self.orders@.len() ==> !spec_eq_ci(
                (#[trigger] self.orders@[i]).limit_order.ticker@,
                (#[trigger] self.orders@[j]).limit_order.ticker@,
            )
    }

    /// Whether some tracked order already carries this ticker.
    pub open spec fn spec_has_ticker(&self, ticker: Seq<char>) -> bool {
        exists|i: int|
            0 <= i < self.orders@.len() && spec_eq_ci(
                (#[trigger] self.orders@[i]).limit_order.ticker@,
                ticker,
            )
    }

    pub fn new() -> (r: SellCycle)
        ensures
            r.wf(),
            r.orders@.len() == 0,
    {
        SellCycle { orders: Vec::new() }
    }

    /// Starts a fresh sell cycle: every tracked order of the previous
    /// cycle is discarded, so each new cycle begins with fresh orders
    /// whose pass counters are zero.
    pub fn begin_cycle(&mut self)
        ensures
            final(self).wf(),
            final(self).orders@.len() == 0,
    {
        self.orders.clear();
    }

    /// Whether some tracked order already carries this ticker.
    pub fn has_ticker(&self, ticker: &str) -> (r: bool)
        requires
            self.wf(),
            vstd::string::is_ascii(ticker),
        ensures
            r == self.spec_has_ticker(ticker@),
    {
        let mut i: usize = 0;
        while i < self.orders.len()
            invariant
                self.wf(),
                i <= self.orders@.len(),
                vstd::string::is_ascii(ticker),
                forall|j: int|
                    0 <= j < i ==> !spec_eq_ci(
                        (#[trigger] self.orders@[j]).limit_order.ticker@,
                        ticker@,
                    ),
            decreases self.orders@.len() - i,
        {
            proof {
                assert(self.orders@[i as int].wf());
                crate::text::lemma_valid_label_is_ascii(
                    self.orders@[i as int].limit_order.ticker@,
                );
            }
            if eq_ignore_ascii_case_str(self.orders[i].limit_order.ticker.as_str(), ticker) {
                return true;
            }
            i = i + 1;
        }
        false
    }

    /// Tracks the initial exit order placed for a position, with a zero
    /// pass counter; refused when an order for the same ticker is
    /// already live, which keeps at most one tracked order per ticker.
    pub fn record_initial_order(
        &mut self,
        movement_direction: MOVEMENT_DIRECTION,
        limit_order: LimitOrder,
        now: u64,
    ) -> (added: bool)
        requires
            old(self).wf(),
            limit_order.wf(),
        ensures
            final(self).wf(),
            added == !old(self).spec_has_ticker(limit_order.ticker@),
            added ==> final(self).orders@ == old(self).orders@.push(
                SystemLimitOrder {
                    movement_direction,
                    creation_time: now,
                    limit_order,
                    sell_attempts: 0,
                },
            ),
            !added ==> final(self).orders@ == old(self).orders@,
    {
        proof {
            crate::text::lemma_valid_label_is_ascii(limit_order.ticker@);
        }
        if self.has_ticker(limit_order.ticker.as_str()) {
            return false;
        }
        let entry = SystemLimitOrder {
            movement_direction,
            creation_time: now,
            limit_order,
            sell_attempts: 0,
        };
        self.orders.push(entry);
        true
    }

    /// One escalation step for the tracked order at `idx`: when its
    /// ticker resolves to exactly one current position, returns the
    /// replacement order (table price for the pass counter before the
    /// increment, and the position's whole quantity) and increments the
    /// counter; an ambiguous or missing match changes nothing.  Pass
    /// counters never decrease.
    pub fn escalation_update(&mut self, idx: usize, positions: &Vec<Position>) -> (r: Option<
        (u64, u64),
    >)
        requires
            old(self).wf(),
            idx < old(self).orders@.len(),
            old(self).orders@[idx as int].sell_attempts < u32::MAX,
            forall|i: int| 0 <= i < positions@.len() ==> (#[trigger] positions@[i]).wf(),
        ensures
            final(self).wf(),
            final(self).orders@.len() == old(self).orders@.len(),
            forall|i: int|
                0 <= i < final(self).orders@.len() && i != idx
                    ==> final(self).orders@[i] == old(self).orders@[i],
            forall|i: int|
                0 <= i < final(self).orders@.len()
                    ==> (#[trigger] final(self).orders@[i]).sell_attempts
                    >= old(self).orders@[i].sell_attempts,
            r is None <==> spec_match_count(
                positions@,
                old(self).orders@[idx as int].limit_order.ticker@,
            ) != 1,
            r is None ==> final(self).orders@ == old(self).orders@,
            r matches Some(req) ==> {
                let entry = old(self).orders@[idx as int];
                let matches = positions@.filter(
                    |p: Position| spec_eq_ci(p.ticker@, entry.limit_order.ticker@),
                );
                &&& matches.len() == 1
                &&& req.0 == spec_escalation_price(
                    entry.movement_direction,
                    entry.sell_attempts,
                    matches[0].average_price,
                    matches[0].current_price,
                )
                &&& req.1 == matches[0].quantity
                &&& final(self).orders@[idx as int] == SystemLimitOrder {
                    sell_attempts: (entry.sell_attempts + 1) as u32,
                    ..entry
                }
            },
    {
        proof {
            assert(self.orders@[idx as int].wf());
            crate::text::lemma_valid_label_is_ascii(
                self.orders@[idx as int].limit_order.ticker@,
            );
        }
        let ghost entry = self.orders@[idx as int];
        let position = match find_unique_position(
            positions,
            self.orders[idx].limit_order.ticker.as_str(),
        ) {
            None => {
                return None;
            },
            Some(p) => p,
        };
        let pos = &positions[position];
        let price: u64 = escalation_limit_price(
            self.orders[idx].movement_direction,
            self.orders[idx].sell_attempts,
            pos.average_price,
            pos.current_price,
        );
        let quantity: u64 = pos.quantity;
        let taken = self.orders.remove(idx);
        let updated = SystemLimitOrder { sell_attempts: taken.sell_attempts + 1, ..taken };
        self.orders.insert(idx, updated);
        proof {
            assert(self.orders@ =~= old(self).orders@.update(
                idx as int,
                SystemLimitOrder { sell_attempts: (entry.sell_attempts + 1) as u32, ..entry },
            ));
        }
        Some((price, quantity))
    }
}

/// The index of the unique position carrying this ticker, when exactly
/// one does; ambiguous or missing matches resolve to nothing.
pub fn find_unique_position(positions: &Vec<Position>, ticker: &str) -> (r: Option<usize>)
    requires
        vstd::string::is_ascii(ticker),
        forall|i: int| 0 <= i < positions@.len() ==> (#[trigger] positions@[i]).wf(),
    ensures
        r is None <==> spec_match_count(positions@, ticker@) != 1,
        r matches Some(i) ==> {
            &&& i < positions@.len()
            &&& spec_match_count(positions@, ticker@) == 1
            &&& positions@.filter(|p: Position| spec_eq_ci(p.ticker@, ticker@))[0]
                == positions@[i as int]
        },
{
    broadcast use vstd::seq_lib::group_seq_properties;

    let mut found: Option<usize> = None;
    let mut count: usize = 0;
    let mut i: usize = 0;
    while i < positions.len()
        invariant
            i <= positions@.len(),
            vstd::string::is_ascii(ticker),
            forall|k: int| 0 <= k < positions@.len() ==> (#[trigger] positions@[k]).wf(),
            count == positions@.take(i as int).filter(
                |p: Position| spec_eq_ci(p.ticker@, ticker@),
            ).len(),
            count <= i,
            count >= 1 ==> (found matches Some(f) && f < i && positions@.take(i as int).filter(
                |p: Position| spec_eq_ci(p.ticker@, ticker@),
            )[0] == positions@[f as int]),
            count == 0 ==> found is None,
        decreases positions@.len() - i,
    {
        proof {
            assert(positions@.take(i + 1) == positions@.take(i as int).push(positions@[i as int]));
            positions@.take(i as int).lemma_filter_push(
                positions@[i as int],
                |p: Position| spec_eq_ci(p.ticker@, ticker@),
            );
            assert(positions@[i as int].wf());
            crate::text::lemma_valid_label_is_ascii(positions@[i as int].ticker@);
        }
        if eq_ignore_ascii_case_str(positions[i].ticker.as_str(), ticker) {
            if count == 0 {
                found = Some(i);
            }
            count = count + 1;
        }
        i = i + 1;
    }
    proof {
        assert(positions@.take(positions@.len() as int) == positions@);
    }
    if count == 1 {
        found
    } else {
        None
    }
}

} // verus!
