//! The immutable run configuration: one struct built at startup and
//! passed by reference to every stage, in place of ad hoc global
//! constants.  Percentages are in parts per million and money in
//! fixed-point units of [`crate::UNIT`] per whole.

use vstd::prelude::*;
use crate::types::{FILTERING_STRICTNESS, VERSION};

verus! {

#[derive(Clone, Debug)]
pub struct Config {
    /// Live or practice brokerage account.
    pub stock_version: VERSION,
    /// Seconds to wait for limit orders to hit between passes.
    pub limit_wait_time: u64,
    /// How demanding the candidate filters are.
    pub filter_strictness: FILTERING_STRICTNESS,
    /// Smallest acceptable market capitalization, in fixed-point
    /// millions.
    pub minimum_market_cap: u64,
    /// Smallest balance on which buys are executed, in fixed-point
    /// units.
    pub minimum_balance: u64,
    /// How many tickers the per-ticker budget divides the cycle's cash
    /// across.
    pub amount_of_tickers_to_buy: u64,
    /// Share of the free balance held back from spending, in parts per
    /// million.
    pub spend_perc_ppm: u64,
    /// Wall-clock budget of one shortlisting pass, in seconds.
    pub shopping_time: u64,
    /// The shortlist target: shortlisting stops once this many
    /// candidates are collected.
    pub minimum_buys: usize,
    /// Number of escalation passes the Sell stage runs per cycle.
    pub sell_escalation_passes: u32,
    /// Threshold above which a position's change counts as an upward
    /// move worth selling, in parts per million.
    pub sell_percent_up_ppm: i128,
    /// Threshold below which a position's change counts as a downward
    /// move worth selling, in parts per million.
    pub sell_percent_down_ppm: i128,
    /// Whether the Buy worker keeps running after a cycle whose
    /// shortlist came up empty, or stops for good after forwarding the
    /// hand-off.
    pub continue_after_empty_shortlist: bool,
}

impl Config {
    pub open spec fn wf(&self) -> bool {
        &&& self.spend_perc_ppm <= 1_000_000
        &&& self.amount_of_tickers_to_buy >= 1
    }
}

impl Default for Config {
    /// The stock configuration: practice account, a 5-minute shopping
    /// budget, three buys per cycle, 5% of the balance held back across
    /// ten tickers, and six escalation passes.
    fn default() -> (c: Config)
        ensures
            c.wf(),
            c.stock_version == VERSION::DEMO,
            c.limit_wait_time == 60,
            c.filter_strictness == FILTERING_STRICTNESS::LIGHT,
            c.minimum_market_cap == 20_000_000,
            c.minimum_balance == 150_000_000,
            c.amount_of_tickers_to_buy == 10,
            c.spend_perc_ppm == 50_000,
            c.shopping_time == 300,
            c.minimum_buys == 3,
            c.sell_escalation_passes == 6,
            c.sell_percent_up_ppm == 500,
            c.sell_percent_down_ppm == -250,
            c.continue_after_empty_shortlist,
    {
        Config {
            stock_version: VERSION::DEMO,
            limit_wait_time: 60,
            filter_strictness: FILTERING_STRICTNESS::LIGHT,
            minimum_market_cap: 20_000_000,
            minimum_balance: 150_000_000,
            amount_of_tickers_to_buy: 10,
            spend_perc_ppm: 50_000,
            shopping_time: 300,
            minimum_buys: 3,
            sell_escalation_passes: 6,
            sell_percent_up_ppm: 500,
            sell_percent_down_ppm: -250,
            continue_after_empty_shortlist: true,
        }
    }
}

} // verus!
