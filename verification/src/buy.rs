//! The Buy stage's shortlist builder and order planning: a bounded
//! candidate list grown under a wall-clock budget, deduplicated against
//! the previous cycle's snapshot, and the limit-buy pricing with its
//! single bounded retry.

use vstd::prelude::*;
use crate::config::Config;
use crate::pricing::{get_perc_decrease, spec_perc_decrease, MAX_PRICE};
use crate::text::{eq_ignore_ascii_case_str, lemma_valid_label_is_ascii, spec_eq_ci};
use crate::trading::{get_buy_quantity, spec_amount_per_ticker, spec_buy_quantity};
use crate::types::{valid_label, BalanceObject, FullCompanyInfo};

verus! {

/// What the shortlisting loop does with one instrument.
#[derive(Clone, Copy, Debug, PartialEq, Eq, Structural)]
pub enum ShortlistStep {
    /// The time budget elapsed or the target was reached: stop
    /// scanning.
    Stop,
    /// This instrument was passed over; go on to the next one after a
    /// pacing delay.
    Skip,
    /// The candidate joined the shortlist.
    Added,
}

/// The Buy stage's cycle-local shortlist under construction.
pub struct BuyCycle {
    /// Candidates collected so far this cycle.
    pub buy_list: Vec<FullCompanyInfo>,
    /// Tickers of the previous cycle's shortlist snapshot; a ticker
    /// already there is not shortlisted again.
    pub prior_tickers: Vec<String>,
    /// The shortlist target, from the configuration.
    pub minimum_buys: usize,
    /// The wall-clock budget in seconds, from the configuration.
    pub shopping_time: u64,
}

impl BuyCycle {
    /// The shortlist never outgrows the target, and everything stored
    /// is well-formed.
    pub open spec fn wf(&self) -> bool {
        &&& self.buy_list@.len() <= self.minimum_buys
        &&& forall|i: int| 0 <= i < self.buy_list@.len() ==> (#[trigger] self.buy_list@[i]).wf()
        &&& forall|i: int|
            0 <= i < self.prior_tickers@.len() ==> valid_label(
                (#[trigger] self.prior_tickers@[i])@,
            )
    }

    /// Whether the previous cycle's snapshot already held this ticker.
    pub open spec fn spec_in_prior(&self, ticker: Seq<char>) -> bool {
        exists|i: int|
            0 <= i < self.prior_tickers@.len() && spec_eq_ci(
                (#[trigger] self.prior_tickers@[i])@,
                ticker,
            )
    }

    /// Whether the shortlist reached its target size.
    pub open spec fn spec_full(&self) -> bool {
        self.buy_list@.len() >= self.minimum_buys
    }

    pub fn new(prior_tickers: Vec<String>, cfg: &Config) -> (r: BuyCycle)
        requires
            forall|i: int| 0 <= i < prior_tickers@.len() ==> valid_label(
                (#[trigger] prior_tickers@[i])@,
            ),
        ensures
            r.wf(),
            r.buy_list@.len() == 0,
            r.prior_tickers@ == prior_tickers@,
            r.minimum_buys == cfg.minimum_buys,
            r.shopping_time == cfg.shopping_time,
    {
        BuyCycle {
            buy_list: Vec::new(),
            prior_tickers,
            minimum_buys: cfg.minimum_buys,
            shopping_time: cfg.shopping_time,
        }
    }

    /// Whether the previous cycle's snapshot already held this ticker.
    pub fn in_prior(&self, ticker: &str) -> (r: bool)
        requires
            self.wf(),
            vstd::string::is_ascii(ticker),
        ensures
            r == self.spec_in_prior(ticker@),
    {
        let mut i: usize = 0;
        while i < self.prior_tickers.len()
            invariant
                self.wf(),
                i <= self.prior_tickers@.len(),
                vstd::string::is_ascii(ticker),
                forall|j: int|
                    0 <= j < i ==> !spec_eq_ci((#[trigger] self.prior_tickers@[j])@, ticker@),
            decreases self.prior_tickers@.len() - i,
        {
            proof {
                lemma_valid_label_is_ascii(self.prior_tickers@[i as int]@);
            }
            if eq_ignore_ascii_case_str(self.prior_tickers[i].as_str(), ticker) {
                return true;
            }
            i = i + 1;
        }
        false
    }

    /// One shortlisting step.  The scan stops, leaving the list
    /// untouched, as soon as the time budget has elapsed or the target
    /// size is reached — even when no instrument ever passes the
    /// filters.  Otherwise the candidate joins the shortlist exactly
    /// when its details were fetched, it passed the filters, its price
    /// is not zero, and its ticker is not on the previous snapshot.
    pub fn consider(
        &mut self,
        elapsed_seconds: u64,
        company: Option<FullCompanyInfo>,
        passes_filters: bool,
    ) -> (step: ShortlistStep)
        requires
            old(self).wf(),
            company matches Some(c) ==> c.wf(),
        ensures
            final(self).wf(),
            final(self).prior_tickers@ == old(self).prior_tickers@,
            final(self).minimum_buys == old(self).minimum_buys,
            final(self).shopping_time == old(self).shopping_time,
            step == ShortlistStep::Stop <==> elapsed_seconds >= old(self).shopping_time || old(
                self,
            ).spec_full(),
            step == ShortlistStep::Added <==> !(elapsed_seconds >= old(self).shopping_time || old(
                self,
            ).spec_full()) && (company matches Some(c) && passes_filters && c.current_price != 0
                && !old(self).spec_in_prior(c.instrument.ticker@)),
            step == ShortlistStep::Added ==> (company matches Some(c) && final(self).buy_list@
                == old(self).buy_list@.push(c)),
            step != ShortlistStep::Added ==> final(self).buy_list@ == old(self).buy_list@,
    {
        if elapsed_seconds >= self.shopping_time {
            return ShortlistStep::Stop;
        }
        if self.buy_list.len() >= self.minimum_buys {
            return ShortlistStep::Stop;
        }
        let company = match company {
            None => {
                return ShortlistStep::Skip;
            },
            Some(c) => c,
        };
        if !passes_filters {
            return ShortlistStep::Skip;
        }
        if company.current_price == 0 {
            return ShortlistStep::Skip;
        }
        proof {
            lemma_valid_label_is_ascii(company.instrument.ticker@);
        }
        if self.in_prior(company.instrument.ticker.as_str()) {
            return ShortlistStep::Skip;
        }
        self.buy_list.push(company);
        ShortlistStep::Added
    }

    /// Whether the shortlist reached its target size, ending the scan
    /// early.
    pub fn is_full(&self) -> (r: bool)
        ensures
            r == self.spec_full(),
    {
        self.buy_list.len() >= self.minimum_buys
    }

    /// Whether the scan ended with nothing to buy; the stage must then
    /// still run the Sell hand-off (wait for ready, forward executed)
    /// instead of leaving Sell blocked.
    pub fn is_empty(&self) -> (r: bool)
        ensures
            r == (self.buy_list@.len() == 0),
    {
        self.buy_list.len() == 0
    }
}

/// The shortlist law: a well-formed cycle's list never outgrows the
/// configured minimum-buy target, whatever was considered so far.
pub proof fn lemma_shortlist_bounded(cycle: BuyCycle)
    requires
        cycle.wf(),
    ensures
        cycle.buy_list@.len() <= cycle.minimum_buys,
{
}

/// A planned limit-buy order: ticker index into the shortlist is left
/// to the caller; this carries the price and signed-down quantity.
pub struct PlannedBuy {
    /// Limit price: one tenth of a percent below the quoted price.
    pub price: u64,
    /// Quantity in fixed-point units.
    pub quantity: u64,
}

/// Plans the limit buy for one shortlisted candidate: the quantity from
/// the per-ticker budget capped by the instrument's maximum, and a
/// limit price one tenth of a percent below the quoted price.
pub fn plan_buy_order(company: &FullCompanyInfo, balance: &BalanceObject, cfg: &Config) -> (r:
    PlannedBuy)
    requires
        company.wf(),
        balance.wf(),
        cfg.wf(),
        company.current_price > 0,
    ensures
        r.price == spec_perc_decrease(company.current_price, 1000),
        r.quantity == spec_buy_quantity(
            spec_amount_per_ticker(balance.free, cfg.spend_perc_ppm, cfg.amount_of_tickers_to_buy),
            company.current_price,
            company.instrument.max_open_quantity,
        ),
{
    let price: u64 = get_perc_decrease(company.current_price, 1000);
    let quantity: u64 = get_buy_quantity(company, balance, cfg);
    PlannedBuy { price, quantity }
}

/// The single bounded retry of a failed buy: the same order re-priced
/// one hundredth of a unit higher.
pub fn retry_buy_price(price: u64) -> (r: u64)
    requires
        price <= MAX_PRICE,
    ensures
        r == price + 100,
{
    price + 100
}

} // verus!
