//! The cross-worker cycle coordination protocol: the counters of every
//! hand-off signal in the Control -> Buy -> Sell -> Control graph, the
//! well-formedness invariant each step preserves, and the per-worker
//! state machines whose decisions an outer loop carries out.
//!
//! Every field counts completed events since startup.  A signal is
//! "seen" only after it was sent, a stage acts only after the signal it
//! blocks on, and Control refreshes the shared market state for a cycle
//! strictly before that cycle's start signals go out — which is what
//! [`CycleProtocol::lemma_refresh_precedes_start`] states.

use vstd::prelude::*;

verus! {

/// Counters of the cycle protocol's events, one per signal edge and
/// refresh step.
#[derive(Clone, Copy, Debug, PartialEq, Eq, Structural)]
pub struct CycleProtocol {
    /// Completed balance refreshes.
    pub balance_refreshed: u64,
    /// Completed instrument-universe refreshes.
    pub instruments_refreshed: u64,
    /// Completed position refreshes.
    pub positions_refreshed: u64,
    /// Completed working-order refreshes.
    pub limit_orders_refreshed: u64,
    /// Cycles whose pair of start signals was sent.
    pub starts_sent: u64,
    /// Start signals the Buy worker has received.
    pub buy_starts_seen: u64,
    /// Start signals the Sell worker has received.
    pub sell_starts_seen: u64,
    /// "Ready for buys" signals Sell has sent.
    pub ready_sent: u64,
    /// "Ready for buys" signals Buy has received.
    pub ready_seen: u64,
    /// "Buys executed" signals Buy has sent.
    pub executed_sent: u64,
    /// "Buys executed" signals Sell has received.
    pub executed_seen: u64,
    /// Cycle-complete signals Sell has sent.
    pub done_sent: u64,
    /// Cycle-complete signals Control has received.
    pub done_seen: u64,
}

impl CycleProtocol {
    /// The protocol invariant: every signal is received at most as
    /// often as it was sent, each worker acts only behind the signal it
    /// blocks on, the four refreshes of a cycle complete in order
    /// before its start signals, and Control begins refreshing for a
    /// new cycle only after the previous cycle reported done.
    pub open spec fn wf(&self) -> bool {
        &&& self.starts_sent <= self.limit_orders_refreshed
        &&& self.limit_orders_refreshed <= self.positions_refreshed
        &&& self.positions_refreshed <= self.instruments_refreshed
        &&& self.instruments_refreshed <= self.balance_refreshed
        &&& self.balance_refreshed <= self.done_seen + 1
        &&& self.buy_starts_seen <= self.starts_sent
        &&& self.sell_starts_seen <= self.starts_sent
        &&& self.ready_sent <= self.sell_starts_seen
        &&& self.ready_seen <= self.ready_sent
        &&& self.executed_sent <= self.ready_seen
        &&& self.executed_sent <= self.buy_starts_seen
        &&& self.executed_seen <= self.executed_sent
        &&& self.done_sent <= self.executed_seen
        &&& self.done_seen <= self.done_sent
    }

    /// The system before the first cycle: nothing has happened.
    pub fn new() -> (r: CycleProtocol)
        ensures
            r.wf(),
            r == (CycleProtocol {
                balance_refreshed: 0,
                instruments_refreshed: 0,
                positions_refreshed: 0,
                limit_orders_refreshed: 0,
                starts_sent: 0,
                buy_starts_seen: 0,
                sell_starts_seen: 0,
                ready_sent: 0,
                ready_seen: 0,
                executed_sent: 0,
                executed_seen: 0,
                done_sent: 0,
                done_seen: 0,
            }),
    {
        CycleProtocol {
            balance_refreshed: 0,
            instruments_refreshed: 0,
            positions_refreshed: 0,
            limit_orders_refreshed: 0,
            starts_sent: 0,
            buy_starts_seen: 0,
            sell_starts_seen: 0,
            ready_sent: 0,
            ready_seen: 0,
            executed_sent: 0,
            executed_seen: 0,
            done_sent: 0,
            done_seen: 0,
        }
    }

    /// Control finished refreshing the balance for the next cycle; only
    /// allowed once the previous cycle reported done.
    pub fn refresh_balance(&mut self)
        requires
            old(self).wf(),
            old(self).balance_refreshed == old(self).done_seen,
            old(self).balance_refreshed < u64::MAX,
        ensures
            final(self).wf(),
            *final(self) == (CycleProtocol {
                balance_refreshed: (old(self).balance_refreshed + 1) as u64,
                ..*old(self)
            }),
    {
        self.balance_refreshed = self.balance_refreshed + 1;
    }

    /// Control finished refreshing the instrument universe.
    pub fn refresh_instruments(&mut self)
        requires
            old(self).wf(),
            old(self).instruments_refreshed < old(self).balance_refreshed,
        ensures
            final(self).wf(),
            *final(self) == (CycleProtocol {
                instruments_refreshed: (old(self).instruments_refreshed + 1) as u64,
                ..*old(self)
            }),
    {
        self.instruments_refreshed = self.instruments_refreshed + 1;
    }

    /// Control finished refreshing the open positions.
    pub fn refresh_positions(&mut self)
        requires
            old(self).wf(),
            old(self).positions_refreshed < old(self).instruments_refreshed,
        ensures
            final(self).wf(),
            *final(self) == (CycleProtocol {
                positions_refreshed: (old(self).positions_refreshed + 1) as u64,
                ..*old(self)
            }),
    {
        self.positions_refreshed = self.positions_refreshed + 1;
    }

    /// Control finished refreshing the working orders.
    pub fn refresh_limit_orders(&mut self)
        requires
            old(self).wf(),
            old(self).limit_orders_refreshed < old(self).positions_refreshed,
        ensures
            final(self).wf(),
            *final(self) == (CycleProtocol {
                limit_orders_refreshed: (old(self).limit_orders_refreshed + 1) as u64,
                ..*old(self)
            }),
    {
        self.limit_orders_refreshed = self.limit_orders_refreshed + 1;
    }

    /// Control sends the cycle's two start signals; only allowed after
    /// all four refreshes of that cycle completed.
    pub fn notify_workers(&mut self)
        requires
            old(self).wf(),
            old(self).starts_sent < old(self).limit_orders_refreshed,
        ensures
            final(self).wf(),
            *final(self) == (CycleProtocol { starts_sent: (old(self).starts_sent + 1) as u64, ..*old(self) }),
    {
        self.starts_sent = self.starts_sent + 1;
    }

    /// The Buy worker receives a start signal.
    pub fn observe_buy_start(&mut self)
        requires
            old(self).wf(),
            old(self).buy_starts_seen < old(self).starts_sent,
        ensures
            final(self).wf(),
            *final(self) == (CycleProtocol {
                buy_starts_seen: (old(self).buy_starts_seen + 1) as u64,
                ..*old(self)
            }),
    {
        self.buy_starts_seen = self.buy_starts_seen + 1;
    }

    /// The Sell worker receives a start signal.
    pub fn observe_sell_start(&mut self)
        requires
            old(self).wf(),
            old(self).sell_starts_seen < old(self).starts_sent,
        ensures
            final(self).wf(),
            *final(self) == (CycleProtocol {
                sell_starts_seen: (old(self).sell_starts_seen + 1) as u64,
                ..*old(self)
            }),
    {
        self.sell_starts_seen = self.sell_starts_seen + 1;
    }

    /// Sell yields to Buy mid-cycle.
    pub fn send_ready_for_buys(&mut self)
        requires
            old(self).wf(),
            old(self).ready_sent < old(self).sell_starts_seen,
        ensures
            final(self).wf(),
            *final(self) == (CycleProtocol { ready_sent: (old(self).ready_sent + 1) as u64, ..*old(self) }),
    {
        self.ready_sent = self.ready_sent + 1;
    }

    /// Buy receives Sell's go-ahead.
    pub fn observe_ready_for_buys(&mut self)
        requires
            old(self).wf(),
            old(self).ready_seen < old(self).ready_sent,
        ensures
            final(self).wf(),
            *final(self) == (CycleProtocol { ready_seen: (old(self).ready_seen + 1) as u64, ..*old(self) }),
    {
        self.ready_seen = self.ready_seen + 1;
    }

    /// Buy hands control back to Sell.  This is sent both after
    /// executing purchases and on an empty shortlist, so Sell is never
    /// left blocked.
    pub fn send_buys_executed(&mut self)
        requires
            old(self).wf(),
            old(self).executed_sent < old(self).ready_seen,
            old(self).executed_sent < old(self).buy_starts_seen,
        ensures
            final(self).wf(),
            *final(self) == (CycleProtocol {
                executed_sent: (old(self).executed_sent + 1) as u64,
                ..*old(self)
            }),
    {
        self.executed_sent = self.executed_sent + 1;
    }

    /// Sell learns that the buys are done.
    pub fn observe_buys_executed(&mut self)
        requires
            old(self).wf(),
            old(self).executed_seen < old(self).executed_sent,
        ensures
            final(self).wf(),
            *final(self) == (CycleProtocol {
                executed_seen: (old(self).executed_seen + 1) as u64,
                ..*old(self)
            }),
    {
        self.executed_seen = self.executed_seen + 1;
    }

    /// Sell reports the cycle complete to Control.
    pub fn send_sell_done(&mut self)
        requires
            old(self).wf(),
            old(self).done_sent < old(self).executed_seen,
        ensures
            final(self).wf(),
            *final(self) == (CycleProtocol { done_sent: (old(self).done_sent + 1) as u64, ..*old(self) }),
    {
        self.done_sent = self.done_sent + 1;
    }

    /// Control receives the cycle-complete signal and may refresh
    /// again.
    pub fn observe_sell_done(&mut self)
        requires
            old(self).wf(),
            old(self).done_seen < old(self).done_sent,
        ensures
            final(self).wf(),
            *final(self) == (CycleProtocol { done_seen: (old(self).done_seen + 1) as u64, ..*old(self) }),
    {
        self.done_seen = self.done_seen + 1;
    }

    /// The refresh of a cycle's shared market state completes before
    /// either worker observes that cycle's start signal: every start a
    /// worker has seen lies behind completed refreshes of all four
    /// collections.
    pub proof fn lemma_refresh_precedes_start(&self)
        requires
            self.wf(),
        ensures
            self.buy_starts_seen <= self.balance_refreshed,
            self.buy_starts_seen <= self.instruments_refreshed,
            self.buy_starts_seen <= self.positions_refreshed,
            self.buy_starts_seen <= self.limit_orders_refreshed,
            self.sell_starts_seen <= self.balance_refreshed,
            self.sell_starts_seen <= self.instruments_refreshed,
            self.sell_starts_seen <= self.positions_refreshed,
            self.sell_starts_seen <= self.limit_orders_refreshed,
    {
    }

    /// The per-cycle partial order of the signal graph: Sell's initial
    /// arming precedes Buy's execution, which precedes Sell's
    /// escalation and completion report, which precedes Control's next
    /// refresh round.
    pub proof fn lemma_cycle_order(&self)
        requires
            self.wf(),
        ensures
            self.done_seen <= self.done_sent <= self.executed_seen <= self.executed_sent
                <= self.ready_seen <= self.ready_sent <= self.sell_starts_seen <= self.starts_sent,
            self.balance_refreshed <= self.done_seen + 1,
    {
    }
}

/// The Control coordinator's states, one refresh step at a time.
#[derive(Clone, Copy, Debug, PartialEq, Eq, Structural)]
pub enum ControlState {
    WaitMarketOpen,
    RefreshBalance,
    RefreshInstruments,
    RefreshPositions,
    RefreshLimitOrders,
    NotifyWorkers,
    WaitForSellDone,
}

/// What the Control coordinator's loop is told to do next.
#[derive(Clone, Copy, Debug, PartialEq, Eq, Structural)]
pub enum ControlAction {
    /// Ask the data provider whether the market is open.
    CheckMarketOpen,
    /// Market closed: sleep about an hour, then check again.
    SleepLongAndRecheck,
    /// Fetch the balance from the data provider.
    FetchBalance,
    /// Fetch a fresh instrument universe, persist it, and shuffle it.
    FetchInstrumentsFresh,
    /// Reuse the instrument snapshot from the previous cycle.
    LoadInstrumentsSnapshot,
    /// Fetch the open positions.
    FetchPositions,
    /// Fetch the working orders.
    FetchLimitOrders,
    /// A fetch failed: sleep a fixed backoff, then retry the same step.
    RetryAfterBackoff,
    /// Send the two start signals.
    SendStartSignals,
    /// Block until Sell reports the cycle complete.
    AwaitSellDone,
}

/// What just happened in the Control coordinator's loop.
#[derive(Clone, Copy, Debug, PartialEq, Eq, Structural)]
pub enum ControlEvent {
    MarketOpen,
    MarketClosed,
    FetchSucceeded,
    FetchFailed,
    InstrumentsFetchedFresh,
    InstrumentsLoadedFromSnapshot,
    InstrumentsSnapshotMissing,
    SignalsSent,
    SellDoneReceived,
}

/// The Control coordinator: a blocking sequential loop that refreshes
/// the shared market state, signals the workers, and waits for Sell's
/// completion report; every fetch failure retries the same step
/// indefinitely.
pub struct ControlMachine {
    pub state: ControlState,
    /// Whether the next instruments refresh fetches fresh data or
    /// reuses the snapshot; alternates on every successful refresh to
    /// bound the call volume.
    pub fetch_fresh_instruments: bool,
}

impl ControlMachine {
    pub fn new() -> (r: ControlMachine)
        ensures
            r.state == ControlState::WaitMarketOpen,
            r.fetch_fresh_instruments,
    {
        ControlMachine { state: ControlState::WaitMarketOpen, fetch_fresh_instruments: true }
    }

    /// What the loop must do in the current state.
    pub fn action(&self) -> (a: ControlAction)
        ensures
            a == match self.state {
                ControlState::WaitMarketOpen => ControlAction::CheckMarketOpen,
                ControlState::RefreshBalance => ControlAction::FetchBalance,
                ControlState::RefreshInstruments => if self.fetch_fresh_instruments {
                    ControlAction::FetchInstrumentsFresh
                } else {
                    ControlAction::LoadInstrumentsSnapshot
                },
                ControlState::RefreshPositions => ControlAction::FetchPositions,
                ControlState::RefreshLimitOrders => ControlAction::FetchLimitOrders,
                ControlState::NotifyWorkers => ControlAction::SendStartSignals,
                ControlState::WaitForSellDone => ControlAction::AwaitSellDone,
            },
    {
        match self.state {
            ControlState::WaitMarketOpen => ControlAction::CheckMarketOpen,
            ControlState::RefreshBalance => ControlAction::FetchBalance,
            ControlState::RefreshInstruments => if self.fetch_fresh_instruments {
                ControlAction::FetchInstrumentsFresh
            } else {
                ControlAction::LoadInstrumentsSnapshot
            },
            ControlState::RefreshPositions => ControlAction::FetchPositions,
            ControlState::RefreshLimitOrders => ControlAction::FetchLimitOrders,
            ControlState::NotifyWorkers => ControlAction::SendStartSignals,
            ControlState::WaitForSellDone => ControlAction::AwaitSellDone,
        }
    }

    /// Advances on an event.  A failed fetch keeps the machine in the
    /// same refresh state (the retry-until-success loop); a closed
    /// market keeps it polling; each successful step moves to the next
    /// state of the cycle; the instruments source alternates after a
    /// successful instruments refresh.
    pub fn step(&mut self, event: ControlEvent) -> (a: ControlAction)
        ensures
            final(self).state == spec_control_next(old(self).state, event),
            final(self).fetch_fresh_instruments == spec_control_toggle(
                old(self).state,
                event,
                old(self).fetch_fresh_instruments,
            ),
            a == final(self).action_spec(),
    {
        let next = control_next(self.state, event);
        let toggled = control_toggle(self.state, event, self.fetch_fresh_instruments);
        self.state = next;
        self.fetch_fresh_instruments = toggled;
        self.action()
    }

    /// The action of the current state, as a specification.
    pub open spec fn action_spec(&self) -> ControlAction {
        match self.state {
            ControlState::WaitMarketOpen => ControlAction::CheckMarketOpen,
            ControlState::RefreshBalance => ControlAction::FetchBalance,
            ControlState::RefreshInstruments => if self.fetch_fresh_instruments {
                ControlAction::FetchInstrumentsFresh
            } else {
                ControlAction::LoadInstrumentsSnapshot
            },
            ControlState::RefreshPositions => ControlAction::FetchPositions,
            ControlState::RefreshLimitOrders => ControlAction::FetchLimitOrders,
            ControlState::NotifyWorkers => ControlAction::SendStartSignals,
            ControlState::WaitForSellDone => ControlAction::AwaitSellDone,
        }
    }
}

/// The Control transition relation.
pub open spec fn spec_control_next(state: ControlState, event: ControlEvent) -> ControlState {
    match state {
        ControlState::WaitMarketOpen => if event == ControlEvent::MarketOpen {
            ControlState::RefreshBalance
        } else {
            ControlState::WaitMarketOpen
        },
        ControlState::RefreshBalance => if event == ControlEvent::FetchSucceeded {
            ControlState::RefreshInstruments
        } else {
            ControlState::RefreshBalance
        },
        ControlState::RefreshInstruments => if event == ControlEvent::InstrumentsFetchedFresh
            || event == ControlEvent::InstrumentsLoadedFromSnapshot {
            ControlState::RefreshPositions
        } else {
            ControlState::RefreshInstruments
        },
        ControlState::RefreshPositions => if event == ControlEvent::FetchSucceeded {
            ControlState::RefreshLimitOrders
        } else {
            ControlState::RefreshPositions
        },
        ControlState::RefreshLimitOrders => if event == ControlEvent::FetchSucceeded {
            ControlState::NotifyWorkers
        } else {
            ControlState::RefreshLimitOrders
        },
        ControlState::NotifyWorkers => if event == ControlEvent::SignalsSent {
            ControlState::WaitForSellDone
        } else {
            ControlState::NotifyWorkers
        },
        ControlState::WaitForSellDone => if event == ControlEvent::SellDoneReceived {
            ControlState::WaitMarketOpen
        } else {
            ControlState::WaitForSellDone
        },
    }
}

/// When the instruments source toggles: after a scheduled fresh fetch
/// the next cycle reuses the snapshot, after a snapshot reuse the next
/// cycle fetches fresh data; a snapshot miss falls back to a fresh
/// fetch for this cycle.
pub open spec fn spec_control_toggle(
    state: ControlState,
    event: ControlEvent,
    fresh: bool,
) -> bool {
    if state == ControlState::RefreshInstruments {
        if event == ControlEvent::InstrumentsFetchedFresh {
            false
        } else if event == ControlEvent::InstrumentsLoadedFromSnapshot
            || event == ControlEvent::InstrumentsSnapshotMissing {
            true
        } else {
            fresh
        }
    } else {
        fresh
    }
}

/// Executable form of [`spec_control_next`].
fn control_next(state: ControlState, event: ControlEvent) -> (r: ControlState)
    ensures
        r == spec_control_next(state, event),
{
    match state {
        ControlState::WaitMarketOpen => if event == ControlEvent::MarketOpen {
            ControlState::RefreshBalance
        } else {
            ControlState::WaitMarketOpen
        },
        ControlState::RefreshBalance => if event == ControlEvent::FetchSucceeded {
            ControlState::RefreshInstruments
        } else {
            ControlState::RefreshBalance
        },
        ControlState::RefreshInstruments => if event == ControlEvent::InstrumentsFetchedFresh
            || event == ControlEvent::InstrumentsLoadedFromSnapshot {
            ControlState::RefreshPositions
        } else {
            ControlState::RefreshInstruments
        },
        ControlState::RefreshPositions => if event == ControlEvent::FetchSucceeded {
            ControlState::RefreshLimitOrders
        } else {
            ControlState::RefreshPositions
        },
        ControlState::RefreshLimitOrders => if event == ControlEvent::FetchSucceeded {
            ControlState::NotifyWorkers
        } else {
            ControlState::RefreshLimitOrders
        },
        ControlState::NotifyWorkers => if event == ControlEvent::SignalsSent {
            ControlState::WaitForSellDone
        } else {
            ControlState::NotifyWorkers
        },
        ControlState::WaitForSellDone => if event == ControlEvent::SellDoneReceived {
            ControlState::WaitMarketOpen
        } else {
            ControlState::WaitForSellDone
        },
    }
}

/// Executable form of [`spec_control_toggle`].
fn control_toggle(state: ControlState, event: ControlEvent, fresh: bool) -> (r: bool)
    ensures
        r == spec_control_toggle(state, event, fresh),
{
    if state == ControlState::RefreshInstruments {
        if event == ControlEvent::InstrumentsFetchedFresh {
            false
        } else if event == ControlEvent::InstrumentsLoadedFromSnapshot
            || event == ControlEvent::InstrumentsSnapshotMissing {
            true
        } else {
            fresh
        }
    } else {
        fresh
    }
}

} // verus!
