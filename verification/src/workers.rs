//! The Buy and Sell workers' per-cycle phase machines.  Each worker is
//! a blocking loop; the machine pins which hand-off it blocks on next
//! and what work the loop performs between hand-offs, so that the
//! sequencing of the cycle — Sell arms positions, yields to Buy, Buy
//! returns control, Sell escalates and reports — is fixed here and not
//! in the loop around it.

use vstd::prelude::*;

verus! {

/// The Buy worker's phase within a cycle.
#[derive(Clone, Copy, Debug, PartialEq, Eq, Structural)]
pub enum BuyPhase {
    /// Blocked on Control's start signal.
    AwaitStart,
    /// Building the shortlist from the shared instruments.
    Scanning,
    /// Blocked on Sell's ready-for-buys signal.
    AwaitSellReady,
    /// Placing the planned limit buys.
    Executing,
    /// The worker stopped for good (after an empty cycle, when the
    /// configuration says not to continue).
    Stopped,
}

/// What the Buy worker's loop is told to do next.
#[derive(Clone, Copy, Debug, PartialEq, Eq, Structural)]
pub enum BuyAction {
    /// Block on the start channel.
    BlockOnStart,
    /// Load the snapshot shortlist and scan the shared instruments.
    ScanInstruments,
    /// Persist the shortlist, then block on Sell's ready signal.
    PersistAndAwaitReady,
    /// Empty shortlist: block on Sell's ready signal without persisting.
    AwaitReadyEmptyHanded,
    /// Execute the planned buys.
    ExecuteBuys,
    /// Send the buys-executed signal to Sell.
    ForwardExecuted,
    /// Do nothing more; the worker has stopped.
    Halt,
}

/// What just happened in the Buy worker's loop.
#[derive(Clone, Copy, Debug, PartialEq, Eq, Structural)]
pub enum BuyEvent {
    StartReceived,
    /// The scan ended; true when the shortlist came up empty.
    ScanFinished(bool),
    ReadyReceived,
    BuysPlaced,
    ExecutedSent,
}

/// The Buy worker: blocks on Control's start, shortlists, waits for
/// Sell's go-ahead, buys, and hands control back to Sell.  On an empty
/// shortlist it still completes the Sell hand-off — it waits for the
/// ready signal and forwards the executed signal — so Sell is never
/// left blocked; whether the worker then keeps running is the
/// configuration's choice.
pub struct BuyMachine {
    pub phase: BuyPhase,
    /// Whether this cycle's shortlist came up empty.
    pub empty_cycle: bool,
    /// Whether the worker loops on after an empty cycle.
    pub continue_after_empty: bool,
}

/// The Buy transition relation.
pub open spec fn spec_buy_next(m: BuyMachine, event: BuyEvent) -> BuyMachine {
    match (m.phase, event) {
        (BuyPhase::AwaitStart, BuyEvent::StartReceived) => BuyMachine {
            phase: BuyPhase::Scanning,
            empty_cycle: false,
            ..m
        },
        (BuyPhase::Scanning, BuyEvent::ScanFinished(empty)) => BuyMachine {
            phase: BuyPhase::AwaitSellReady,
            empty_cycle: empty,
            ..m
        },
        (BuyPhase::AwaitSellReady, BuyEvent::ReadyReceived) => if m.empty_cycle {
            BuyMachine {
                phase: if m.continue_after_empty {
                    BuyPhase::AwaitStart
                } else {
                    BuyPhase::Stopped
                },
                ..m
            }
        } else {
            BuyMachine { phase: BuyPhase::Executing, ..m }
        },
        (BuyPhase::Executing, BuyEvent::BuysPlaced) => BuyMachine {
            phase: BuyPhase::AwaitStart,
            ..m
        },
        _ => m,
    }
}

/// The action owed in each phase; after the ready signal of an empty
/// cycle, and after placing buys, the owed action is forwarding the
/// executed signal.
pub open spec fn spec_buy_action(m: BuyMachine, event: BuyEvent) -> BuyAction {
    match (m.phase, event) {
        (BuyPhase::AwaitStart, BuyEvent::StartReceived) => BuyAction::ScanInstruments,
        (BuyPhase::Scanning, BuyEvent::ScanFinished(empty)) => if empty {
            BuyAction::AwaitReadyEmptyHanded
        } else {
            BuyAction::PersistAndAwaitReady
        },
        (BuyPhase::AwaitSellReady, BuyEvent::ReadyReceived) => if m.empty_cycle {
            BuyAction::ForwardExecuted
        } else {
            BuyAction::ExecuteBuys
        },
        (BuyPhase::Executing, BuyEvent::BuysPlaced) => BuyAction::ForwardExecuted,
        (BuyPhase::Stopped, _) => BuyAction::Halt,
        _ => BuyAction::BlockOnStart,
    }
}

impl BuyMachine {
    pub fn new(continue_after_empty: bool) -> (r: BuyMachine)
        ensures
            r.phase == BuyPhase::AwaitStart,
            r.continue_after_empty == continue_after_empty,
    {
        BuyMachine { phase: BuyPhase::AwaitStart, empty_cycle: false, continue_after_empty }
    }

    /// Advances on an event and returns the action the loop owes next.
    /// Whatever the shortlist held — even nothing — a received ready
    /// signal obliges the loop to forward the executed signal.
    pub fn step(&mut self, event: BuyEvent) -> (a: BuyAction)
        ensures
            *final(self) == spec_buy_next(*old(self), event),
            a == spec_buy_action(*old(self), event),
    {
        let ghost current = *self;
        let a: BuyAction = match (self.phase, event) {
            (BuyPhase::AwaitStart, BuyEvent::StartReceived) => {
                self.phase = BuyPhase::Scanning;
                self.empty_cycle = false;
                BuyAction::ScanInstruments
            },
            (BuyPhase::Scanning, BuyEvent::ScanFinished(empty)) => {
                self.phase = BuyPhase::AwaitSellReady;
                self.empty_cycle = empty;
                if empty {
                    BuyAction::AwaitReadyEmptyHanded
                } else {
                    BuyAction::PersistAndAwaitReady
                }
            },
            (BuyPhase::AwaitSellReady, BuyEvent::ReadyReceived) => {
                if self.empty_cycle {
                    self.phase = if self.continue_after_empty {
                        BuyPhase::AwaitStart
                    } else {
                        BuyPhase::Stopped
                    };
                    BuyAction::ForwardExecuted
                } else {
                    self.phase = BuyPhase::Executing;
                    BuyAction::ExecuteBuys
                }
            },
            (BuyPhase::Executing, BuyEvent::BuysPlaced) => {
                self.phase = BuyPhase::AwaitStart;
                BuyAction::ForwardExecuted
            },
            (BuyPhase::Stopped, _) => BuyAction::Halt,
            _ => BuyAction::BlockOnStart,
        };
        proof {
            assert(*self == spec_buy_next(current, event));
        }
        a
    }
}

/// The Sell worker's phase within a cycle.
#[derive(Clone, Copy, Debug, PartialEq, Eq, Structural)]
pub enum SellPhase {
    /// Blocked on Control's start signal.
    AwaitStart,
    /// Cancelling the sell orders left over from the previous cycle.
    CancelLeftovers,
    /// Placing one initial exit order per open position.
    PlaceInitial,
    /// Cancelling the initial orders again before handing off to Buy.
    ClearBeforeHandOff,
    /// Blocked on Buy's buys-executed signal.
    AwaitExecuted,
    /// Running the escalation passes.
    Escalating,
}

/// What the Sell worker's loop is told to do next.
#[derive(Clone, Copy, Debug, PartialEq, Eq, Structural)]
pub enum SellAction {
    /// Block on the start channel.
    BlockOnStart,
    /// Settle, then cancel all working sell orders.
    CancelAllSellOrders,
    /// Arm every position with its initial exit order.
    PlaceInitialOrders,
    /// Send ready-for-buys and block on the executed signal.
    SendReadyAndAwaitExecuted,
    /// Cancel all sell orders and re-price every tracked order.
    RunEscalationPass,
    /// Report the cycle complete to Control.
    SignalCycleDone,
}

/// What just happened in the Sell worker's loop.
#[derive(Clone, Copy, Debug, PartialEq, Eq, Structural)]
pub enum SellEvent {
    StartReceived,
    CancelPassDone,
    InitialOrdersPlaced,
    ExecutedReceived,
    EscalationPassDone,
}

/// The Sell worker: cancels leftovers, arms every position, clears the
/// board for Buy, waits for Buy to finish, runs its fixed number of
/// escalation passes, and reports the cycle complete.
pub struct SellMachine {
    pub phase: SellPhase,
    /// Escalation passes completed this cycle.
    pub pass: u32,
    /// The configured number of escalation passes per cycle.
    pub total_passes: u32,
}

/// The Sell transition relation.
pub open spec fn spec_sell_next(m: SellMachine, event: SellEvent) -> SellMachine {
    match (m.phase, event) {
        (SellPhase::AwaitStart, SellEvent::StartReceived) => SellMachine {
            phase: SellPhase::CancelLeftovers,
            pass: 0,
            ..m
        },
        (SellPhase::CancelLeftovers, SellEvent::CancelPassDone) => SellMachine {
            phase: SellPhase::PlaceInitial,
            ..m
        },
        (SellPhase::PlaceInitial, SellEvent::InitialOrdersPlaced) => SellMachine {
            phase: SellPhase::ClearBeforeHandOff,
            ..m
        },
        (SellPhase::ClearBeforeHandOff, SellEvent::CancelPassDone) => SellMachine {
            phase: SellPhase::AwaitExecuted,
            ..m
        },
        (SellPhase::AwaitExecuted, SellEvent::ExecutedReceived) => SellMachine {
            phase: SellPhase::Escalating,
            ..m
        },
        (SellPhase::Escalating, SellEvent::EscalationPassDone) => if m.pass + 1
            < m.total_passes {
            SellMachine { pass: (m.pass + 1) as u32, ..m }
        } else {
            SellMachine { phase: SellPhase::AwaitStart, pass: (m.pass + 1) as u32, ..m }
        },
        _ => m,
    }
}

/// The action owed after each event.
pub open spec fn spec_sell_action(m: SellMachine, event: SellEvent) -> SellAction {
    match (m.phase, event) {
        (SellPhase::AwaitStart, SellEvent::StartReceived) => SellAction::CancelAllSellOrders,
        (SellPhase::CancelLeftovers, SellEvent::CancelPassDone) => SellAction::PlaceInitialOrders,
        (SellPhase::PlaceInitial, SellEvent::InitialOrdersPlaced)
            => SellAction::CancelAllSellOrders,
        (SellPhase::ClearBeforeHandOff, SellEvent::CancelPassDone)
            => SellAction::SendReadyAndAwaitExecuted,
        (SellPhase::AwaitExecuted, SellEvent::ExecutedReceived) => SellAction::RunEscalationPass,
        (SellPhase::Escalating, SellEvent::EscalationPassDone) => if m.pass + 1 < m.total_passes {
            SellAction::RunEscalationPass
        } else {
            SellAction::SignalCycleDone
        },
        _ => SellAction::BlockOnStart,
    }
}

impl SellMachine {
    pub fn new(total_passes: u32) -> (r: SellMachine)
        ensures
            r.phase == SellPhase::AwaitStart,
            r.pass == 0,
            r.total_passes == total_passes,
    {
        SellMachine { phase: SellPhase::AwaitStart, pass: 0, total_passes }
    }

    /// Advances on an event and returns the action the loop owes next.
    /// The escalation phase ends, with the completion report owed,
    /// after exactly the configured number of passes.
    pub fn step(&mut self, event: SellEvent) -> (a: SellAction)
        requires
            old(self).pass < u32::MAX,
        ensures
            *final(self) == spec_sell_next(*old(self), event),
            a == spec_sell_action(*old(self), event),
    {
        let ghost current = *self;
        let a: SellAction = match (self.phase, event) {
            (SellPhase::AwaitStart, SellEvent::StartReceived) => {
                self.phase = SellPhase::CancelLeftovers;
                self.pass = 0;
                SellAction::CancelAllSellOrders
            },
            (SellPhase::CancelLeftovers, SellEvent::CancelPassDone) => {
                self.phase = SellPhase::PlaceInitial;
                SellAction::PlaceInitialOrders
            },
            (SellPhase::PlaceInitial, SellEvent::InitialOrdersPlaced) => {
                self.phase = SellPhase::ClearBeforeHandOff;
                SellAction::CancelAllSellOrders
            },
            (SellPhase::ClearBeforeHandOff, SellEvent::CancelPassDone) => {
                self.phase = SellPhase::AwaitExecuted;
                SellAction::SendReadyAndAwaitExecuted
            },
            (SellPhase::AwaitExecuted, SellEvent::ExecutedReceived) => {
                self.phase = SellPhase::Escalating;
                SellAction::RunEscalationPass
            },
            (SellPhase::Escalating, SellEvent::EscalationPassDone) => {
                self.pass = self.pass + 1;
                if self.pass < self.total_passes {
                    SellAction::RunEscalationPass
                } else {
                    self.phase = SellPhase::AwaitStart;
                    SellAction::SignalCycleDone
                }
            },
            _ => SellAction::BlockOnStart,
        };
        proof {
            assert(*self == spec_sell_next(current, event));
        }
        a
    }
}

} // verus!
