use apollo::protocol::{ControlAction, ControlEvent, ControlMachine, ControlState, CycleProtocol};
use apollo::workers::{
    BuyAction, BuyEvent, BuyMachine, BuyPhase, SellAction, SellEvent, SellMachine, SellPhase,
};

#[test]
fn cycle_counters_run_one_full_cycle() {
    let mut p = CycleProtocol::new();
    // Control refreshes all four collections, in order, then signals.
    p.refresh_balance();
    p.refresh_instruments();
    p.refresh_positions();
    p.refresh_limit_orders();
    p.notify_workers();
    // the workers observe their starts only after the refreshes.
    assert_eq!(p.balance_refreshed, 1);
    assert_eq!(p.limit_orders_refreshed, 1);
    assert_eq!(p.starts_sent, 1);
    p.observe_buy_start();
    p.observe_sell_start();
    // Sell yields to Buy, Buy hands back, Sell reports done.
    p.send_ready_for_buys();
    p.observe_ready_for_buys();
    p.send_buys_executed();
    p.observe_buys_executed();
    p.send_sell_done();
    p.observe_sell_done();
    assert_eq!(p.done_seen, 1);
    // only now may the next cycle's refresh begin.
    p.refresh_balance();
    assert_eq!(p.balance_refreshed, 2);
}

#[test]
fn control_machine_walks_the_cycle() {
    let mut m = ControlMachine::new();
    assert_eq!(m.state, ControlState::WaitMarketOpen);
    assert_eq!(m.action(), ControlAction::CheckMarketOpen);
    // a closed market keeps polling.
    assert_eq!(m.step(ControlEvent::MarketClosed), ControlAction::CheckMarketOpen);
    assert_eq!(m.state, ControlState::WaitMarketOpen);
    assert_eq!(m.step(ControlEvent::MarketOpen), ControlAction::FetchBalance);
    // a failed fetch retries the same step.
    assert_eq!(m.step(ControlEvent::FetchFailed), ControlAction::FetchBalance);
    assert_eq!(m.state, ControlState::RefreshBalance);
    // the first instruments refresh fetches fresh data.
    assert_eq!(m.step(ControlEvent::FetchSucceeded), ControlAction::FetchInstrumentsFresh);
    assert_eq!(m.step(ControlEvent::InstrumentsFetchedFresh), ControlAction::FetchPositions);
    assert_eq!(m.step(ControlEvent::FetchSucceeded), ControlAction::FetchLimitOrders);
    assert_eq!(m.step(ControlEvent::FetchSucceeded), ControlAction::SendStartSignals);
    assert_eq!(m.step(ControlEvent::SignalsSent), ControlAction::AwaitSellDone);
    assert_eq!(m.step(ControlEvent::SellDoneReceived), ControlAction::CheckMarketOpen);
    // the next cycle reuses the snapshot instead.
    assert!(!m.fetch_fresh_instruments);
    m.step(ControlEvent::MarketOpen);
    assert_eq!(m.step(ControlEvent::FetchSucceeded), ControlAction::LoadInstrumentsSnapshot);
    // a missing snapshot falls back to a fresh fetch without changing
    // the schedule.
    assert_eq!(m.step(ControlEvent::InstrumentsSnapshotMissing), ControlAction::FetchInstrumentsFresh);
    assert_eq!(m.step(ControlEvent::InstrumentsFetchedFresh), ControlAction::FetchPositions);
    assert!(!m.fetch_fresh_instruments);
}

#[test]
fn buy_machine_forwards_handshake_on_empty_shortlist() {
    // an empty shortlist must still run the Sell hand-off instead of
    // leaving Sell blocked.
    let mut m = BuyMachine::new(true);
    assert_eq!(m.step(BuyEvent::StartReceived), BuyAction::ScanInstruments);
    assert_eq!(m.step(BuyEvent::ScanFinished(true)), BuyAction::AwaitReadyEmptyHanded);
    assert_eq!(m.step(BuyEvent::ReadyReceived), BuyAction::ForwardExecuted);
    // configured to continue, the worker loops to the next cycle.
    assert_eq!(m.phase, BuyPhase::AwaitStart);
}

#[test]
fn buy_machine_can_stop_after_empty_cycle() {
    let mut m = BuyMachine::new(false);
    m.step(BuyEvent::StartReceived);
    m.step(BuyEvent::ScanFinished(true));
    // the hand-off is still forwarded before stopping.
    assert_eq!(m.step(BuyEvent::ReadyReceived), BuyAction::ForwardExecuted);
    assert_eq!(m.phase, BuyPhase::Stopped);
    assert_eq!(m.step(BuyEvent::StartReceived), BuyAction::Halt);
}

#[test]
fn buy_machine_ordinary_cycle() {
    let mut m = BuyMachine::new(true);
    assert_eq!(m.step(BuyEvent::StartReceived), BuyAction::ScanInstruments);
    assert_eq!(m.step(BuyEvent::ScanFinished(false)), BuyAction::PersistAndAwaitReady);
    assert_eq!(m.step(BuyEvent::ReadyReceived), BuyAction::ExecuteBuys);
    assert_eq!(m.step(BuyEvent::BuysPlaced), BuyAction::ForwardExecuted);
    assert_eq!(m.phase, BuyPhase::AwaitStart);
}

#[test]
fn sell_machine_runs_fixed_escalation_passes() {
    let mut m = SellMachine::new(6);
    assert_eq!(m.step(SellEvent::StartReceived), SellAction::CancelAllSellOrders);
    assert_eq!(m.step(SellEvent::CancelPassDone), SellAction::PlaceInitialOrders);
    assert_eq!(m.step(SellEvent::InitialOrdersPlaced), SellAction::CancelAllSellOrders);
    assert_eq!(m.step(SellEvent::CancelPassDone), SellAction::SendReadyAndAwaitExecuted);
    assert_eq!(m.step(SellEvent::ExecutedReceived), SellAction::RunEscalationPass);
    assert_eq!(m.phase, SellPhase::Escalating);
    // five more passes run, then the cycle reports done.
    for _ in 0..5 {
        assert_eq!(m.step(SellEvent::EscalationPassDone), SellAction::RunEscalationPass);
    }
    assert_eq!(m.step(SellEvent::EscalationPassDone), SellAction::SignalCycleDone);
    assert_eq!(m.phase, SellPhase::AwaitStart);
    assert_eq!(m.pass, 6);
}
