use autopilot::eth::{Address, TxId, H160, H256};
use autopilot::settlement::{
    begin_execution, check_deadline, discovery_step, end_execution, outcome, Discovery, Event,
    ExecutionEnded, ExecutionStarted, Request, SettleError, Settlement,
};

fn tx(n: u8) -> TxId {
    TxId(H256([n; 32]))
}

#[test]
fn settlement_times_out_at_deadline() {
    // Deadline 105. The driver answers at block 102 that it settled, but no
    // transaction is ever found.
    let deadline = 105;
    assert_eq!(check_deadline(100, deadline), Ok(()));
    let mut state = Settlement::start();
    assert_eq!(discovery_step(&Ok(None), 101, deadline), Discovery::Wait);
    state = state.step(Event::Driver(Ok(())));
    assert_eq!(state, Settlement::Dispatched { driver_done: true });
    assert_eq!(discovery_step(&Ok(None), 102, deadline), Discovery::Wait);
    assert_eq!(discovery_step(&Ok(None), 104, deadline), Discovery::Wait);
    assert_eq!(discovery_step(&Ok(None), 105, deadline), Discovery::TimedOut);
    state = state.step(Event::DeadlineReached);
    assert_eq!(state, Settlement::DeadlineMissed);
    let result = state.result().unwrap();
    assert_eq!(result, Err(SettleError::Timeout));
    assert_eq!(outcome(&result), "timeout");
}

#[test]
fn found_transaction_ends_settlement() {
    let state = Settlement::start().step(Event::Found(tx(1)));
    assert_eq!(state, Settlement::Mined(tx(1)));
    let result = state.result().unwrap();
    assert_eq!(result, Ok(tx(1)));
    assert_eq!(outcome(&result), "success");
}

#[test]
fn transaction_is_awaited_after_driver_is_done() {
    let state = Settlement::start().step(Event::Driver(Ok(())));
    assert_eq!(state.result(), None);
    let state = Settlement::Dispatched { driver_done: true }.step(Event::Found(tx(2)));
    assert_eq!(state, Settlement::Mined(tx(2)));
}

#[test]
fn driver_failure_ends_settlement() {
    let state = Settlement::start().step(Event::Driver(Err("out of gas".to_string())));
    assert_eq!(state, Settlement::DriverError("out of gas".to_string()));
    let result = state.result().unwrap();
    assert_eq!(result, Err(SettleError::Other("out of gas".to_string())));
    assert_eq!(outcome(&result), "driver failed: out of gas");
}

#[test]
fn ended_settlement_does_not_change() {
    let mined = Settlement::Mined(tx(1));
    assert_eq!(mined.step(Event::DeadlineReached), Settlement::Mined(tx(1)));
    let missed = Settlement::DeadlineMissed;
    assert_eq!(missed.step(Event::Found(tx(1))), Settlement::DeadlineMissed);
    let failed = Settlement::DriverError("x".to_string());
    assert_eq!(failed.step(Event::Driver(Ok(()))), Settlement::DriverError("x".to_string()));
    let done = Settlement::Dispatched { driver_done: true };
    assert_eq!(
        done.step(Event::Driver(Err("late".to_string()))),
        Settlement::Dispatched { driver_done: true }
    );
}

#[test]
fn missed_deadline_fails_before_dispatch() {
    assert_eq!(check_deadline(105, 105), Err("submission deadline was missed".to_string()));
    assert_eq!(check_deadline(106, 105), Err("submission deadline was missed".to_string()));
    assert_eq!(check_deadline(104, 105), Ok(()));
    let state = Settlement::start().step(Event::Driver(check_deadline(105, 105)));
    let result = state.result().unwrap();
    assert_eq!(outcome(&result), "driver failed: submission deadline was missed");
}

#[test]
fn discovery_prefers_found_transaction() {
    assert_eq!(discovery_step(&Ok(Some(tx(3))), 200, 105), Discovery::Found(tx(3)));
    assert_eq!(discovery_step(&Ok(Some(tx(3))), 1, 105), Discovery::Found(tx(3)));
}

#[test]
fn failed_lookup_counts_as_nothing_found() {
    assert_eq!(discovery_step(&Err("db".to_string()), 104, 105), Discovery::Wait);
    assert_eq!(discovery_step(&Err("db".to_string()), 105, 105), Discovery::TimedOut);
    assert_eq!(discovery_step(&Ok(None), 106, 105), Discovery::TimedOut);
}

#[test]
fn settle_errors_have_labels() {
    assert_eq!(SettleError::Timeout.label(), "timeout");
    assert_eq!(SettleError::Other("x".to_string()).label(), "error");
}

#[test]
fn start_is_stored_under_the_deadline_of_the_request() {
    let request = Request { solution_id: 7, submission_deadline_latest_block: 105, auction_id: 42 };
    let solver = Address(H160([3; 20]));
    assert_eq!(
        begin_execution(&request, solver, 100),
        Ok(ExecutionStarted { auction_id: 42, solver, start_block: 100, deadline_block: 105 })
    );
    assert_eq!(
        begin_execution(&request, solver, 105),
        Err("submission deadline was missed".to_string())
    );
}

#[test]
fn end_is_stored_with_its_outcome() {
    let request = Request { solution_id: 7, submission_deadline_latest_block: 105, auction_id: 42 };
    let solver = Address(H160([3; 20]));
    assert_eq!(
        end_execution(&request, solver, 103, &Ok(tx(1))),
        ExecutionEnded { auction_id: 42, solver, end_block: 103, outcome: "success".to_string() }
    );
    assert_eq!(
        end_execution(&request, solver, 105, &Err(SettleError::Timeout)).outcome,
        "timeout"
    );
    assert_eq!(
        end_execution(&request, solver, 101, &Err(SettleError::Other("reverted".to_string())))
            .outcome,
        "driver failed: reverted"
    );
}
