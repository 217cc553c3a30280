//! The settlement of one winning solution: the driver is asked to settle
//! while storage is watched for the transaction, until a deadline block.

use crate::eth::{Address, TxId};
use vstd::prelude::*;
use vstd::string::*;

verus! {

/// Why a settlement did not end with a transaction.
#[derive(Debug, PartialEq, Eq)]
pub enum SettleError {
    /// The driver failed, or the deadline had passed before it was asked.
    Other(String),
    /// No transaction was found before the deadline block.
    Timeout,
}

/// What the driver is asked when it is to settle a solution.
#[derive(Clone, Copy, Debug, PartialEq, Eq, Structural)]
pub struct Request {
    /// The driver's own number for the solution.
    pub solution_id: u64,
    /// The last block at which the settlement may still be submitted.
    pub submission_deadline_latest_block: u64,
    pub auction_id: i64,
}

/// Whether the driver may still be asked to settle: it may as long as the
/// current block is before the deadline block. Otherwise the settlement has
/// failed with the message `submission deadline was missed`.
pub fn check_deadline(current_block: u64, deadline_block: u64) -> (r: Result<(), String>)
    ensures
        current_block < deadline_block <==> r is Ok,
        r is Err ==> r->Err_0@ == "submission deadline was missed"@,
{
    if current_block < deadline_block {
        Ok(())
    } else {
        Err(String::from_str("submission deadline was missed"))
    }
}

/// What is stored when a settlement starts. Whoever stores it adds the time.
#[derive(Clone, Copy, Debug, PartialEq, Eq)]
pub struct ExecutionStarted {
    pub auction_id: i64,
    pub solver: Address,
    /// The block at which the driver is asked.
    pub start_block: u64,
    /// The last block at which the settlement may still be submitted.
    pub deadline_block: u64,
}

/// What is stored when a settlement has ended. Whoever stores it adds the
/// time.
#[derive(Debug, PartialEq, Eq)]
pub struct ExecutionEnded {
    pub auction_id: i64,
    pub solver: Address,
    /// The block at which the settlement ended.
    pub end_block: u64,
    /// `success`, `timeout`, or `driver failed: ` and the message.
    pub outcome: String,
}

/// What is stored of the start of a settlement that is asked for at the
/// given block.
pub open spec fn started(request: Request, solver: Address, block: u64) -> ExecutionStarted {
    ExecutionStarted {
        auction_id: request.auction_id,
        solver,
        start_block: block,
        deadline_block: request.submission_deadline_latest_block,
    }
}

/// Makes ready to ask the driver to settle. Where the deadline of the
/// request has not passed at the current block, the start of the settlement
/// is to be stored, under the deadline of the request; otherwise the
/// settlement has failed before the driver is asked.
pub fn begin_execution(request: &Request, solver: Address, current_block: u64) -> (r: Result<
    ExecutionStarted,
    String,
>)
    ensures
        current_block < request.submission_deadline_latest_block <==> r is Ok,
        r is Ok ==> r->Ok_0 == started(*request, solver, current_block),
        r is Err ==> r->Err_0@ == "submission deadline was missed"@,
{
    match check_deadline(current_block, request.submission_deadline_latest_block) {
        Ok(()) => Ok(
            ExecutionStarted {
                auction_id: request.auction_id,
                solver,
                start_block: current_block,
                deadline_block: request.submission_deadline_latest_block,
            },
        ),
        Err(missed) => Err(missed),
    }
}

/// What a look for the settlement transaction at a new block leads to.
#[derive(Clone, Copy, Debug, PartialEq, Eq)]
pub enum Discovery {
    /// The transaction was found.
    Found(TxId),
    /// The deadline block is reached and nothing was found.
    TimedOut,
    /// Nothing was found yet: wait for the next block and look again.
    Wait,
}

/// Decides what follows one look for the settlement transaction, made
/// after the block `block` arrived. A look that failed counts as one that
/// found nothing.
pub fn discovery_step(lookup: &Result<Option<TxId>, String>, block: u64, deadline_block: u64) -> (r:
    Discovery)
    ensures
        r == match *lookup {
            Ok(Some(tx)) => Discovery::Found(tx),
            _ => if block >= deadline_block {
                Discovery::TimedOut
            } else {
                Discovery::Wait
            },
        },
{
    match lookup {
        Ok(Some(tx)) => Discovery::Found(*tx),
        _ => if block >= deadline_block {
            Discovery::TimedOut
        } else {
            Discovery::Wait
        },
    }
}

/// Where the settlement of one winner stands.
#[derive(Debug, PartialEq, Eq)]
pub enum Settlement {
    /// The driver has been asked. `driver_done` tells whether it has
    /// answered that it settled; the transaction is still looked for.
    Dispatched { driver_done: bool },
    /// The transaction was found.
    Mined(TxId),
    /// The driver failed.
    DriverError(String),
    /// The deadline block was reached without a transaction.
    DeadlineMissed,
}

/// What happens to a settlement.
#[derive(Debug, PartialEq, Eq)]
pub enum Event {
    /// The driver answered: it settled, or it failed with a message.
    Driver(Result<(), String>),
    /// The transaction was found.
    Found(TxId),
    /// The deadline block was reached without a transaction.
    DeadlineReached,
}

impl Settlement {
    /// Whether the settlement has come to its end.
    pub open spec fn is_final(self) -> bool {
        !(self is Dispatched)
    }

    /// The state after `event`. While the settlement is dispatched, what
    /// the search for the transaction finds is final, and so is a failure
    /// of the driver that comes before it; a driver that answers that it
    /// settled leaves the last word to the search. A settlement that has
    /// ended does not change any more.
    pub open spec fn after(self, event: Event) -> Settlement {
        match self {
            Settlement::Dispatched { driver_done } => match event {
                Event::Found(tx) => Settlement::Mined(tx),
                Event::DeadlineReached => Settlement::DeadlineMissed,
                Event::Driver(Ok(_)) => Settlement::Dispatched { driver_done: true },
                Event::Driver(Err(message)) => if driver_done {
                    self
                } else {
                    Settlement::DriverError(message)
                },
            },
            _ => self,
        }
    }

    /// A settlement that has just been handed to the driver.
    pub fn start() -> (r: Settlement)
        ensures
            r == (Settlement::Dispatched { driver_done: false }),
    {
        Settlement::Dispatched { driver_done: false }
    }

    /// The state after `event`.
    pub fn step(self, event: Event) -> (r: Settlement)
        ensures
            r == self.after(event),
    {
        match self {
            Settlement::Dispatched { driver_done } => match event {
                Event::Found(tx) => Settlement::Mined(tx),
                Event::DeadlineReached => Settlement::DeadlineMissed,
                Event::Driver(Ok(_)) => Settlement::Dispatched { driver_done: true },
                Event::Driver(Err(message)) => if driver_done {
                    Settlement::Dispatched { driver_done }
                } else {
                    Settlement::DriverError(message)
                },
            },
            Settlement::Mined(tx) => Settlement::Mined(tx),
            Settlement::DriverError(message) => Settlement::DriverError(message),
            Settlement::DeadlineMissed => Settlement::DeadlineMissed,
        }
    }

    /// How the settlement ended, or `None` while it has not.
    pub fn result(self) -> (r: Option<Result<TxId, SettleError>>)
        ensures
            r is Some <==> self.is_final(),
            r == match self {
                Settlement::Dispatched { .. } => None::<Result<TxId, SettleError>>,
                Settlement::Mined(tx) => Some(Ok(tx)),
                Settlement::DriverError(message) => Some(Err(SettleError::Other(message))),
                Settlement::DeadlineMissed => Some(Err(SettleError::Timeout)),
            },
    {
        match self {
            Settlement::Dispatched { .. } => None,
            Settlement::Mined(tx) => Some(Ok(tx)),
            Settlement::DriverError(message) => Some(Err(SettleError::Other(message))),
            Settlement::DeadlineMissed => Some(Err(SettleError::Timeout)),
        }
    }
}

/// The outcome that is stored when a settlement has ended.
pub open spec fn outcome_of(result: Result<TxId, SettleError>) -> Seq<char> {
    match result {
        Ok(_) => "success"@,
        Err(SettleError::Timeout) => "timeout"@,
        Err(SettleError::Other(message)) => "driver failed: "@ + message@,
    }
}

/// The outcome that is stored when a settlement has ended: `success`,
/// `timeout`, or `driver failed: ` and the message.
pub fn outcome(result: &Result<TxId, SettleError>) -> (r: String)
    ensures
        r@ == outcome_of(*result),
{
    match result {
        Ok(_) => String::from_str("success"),
        Err(SettleError::Timeout) => String::from_str("timeout"),
        Err(SettleError::Other(message)) => String::from_str("driver failed: ").concat(
            message.as_str(),
        ),
    }
}

/// What is to be stored of a settlement that has ended at the given block.
pub fn end_execution(
    request: &Request,
    solver: Address,
    end_block: u64,
    result: &Result<TxId, SettleError>,
) -> (r: ExecutionEnded)
    ensures
        r.auction_id == request.auction_id,
        r.solver == solver,
        r.end_block == end_block,
        r.outcome@ == outcome_of(*result),
{
    ExecutionEnded { auction_id: request.auction_id, solver, end_block, outcome: outcome(result) }
}

impl SettleError {
    /// The label under which the failure is counted.
    pub fn label(&self) -> (r: &'static str)
        ensures
            r@ == match *self {
                SettleError::Other(_) => "error"@,
                SettleError::Timeout => "timeout"@,
            },
    {
        match self {
            SettleError::Other(_) => "error",
            SettleError::Timeout => "timeout",
        }
    }
}

} // verus!
