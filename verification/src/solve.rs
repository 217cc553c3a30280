//! What a driver's answer to a solve request is worth: how failures are
//! told apart, which proposed solutions are valid, and which participants
//! come of them.

use crate::domain::{
    Driver, InvalidPrice, OrderUid, Participant, Price, Rank, Score, Solution, SolutionError,
    TradedOrder, ZeroScore,
};
use crate::eth::{Address, Ether, TokenAddress, H160, U256};
use vstd::prelude::*;

verus! {

/// Why a driver contributes nothing to a competition.
#[derive(Debug, PartialEq, Eq)]
pub enum SolveError {
    /// The driver did not answer within the deadline.
    Timeout,
    /// The driver answered without a solution.
    NoSolutions,
    /// The request failed on the way, with the given cause.
    Failure(String),
    /// The solver may not take part.
    SolverDenyListed,
}

impl SolveError {
    /// The label under which the failure is counted.
    pub fn label(&self) -> (r: &'static str)
        ensures
            r@ == match *self {
                SolveError::Timeout => "timeout"@,
                SolveError::NoSolutions => "no_solutions"@,
                SolveError::Failure(_) => "error"@,
                SolveError::SolverDenyListed => "deny_listed"@,
            },
    {
        match self {
            SolveError::Timeout => "timeout",
            SolveError::NoSolutions => "no_solutions",
            SolveError::Failure(_) => "error",
            SolveError::SolverDenyListed => "deny_listed",
        }
    }
}

impl SolutionError {
    /// The label under which the dropped solution is counted.
    pub fn label(&self) -> (r: &'static str)
        ensures
            r@ == match *self {
                SolutionError::ZeroScore(_) => "zero_score"@,
                SolutionError::InvalidPrice(_) => "invalid_price"@,
                SolutionError::SolverDenyListed => "solver_deny_listed"@,
            },
    {
        match self {
            SolutionError::ZeroScore(_) => "zero_score",
            SolutionError::InvalidPrice(_) => "invalid_price",
            SolutionError::SolverDenyListed => "solver_deny_listed",
        }
    }
}

/// Decides from the answer of the participation guard whether a driver is
/// sent the auction at all: only where the guard answers that the solver may
/// take part. A guard that fails counts as one that denies.
pub fn check_participation(guard: &Result<bool, String>) -> (r: Result<(), SolveError>)
    ensures
        r == match *guard {
            Ok(true) => Ok::<(), SolveError>(()),
            _ => Err(SolveError::SolverDenyListed),
        },
{
    match guard {
        Ok(true) => Ok(()),
        _ => Err(SolveError::SolverDenyListed),
    }
}

/// A solution as a driver sends it, before it is checked.
#[derive(Debug)]
pub struct Proposal {
    pub solution_id: u64,
    pub submission_address: H160,
    pub score: U256,
    pub orders: Vec<(OrderUid, TradedOrder)>,
    pub clearing_prices: Vec<(H160, U256)>,
}

/// The clearing prices of a proposal as prices of tokens.
pub open spec fn priced(prices: Seq<(H160, U256)>) -> Seq<(TokenAddress, Price)> {
    prices.map_values(|e: (H160, U256)| (TokenAddress(e.0), Price(Ether(e.1))))
}

/// Whether some clearing price is zero.
pub open spec fn has_zero_price(prices: Seq<(H160, U256)>) -> bool {
    exists|i: int| 0 <= i < prices.len() && (#[trigger] prices[i]).1@ == 0
}

impl Proposal {
    /// Whether `solution` is this proposal taken as it is.
    pub open spec fn is_taken_as(self, solution: Solution) -> bool {
        &&& solution.id == self.solution_id
        &&& solution.solver == Address(self.submission_address)
        &&& solution.score == Score(Ether(self.score))
        &&& solution.orders == self.orders
        &&& solution.prices@ == priced(self.clearing_prices@)
    }

    /// Whether `checked` is what checking this proposal gives: a score of
    /// zero is refused first, then a clearing price of zero; any other
    /// proposal is taken as it is.
    pub open spec fn is_checked_as(self, checked: Result<Solution, SolutionError>) -> bool {
        if self.score@ == 0 {
            checked == Err::<Solution, SolutionError>(SolutionError::ZeroScore(ZeroScore))
        } else if has_zero_price(self.clearing_prices@) {
            checked == Err::<Solution, SolutionError>(SolutionError::InvalidPrice(InvalidPrice))
        } else {
            checked is Ok && self.is_taken_as(checked->Ok_0) && checked->Ok_0.is_valid()
        }
    }

    /// Checks the proposal. A score of zero is refused first, then a
    /// clearing price of zero; any other proposal is taken as it is.
    pub fn into_domain(self) -> (r: Result<Solution, SolutionError>)
        ensures
            self.is_checked_as(r),
    {
        let score = match Score::new(Ether(self.score)) {
            Ok(score) => score,
            Err(zero) => {
                return Err(SolutionError::ZeroScore(zero));
            },
        };
        let ghost target = priced(self.clearing_prices@);
        let mut prices: Vec<(TokenAddress, Price)> = Vec::new();
        let mut i: usize = 0;
        while i < self.clearing_prices.len()
            invariant
                0 <= i <= self.clearing_prices.len(),
                self.score@ != 0,
                target == priced(self.clearing_prices@),
                prices@ == target.take(i as int),
                forall|j: int| 0 <= j < i ==> (#[trigger] self.clearing_prices@[j]).1@ != 0,
            decreases self.clearing_prices.len() - i,
        {
            match Price::new(Ether(self.clearing_prices[i].1)) {
                Ok(price) => {
                    prices.push((TokenAddress(self.clearing_prices[i].0), price));
                },
                Err(invalid) => {
                    assert(self.clearing_prices@[i as int].1@ == 0);
                    return Err(SolutionError::InvalidPrice(invalid));
                },
            }
            assert(prices@ =~= target.take(i + 1));
            i += 1;
        }
        assert(prices@ =~= target);
        Ok(
            Solution {
                id: self.solution_id,
                solver: Address(self.submission_address),
                score,
                orders: self.orders,
                prices,
            },
        )
    }
}

/// How a solve request ended.
#[derive(Debug)]
pub enum Response {
    /// The driver did not answer within the deadline.
    TimedOut,
    /// The request failed on the way, with the given cause.
    Failed(String),
    /// The driver answered with these proposals.
    Solutions(Vec<Proposal>),
}

/// Whether `checked` holds the outcome of checking each proposal, in order.
pub open spec fn is_checked(
    checked: Seq<Result<Solution, SolutionError>>,
    proposals: Seq<Proposal>,
) -> bool {
    &&& checked.len() == proposals.len()
    &&& forall|i: int|
        0 <= i < proposals.len() ==> (#[trigger] proposals[i]).is_checked_as(checked[i])
}

/// Tells the ways apart in which a solve request can end. A request that
/// timed out, one that failed and an answer without proposals are errors of
/// their own kinds; any other answer has each of its proposals checked.
pub fn try_solve(response: Response) -> (r: Result<
    Vec<Result<Solution, SolutionError>>,
    SolveError,
>)
    ensures
        match response {
            Response::TimedOut => r == Err::<Vec<Result<Solution, SolutionError>>, SolveError>(
                SolveError::Timeout,
            ),
            Response::Failed(cause) => r == Err::<Vec<Result<Solution, SolutionError>>, SolveError>(
                SolveError::Failure(cause),
            ),
            Response::Solutions(proposals) => if proposals@.len() == 0 {
                r == Err::<Vec<Result<Solution, SolutionError>>, SolveError>(
                    SolveError::NoSolutions,
                )
            } else {
                r is Ok && is_checked(r->Ok_0@, proposals@)
            },
        },
{
    match response {
        Response::TimedOut => Err(SolveError::Timeout),
        Response::Failed(cause) => Err(SolveError::Failure(cause)),
        Response::Solutions(proposals) => {
            if proposals.len() == 0 {
                return Err(SolveError::NoSolutions);
            }
            let ghost orig = proposals@;
            let n = proposals.len();
            let mut stack = crate::seqs::reversed(proposals);
            let mut checked: Vec<Result<Solution, SolutionError>> = Vec::new();
            let mut i: usize = 0;
            while i < n
                invariant
                    n == orig.len(),
                    0 <= i <= n,
                    stack@.len() == n - i,
                    forall|j: int| 0 <= j < stack@.len() ==> stack@[j] == orig[n - 1 - j],
                    is_checked(checked@, orig.take(i as int)),
                decreases n - i,
            {
                let proposal = stack.pop().unwrap();
                let ghost before = checked@;
                checked.push(proposal.into_domain());
                proof {
                    assert forall|j: int| 0 <= j < i implies orig.take(i + 1)[j] == orig.take(
                        i as int,
                    )[j] by {}
                    assert forall|j: int| 0 <= j < i implies checked@[j] == before[j] by {}
                    assert(orig.take(i + 1)[i as int] == proposal);
                }
                i += 1;
            }
            assert(orig.take(n as int) =~= orig);
            Ok(checked)
        },
    }
}

/// The participants that come of checked solutions: one for each solution
/// that passed, in their order, all of the given driver and none ranked.
pub open spec fn participants_of(
    checked: Seq<Result<Solution, SolutionError>>,
    driver: Driver,
) -> Seq<Participant>
    decreases checked.len(),
{
    if checked.len() == 0 {
        Seq::empty()
    } else {
        let before = participants_of(checked.drop_last(), driver);
        match checked.last() {
            Ok(solution) => before.push(Participant { solution, driver, rank: Rank::Unranked }),
            Err(_) => before,
        }
    }
}

/// Makes participants of what one driver answered. A driver whose request
/// failed contributes none, and neither does a solution that was refused.
pub fn solve(
    result: Result<Vec<Result<Solution, SolutionError>>, SolveError>,
    driver: &Driver,
) -> (r: Vec<Participant>)
    ensures
        r@ == match result {
            Ok(checked) => participants_of(checked@, *driver),
            Err(_) => Seq::<Participant>::empty(),
        },
{
    let checked = match result {
        Ok(checked) => checked,
        Err(_) => {
            return Vec::new();
        },
    };
    let ghost orig = checked@;
    let n = checked.len();
    let mut stack = crate::seqs::reversed(checked);
    let mut r: Vec<Participant> = Vec::new();
    let mut i: usize = 0;
    while i < n
        invariant
            n == orig.len(),
            0 <= i <= n,
            stack@.len() == n - i,
            forall|j: int| 0 <= j < stack@.len() ==> stack@[j] == orig[n - 1 - j],
            r@ == participants_of(orig.take(i as int), *driver),
        decreases n - i,
    {
        let one = stack.pop().unwrap();
        assert(orig.take(i + 1).drop_last() =~= orig.take(i as int));
        assert(orig.take(i + 1).last() == one);
        match one {
            Ok(solution) => {
                r.push(Participant::new(solution, driver.clone()));
            },
            Err(_) => {},
        }
        i += 1;
    }
    assert(orig.take(n as int) =~= orig);
    r
}

} // verus!
