//! What storage is handed of a competition, and the rows it is stored as.

use crate::eth::{H160, U256};
use crate::solver_competition::SolverCompetitionDB;
use vstd::prelude::*;

verus! {

/// The record of one competition.
#[derive(Debug)]
pub struct Competition {
    pub auction_id: i64,
    /// The solver of the best winning solution.
    pub winner: H160,
    pub winning_score: U256,
    /// The score of the runner-up: the second solution of the ranking, or
    /// zero where there is none. A single reference score is kept also where
    /// several solutions win.
    pub reference_score: U256,
    /// The addresses to which participation rewards are paid, each once.
    /// Usually the same as the solver addresses.
    pub participants: Vec<H160>,
    /// The external prices of the auction.
    pub prices: Vec<(H160, U256)>,
    /// The winner receives performance rewards if a settlement is finalized
    /// on chain before this block height.
    pub block_deadline: u64,
    pub competition_simulation_block: u64,
    pub competition_table: SolverCompetitionDB,
}

/// Why a competition cannot be written as rows: a block number does not fit
/// the signed 64-bit column it goes to.
#[derive(Clone, Copy, Debug, PartialEq, Eq, Structural)]
pub enum RowError {
    BlockDeadline,
    SimulationBlock,
}

/// The row of the settlement scores, kept for readers that have not moved to
/// the reference scores yet.
#[derive(Clone, Copy, Debug)]
pub struct SettlementScoreRow {
    pub auction_id: i64,
    pub winner: [u8; 20],
    pub winning_score: U256,
    pub reference_score: U256,
    pub block_deadline: i64,
    pub simulation_block: i64,
}

/// A row of the reference scores.
#[derive(Clone, Copy, Debug)]
pub struct ReferenceScoreRow {
    pub auction_id: i64,
    pub solver: [u8; 20],
    pub reference_score: U256,
}

/// A row of the auction's participants.
#[derive(Clone, Copy, Debug)]
pub struct ParticipantRow {
    pub auction_id: i64,
    pub participant: [u8; 20],
}

/// A row of the auction's prices.
#[derive(Clone, Copy, Debug)]
pub struct PriceRow {
    pub auction_id: i64,
    pub token: [u8; 20],
    pub price: U256,
}

/// All rows of one competition but the table itself. They are written in
/// one transaction: all of them or none.
#[derive(Debug)]
pub struct CompetitionRows {
    pub settlement_score: SettlementScoreRow,
    pub reference_scores: Vec<ReferenceScoreRow>,
    pub participants: Vec<ParticipantRow>,
    pub prices: Vec<PriceRow>,
    pub orders: Vec<[u8; 56]>,
}

/// A block number as a signed 64-bit column holds it.
pub fn block_column(block: u64) -> (r: Option<i64>)
    ensures
        block <= i64::MAX ==> r == Some(block as i64),
        block > i64::MAX ==> r is None,
{
    if block <= 0x7fff_ffff_ffff_ffff {
        Some(block as i64)
    } else {
        None
    }
}

impl Competition {
    /// Whether `rows` are the rows of this competition: one settlement
    /// score, one reference score for the winner, one row for each
    /// participant, each price and each order of the auction, all under the
    /// auction's id and in the order of the record.
    pub open spec fn has_rows(self, rows: CompetitionRows) -> bool {
        &&& rows.settlement_score.auction_id == self.auction_id
        &&& rows.settlement_score.winner == self.winner.0
        &&& rows.settlement_score.winning_score == self.winning_score
        &&& rows.settlement_score.reference_score == self.reference_score
        &&& rows.settlement_score.block_deadline == self.block_deadline
        &&& rows.settlement_score.simulation_block == self.competition_simulation_block
        &&& rows.reference_scores@ == seq![
            ReferenceScoreRow {
                auction_id: self.auction_id,
                solver: self.winner.0,
                reference_score: self.reference_score,
            },
        ]
        &&& rows.participants@ == self.participants@.map_values(
            |p: H160| ParticipantRow { auction_id: self.auction_id, participant: p.0 },
        )
        &&& rows.prices@ == self.prices@.map_values(
            |e: (H160, U256)| PriceRow { auction_id: self.auction_id, token: e.0.0, price: e.1 },
        )
        &&& rows.orders@ == self.competition_table.auction.orders@.map_values(
            |uid: crate::domain::OrderUid| uid.0,
        )
    }

    /// The rows that store this competition.
    pub fn rows(&self) -> (r: Result<CompetitionRows, RowError>)
        ensures
            self.block_deadline > i64::MAX ==> r == Err::<CompetitionRows, RowError>(
                RowError::BlockDeadline,
            ),
            self.block_deadline <= i64::MAX && self.competition_simulation_block > i64::MAX ==> r
                == Err::<CompetitionRows, RowError>(RowError::SimulationBlock),
            self.block_deadline <= i64::MAX && self.competition_simulation_block <= i64::MAX
                ==> r is Ok && self.has_rows(r->Ok_0),
    {
        let Some(block_deadline) = block_column(self.block_deadline) else {
            return Err(RowError::BlockDeadline);
        };
        let Some(simulation_block) = block_column(self.competition_simulation_block) else {
            return Err(RowError::SimulationBlock);
        };
        let settlement_score = SettlementScoreRow {
            auction_id: self.auction_id,
            winner: self.winner.0,
            winning_score: self.winning_score,
            reference_score: self.reference_score,
            block_deadline,
            simulation_block,
        };
        let mut reference_scores: Vec<ReferenceScoreRow> = Vec::new();
        reference_scores.push(
            ReferenceScoreRow {
                auction_id: self.auction_id,
                solver: self.winner.0,
                reference_score: self.reference_score,
            },
        );
        let ghost participant_rows = self.participants@.map_values(
            |p: H160| ParticipantRow { auction_id: self.auction_id, participant: p.0 },
        );
        let mut participants: Vec<ParticipantRow> = Vec::new();
        let mut i: usize = 0;
        while i < self.participants.len()
            invariant
                0 <= i <= self.participants.len(),
                participant_rows.len() == self.participants.len(),
                forall|j: int|
                    0 <= j < participant_rows.len() ==> participant_rows[j] == (ParticipantRow {
                        auction_id: self.auction_id,
                        participant: self.participants@[j].0,
                    }),
                participants@ == participant_rows.take(i as int),
            decreases self.participants.len() - i,
        {
            participants.push(
                ParticipantRow { auction_id: self.auction_id, participant: self.participants[i].0 },
            );
            assert(participants@ =~= participant_rows.take(i + 1));
            i += 1;
        }
        assert(participants@ =~= participant_rows);
        let ghost price_rows = self.prices@.map_values(
            |e: (H160, U256)| PriceRow { auction_id: self.auction_id, token: e.0.0, price: e.1 },
        );
        let mut prices: Vec<PriceRow> = Vec::new();
        let mut i: usize = 0;
        while i < self.prices.len()
            invariant
                0 <= i <= self.prices.len(),
                price_rows.len() == self.prices.len(),
                forall|j: int|
                    0 <= j < price_rows.len() ==> price_rows[j] == (PriceRow {
                        auction_id: self.auction_id,
                        token: self.prices@[j].0.0,
                        price: self.prices@[j].1,
                    }),
                prices@ == price_rows.take(i as int),
            decreases self.prices.len() - i,
        {
            prices.push(
                PriceRow {
                    auction_id: self.auction_id,
                    token: self.prices[i].0.0,
                    price: self.prices[i].1,
                },
            );
            assert(prices@ =~= price_rows.take(i + 1));
            i += 1;
        }
        assert(prices@ =~= price_rows);
        let ghost order_rows = self.competition_table.auction.orders@.map_values(
            |uid: crate::domain::OrderUid| uid.0,
        );
        let mut orders: Vec<[u8; 56]> = Vec::new();
        let mut i: usize = 0;
        while i < self.competition_table.auction.orders.len()
            invariant
                0 <= i <= self.competition_table.auction.orders.len(),
                order_rows.len() == self.competition_table.auction.orders.len(),
                forall|j: int|
                    0 <= j < order_rows.len() ==> order_rows[j]
                        == self.competition_table.auction.orders@[j].0,
                orders@ == order_rows.take(i as int),
            decreases self.competition_table.auction.orders.len() - i,
        {
            orders.push(self.competition_table.auction.orders[i].0);
            assert(orders@ =~= order_rows.take(i + 1));
            i += 1;
        }
        assert(orders@ =~= order_rows);
        assert(reference_scores@ =~= seq![
            ReferenceScoreRow {
                auction_id: self.auction_id,
                solver: self.winner.0,
                reference_score: self.reference_score,
            },
        ]);
        Ok(CompetitionRows { settlement_score, reference_scores, participants, prices, orders })
    }
}

} // verus!
