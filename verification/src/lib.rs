//! Personal-finance analytics over a ledger of signed transactions:
//! ingestion of a sheet, totals, inflow and outflow by month, and a ledger
//! of debts by counterparty.
//!
//! Amounts are whole centavos throughout, so that every sum is exact.

use vstd::prelude::*;

pub mod amount;
pub mod calendar;
pub mod counter;
pub mod dataframe;
pub mod debts;
pub mod ingest;
pub mod laws;
pub mod monthly;
pub mod record;
pub mod summary;
pub mod text;

pub use crate::calendar::{CalendarDate, CalendarMonth, DateParseError};
pub use crate::counter::Counter;
pub use crate::dataframe::RustDataframe;
pub use crate::debts::{DebtDirection, SearchDebtors};
pub use crate::ingest::{Column, IngestError, IngestReport};
pub use crate::monthly::{DatedAmount, GetInflowsVsOutflows};
pub use crate::record::Transaction;
pub use crate::summary::{GetTotalEarnedVsSpent, Ratio};

verus! {

/// The sum of two unsigned quantities.
pub fn add(left: u64, right: u64) -> (sum: u64)
    requires
        left + right <= u64::MAX,
    ensures
        sum == left + right,
{
    left + right
}

} // verus!
