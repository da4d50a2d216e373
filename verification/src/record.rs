//! The transaction record and its mathematical model.

use vstd::prelude::*;

verus! {

/// One ledger entry, as ingested. The amount is in centavos: positive for
/// an inflow, zero or negative for an outflow.
#[derive(Clone, Debug, PartialEq, Eq)]
pub struct Transaction {
    pub date: String,
    pub transaction: String,
    pub amount: i64,
    pub tags: Option<String>,
    pub id: Option<String>,
    pub remarks: Option<String>,
}

/// The model of a transaction: texts as character sequences, the amount as
/// an integer.
pub struct Record {
    pub date: Seq<char>,
    pub transaction: Seq<char>,
    pub amount: int,
    pub tags: Option<Seq<char>>,
    pub id: Option<Seq<char>>,
    pub remarks: Option<Seq<char>>,
}

impl View for Transaction {
    type V = Record;

    open spec fn view(&self) -> Record {
        Record {
            date: self.date@,
            transaction: self.transaction@,
            amount: self.amount as int,
            tags: self.tags.deep_view(),
            id: self.id.deep_view(),
            remarks: self.remarks.deep_view(),
        }
    }
}

impl DeepView for Transaction {
    type V = Record;

    open spec fn deep_view(&self) -> Record {
        self@
    }
}

} // verus!
