//! The debt ledger: a running balance for each counterparty, from the
//! records that are tagged as debts.
//!
//! A record is a debt record if its tags hold the word "Debt". It stands
//! for a debt owed to the owner of the ledger if its tags hold ":In", else
//! for one owed by them. A counterparty keeps the direction of its first
//! record. Counterparties are listed in the order in which they first
//! occur.

use vstd::prelude::*;
use crate::amount::{amount_text, push_amount};
use crate::record::{Record, Transaction};
use crate::text::{
    chars_of,
    contains_chars,
    first_position,
    has_substring,
    lemma_first_position,
    string_of,
};

verus! {

/// Which way a debt runs.
#[derive(Clone, Copy, Debug, PartialEq, Eq, Structural)]
pub enum DebtDirection {
    /// Owed to the owner of the ledger.
    In,
    /// Owed by the owner of the ledger.
    Out,
}

/// The model of a ledger entry.
pub struct DebtEntry {
    pub id: Seq<char>,
    pub balance: int,
    pub direction: DebtDirection,
    pub paid: bool,
    pub related_rows: Seq<Seq<char>>,
}

/// The debt of one counterparty.
#[derive(Debug)]
pub struct SearchDebtors {
    id: String,
    balance: i128,
    direction: DebtDirection,
    paid: bool,
    related_rows: Option<Vec<String>>,
}

/// The word that marks a debt record.
pub open spec fn debt_mark() -> Seq<char> {
    seq!['D', 'e', 'b', 't']
}

/// The suffix that marks a debt owed to the owner of the ledger.
pub open spec fn inward_mark() -> Seq<char> {
    seq![':', 'I', 'n']
}

/// The tags mark a debt record.
pub open spec fn is_debt_tagged(tags: Option<Seq<char>>) -> bool {
    tags matches Some(t) && has_substring(t, debt_mark())
}

/// The direction that the tags give: inward if they hold ":In", else
/// outward.
pub open spec fn direction_of(tags: Option<Seq<char>>) -> DebtDirection {
    if tags matches Some(t) && has_substring(t, inward_mark()) {
        DebtDirection::In
    } else {
        DebtDirection::Out
    }
}

/// Whether a debt is settled: an inward debt once its balance is zero or
/// less, an outward debt once it is zero or more.
pub open spec fn settled(direction: DebtDirection, balance: int) -> bool {
    match direction {
        DebtDirection::In => balance <= 0,
        DebtDirection::Out => balance >= 0,
    }
}

/// The line that a record adds to the related rows of its counterparty:
/// its date, a colon, its amount in pesos, and the currency code.
pub open spec fn row_text(date: Seq<char>, amount: int) -> Seq<char> {
    date + seq![':', ' '] + amount_text(amount) + seq![' ', 'P', 'H', 'P']
}

/// Whether a record enters the ledger: it is a debt record, it names a
/// counterparty, and the folded name holds the folded search text.
pub open spec fn selected(r: Record, folded_id: Option<Seq<char>>, needle: Seq<char>) -> bool {
    &&& is_debt_tagged(r.tags)
    &&& r.id is Some
    &&& folded_id matches Some(f) && has_substring(f, needle)
}

/// The folded name of the record at position `i`; none where the list of
/// folded names ends before it.
pub open spec fn folded_at(folded_ids: Seq<Option<Seq<char>>>, i: int) -> Option<Seq<char>> {
    if 0 <= i < folded_ids.len() {
        folded_ids[i]
    } else {
        None
    }
}

/// The counterparties of a ledger, in its order.
pub open spec fn ledger_ids(ledger: Seq<DebtEntry>) -> Seq<Seq<char>> {
    ledger.map_values(|d: DebtEntry| d.id)
}

/// The ledger after one more record of counterparty `id`: added to the
/// entry of that counterparty if there is one, else a new entry at the end.
pub open spec fn posted(ledger: Seq<DebtEntry>, r: Record) -> Seq<DebtEntry> {
    let id = r.id->0;
    let at = first_position(ledger_ids(ledger), id);
    if at < ledger.len() {
        let was = ledger[at];
        ledger.update(
            at,
            DebtEntry {
                id: was.id,
                balance: was.balance + r.amount,
                direction: was.direction,
                paid: settled(was.direction, was.balance + r.amount),
                related_rows: was.related_rows.push(row_text(r.date, r.amount)),
            },
        )
    } else {
        ledger.push(
            DebtEntry {
                id,
                balance: r.amount,
                direction: direction_of(r.tags),
                paid: settled(direction_of(r.tags), r.amount),
                related_rows: seq![row_text(r.date, r.amount)],
            },
        )
    }
}

/// The ledger of the first `n` records. `folded_ids` holds, position by
/// position, the counterparty of each record folded to lower case; `needle`
/// is the search text folded to lower case.
pub open spec fn debts_upto(
    records: Seq<Record>,
    folded_ids: Seq<Option<Seq<char>>>,
    needle: Seq<char>,
    n: nat,
) -> Seq<DebtEntry>
    decreases n,
{
    if n == 0 {
        Seq::empty()
    } else {
        let before = debts_upto(records, folded_ids, needle, (n - 1) as nat);
        if selected(records[n - 1], folded_at(folded_ids, n - 1), needle) {
            posted(before, records[n - 1])
        } else {
            before
        }
    }
}

/// The ledger of all the records.
pub open spec fn debts_of(
    records: Seq<Record>,
    folded_ids: Seq<Option<Seq<char>>>,
    needle: Seq<char>,
) -> Seq<DebtEntry> {
    debts_upto(records, folded_ids, needle, records.len())
}

impl View for SearchDebtors {
    type V = DebtEntry;

    closed spec fn view(&self) -> DebtEntry {
        DebtEntry {
            id: self.id@,
            balance: self.balance as int,
            direction: self.direction,
            paid: self.paid,
            related_rows: match self.related_rows {
                Some(rows) => rows.deep_view(),
                None => Seq::empty(),
            },
        }
    }
}

impl DeepView for SearchDebtors {
    type V = DebtEntry;

    open spec fn deep_view(&self) -> DebtEntry {
        self@
    }
}

impl SearchDebtors {
    /// The counterparty.
    pub fn id(&self) -> (id: String)
        ensures
            id@ == self@.id,
    {
        self.id.clone()
    }

    /// The running balance in centavos.
    pub fn balance(&self) -> (balance: i128)
        ensures
            balance == self@.balance,
    {
        self.balance
    }

    /// Whether the debt is settled.
    pub fn paid(&self) -> (paid: bool)
        ensures
            paid == self@.paid,
    {
        self.paid
    }

    /// Which way the debt runs.
    pub fn direction(&self) -> (direction: DebtDirection)
        ensures
            direction == self@.direction,
    {
        self.direction
    }

    /// The lines of the records of this counterparty, in their order.
    pub fn related_rows(&self) -> (rows: Option<Vec<String>>)
        ensures
            rows is Some <==> self.has_rows(),
            rows matches Some(lines) ==> lines.deep_view() == self@.related_rows,
    {
        match &self.related_rows {
            Some(lines) => {
                let mut copy: Vec<String> = Vec::new();
                let mut i: usize = 0;
                while i < lines.len()
                    invariant
                        i <= lines.len(),
                        copy.len() == i,
                        forall|k: int| 0 <= k < i ==> (#[trigger] copy@[k])@ == lines@[k]@,
                    decreases lines.len() - i,
                {
                    copy.push(lines[i].clone());
                    i = i + 1;
                }
                assert(copy.deep_view() =~= lines.deep_view());
                Some(copy)
            },
            None => None,
        }
    }

    /// Whether the entry holds its related rows. Every entry of a ledger
    /// does.
    pub closed spec fn has_rows(&self) -> bool {
        self.related_rows is Some
    }
}

/// The line that a record adds to the related rows of its counterparty.
pub fn row_label(date: &str, amount: i64) -> (line: String)
    ensures
        line@ == row_text(date@, amount as int),
{
    let mut out = chars_of(date);
    out.push(':');
    out.push(' ');
    push_amount(&mut out, amount);
    out.push(' ');
    out.push('P');
    out.push('H');
    out.push('P');
    assert(out@ =~= row_text(date@, amount as int));
    string_of(&out)
}

/// Whether the tags mark a debt record.
pub fn tags_mark_debt(tags: &Option<String>) -> (b: bool)
    ensures
        b == is_debt_tagged(tags.deep_view()),
{
    match tags {
        Some(t) => {
            let mark = vec!['D', 'e', 'b', 't'];
            assert(mark@ =~= debt_mark());
            contains_chars(&chars_of(t.as_str()), &mark)
        },
        None => false,
    }
}

/// The direction that the tags give.
pub fn tags_direction(tags: &Option<String>) -> (direction: DebtDirection)
    ensures
        direction == direction_of(tags.deep_view()),
{
    match tags {
        Some(t) => {
            let mark = vec![':', 'I', 'n'];
            assert(mark@ =~= inward_mark());
            if contains_chars(&chars_of(t.as_str()), &mark) {
                DebtDirection::In
            } else {
                DebtDirection::Out
            }
        },
        None => DebtDirection::Out,
    }
}

/// Whether a debt is settled.
pub fn is_settled(direction: DebtDirection, balance: i128) -> (b: bool)
    ensures
        b == settled(direction, balance as int),
{
    match direction {
        DebtDirection::In => balance <= 0,
        DebtDirection::Out => balance >= 0,
    }
}

/// Where the counterparty stands in the ledger, or the length of the
/// ledger if it has no entry.
fn find_debtor(ledger: &Vec<SearchDebtors>, id: &String) -> (at: usize)
    ensures
        at == first_position(ledger_ids(ledger.deep_view()), id@),
        at <= ledger.len(),
{
    let ghost ids = ledger_ids(ledger.deep_view());
    let mut k: usize = 0;
    while k < ledger.len()
        invariant
            k <= ledger.len(),
            ids == ledger_ids(ledger.deep_view()),
            forall|j: int| 0 <= j < k ==> ids[j] != id@,
        decreases ledger.len() - k,
    {
        assert(ids[k as int] == ledger@[k as int].id@);
        if ledger[k].id == *id {
            proof {
                lemma_first_position(ids, id@);
                if first_position(ids, id@) > k {
                    assert(ids[k as int] != id@);
                }
            }
            return k;
        }
        k = k + 1;
    }
    proof {
        lemma_first_position(ids, id@);
        if first_position(ids, id@) < ids.len() {
            assert(ids[first_position(ids, id@)] == id@);
        }
    }
    k
}

/// Enters one record of a counterparty into the ledger.
fn post_record(ledger: &mut Vec<SearchDebtors>, record: &Transaction, Ghost(bound): Ghost<int>)
    requires
        record.id is Some,
        0 <= bound <= 0x7FFF_FFFF_FFFF_FFFF_FFFF_FFFF_FFFF_FFFF - 0x8000_0000_0000_0000,
        forall|k: int|
            0 <= k < old(ledger).len() ==> -bound <= (#[trigger] old(ledger)@[k]).balance <= bound
                && old(ledger)@[k].has_rows(),
    ensures
        final(ledger).deep_view() == posted(old(ledger).deep_view(), record@),
        forall|k: int|
            0 <= k < final(ledger).len() ==> {
                &&& -(bound + 0x8000_0000_0000_0000) <= (#[trigger] final(ledger)@[k]).balance
                &&& final(ledger)@[k].balance <= bound + 0x8000_0000_0000_0000
                &&& final(ledger)@[k].has_rows()
            },
{
    let ghost was = ledger.deep_view();
    let line = row_label(record.date.as_str(), record.amount);
    let id: &String = match &record.id {
        Some(id) => id,
        None => {
            return ;
        },
    };
    let at = find_debtor(ledger, id);
    if at < ledger.len() {
        let entry = &mut ledger[at];
        entry.balance = entry.balance + record.amount as i128;
        entry.paid = is_settled(entry.direction, entry.balance);
        match &mut entry.related_rows {
            Some(rows) => {
                rows.push(line);
            },
            None => {},
        }
        proof {
            let now = ledger.deep_view();
            let want = posted(was, record@);
            assert(now.len() == want.len());
            assert forall|k: int| 0 <= k < now.len() implies now[k] == want[k] by {
                if k == at {
                    assert(now[k].related_rows =~= was[k].related_rows.push(
                        row_text(record@.date, record@.amount),
                    ));
                }
            }
            assert(now =~= want);
        }
    } else {
        let direction = tags_direction(&record.tags);
        let mut rows: Vec<String> = Vec::new();
        rows.push(line);
        let entry = SearchDebtors {
            id: id.clone(),
            balance: record.amount as i128,
            direction,
            paid: is_settled(direction, record.amount as i128),
            related_rows: Some(rows),
        };
        proof {
            assert(entry@.related_rows =~= seq![row_text(record@.date, record@.amount)]);
        }
        ledger.push(entry);
        assert(ledger.deep_view() =~= posted(was, record@));
    }
}

/// The debt ledger of the records.
///
/// `folded_ids` holds, position by position, the counterparty of each
/// record folded to lower case, and `folded_search` the search text folded
/// to lower case. A record enters the ledger if its tags hold "Debt", it
/// names a counterparty, and the folded name holds the folded search text;
/// the empty search text is held by every name. A record past the end of
/// `folded_ids` has no folded name and does not enter. Each counterparty
/// has one entry, in the order of first occurrence, with the sum of its
/// amounts as balance, the direction of its first record, and one related
/// row for each of its records.
pub fn debt_ledger(
    records: &Vec<Transaction>,
    folded_ids: &Vec<Option<String>>,
    folded_search: &str,
) -> (ledger: Vec<SearchDebtors>)
    ensures
        ledger.deep_view() == debts_of(
            records.deep_view(),
            folded_ids.deep_view(),
            folded_search@,
        ),
        forall|k: int| 0 <= k < ledger.len() ==> (#[trigger] ledger@[k]).has_rows(),
{
    let needle = chars_of(folded_search);
    let ghost all = records.deep_view();
    let ghost folded = folded_ids.deep_view();
    let mut ledger: Vec<SearchDebtors> = Vec::new();
    let mut i: usize = 0;
    assert(ledger.deep_view() =~= debts_upto(all, folded, needle@, 0));
    while i < records.len()
        invariant
            i <= records.len(),
            all == records.deep_view(),
            folded == folded_ids.deep_view(),
            needle@ == folded_search@,
            ledger.deep_view() == debts_upto(all, folded, needle@, i as nat),
            forall|k: int|
                0 <= k < ledger.len() ==> -(i * 0x8000_0000_0000_0000) <= (
                #[trigger] ledger@[k]).balance <= i * 0x8000_0000_0000_0000
                    && ledger@[k].has_rows(),
        decreases records.len() - i,
    {
        let record = &records[i];
        proof {
            assert(all[i as int] == records@[i as int]@);
            if i < folded_ids.len() {
                assert(folded[i as int] == folded_ids@[i as int].deep_view());
            }
        }
        let named: bool = if i < folded_ids.len() {
            match (&record.id, &folded_ids[i]) {
                (Some(_), Some(f)) => contains_chars(&chars_of(f.as_str()), &needle),
                _ => false,
            }
        } else {
            false
        };
        if named && tags_mark_debt(&record.tags) {
            post_record(&mut ledger, record, Ghost(i * 0x8000_0000_0000_0000));
        }
        i = i + 1;
    }
    ledger
}

} // verus!
