//! The mathematical model of the ledger: its entries, its budgets and the
//! next id, with the sums and the report that are computed from them.

use vstd::prelude::*;
use crate::amount::magnitude;
use crate::decimal::{decimal_digits, digit_char};
use crate::storage::{max_id, parse_text, storage_text};
use crate::storage_proofs::{all_storable, lemma_round_trip};
use crate::transaction::{valid_record, valid_records, TransactionType, TransactionView};

verus! {

/// A spending limit for one category, in cents.
pub struct BudgetView {
    pub category: Seq<char>,
    pub limit: nat,
}

/// How the spending in a category stands to its limit.
#[derive(Debug, Clone, Copy, PartialEq, Eq, Structural)]
pub enum BudgetStatus {
    /// At most four fifths of the limit are spent.
    WithinBudget,
    /// More than four fifths of the limit are spent, and not more than the
    /// limit.
    NearLimit,
    /// More than the limit is spent.
    OverBudget,
}

/// One row of the report on spending by category.
pub struct BreakdownRowView {
    pub category: Seq<char>,
    pub spent: int,
    pub budget: nat,
    pub percentage: int,
    pub status: BudgetStatus,
}

/// The mathematical value of a ledger.
pub struct LedgerView {
    /// The entries, in the order in which they were added or read.
    pub records: Seq<TransactionView>,
    /// The budgets, in the order in which they are reported.
    pub budgets: Seq<BudgetView>,
    /// The id that the next added entry gets.
    pub next_id: nat,
}

/// The budgets that a new ledger starts with, in cents: Food 500.00,
/// Transportation 200.00, Entertainment 150.00, Utilities 300.00 and Other
/// 100.00.
pub open spec fn default_budgets() -> Seq<BudgetView> {
    seq![
        BudgetView { category: "Food"@, limit: 50000 },
        BudgetView { category: "Transportation"@, limit: 20000 },
        BudgetView { category: "Entertainment"@, limit: 15000 },
        BudgetView { category: "Utilities"@, limit: 30000 },
        BudgetView { category: "Other"@, limit: 10000 },
    ]
}

/// The sum of the amounts of the entries of the given kind.
pub open spec fn total_of(records: Seq<TransactionView>, kind: TransactionType) -> int
    decreases records.len(),
{
    if records.len() == 0 {
        0
    } else {
        total_of(records.drop_last(), kind) + if records.last().transaction_type == kind {
            records.last().amount
        } else {
            0
        }
    }
}

/// The sum of the amounts of the expenses whose category is exactly
/// `category`.
pub open spec fn spent_in(records: Seq<TransactionView>, category: Seq<char>) -> int
    decreases records.len(),
{
    if records.len() == 0 {
        0
    } else {
        spent_in(records.drop_last(), category) + if records.last().transaction_type
            == TransactionType::Expense && records.last().category == category {
            records.last().amount
        } else {
            0
        }
    }
}

/// What is spent as a share of the budget, in hundredths of a percent and
/// rounded towards zero; zero where the budget is zero.
pub open spec fn percentage_of(spent: int, budget: nat) -> int {
    if budget == 0 {
        0
    } else if spent >= 0 {
        (spent * 10000) / (budget as int)
    } else {
        -((-spent * 10000) / (budget as int))
    }
}

/// How a share in hundredths of a percent is written in percent: a minus
/// sign where it is negative, the whole percent, a decimal point and one
/// decimal place; the hundredths are left out.
pub open spec fn percentage_text(p: int) -> Seq<char> {
    let m = magnitude(p);
    let sign = if p < 0 {
        seq!['-']
    } else {
        Seq::<char>::empty()
    };
    sign + decimal_digits(m / 100) + seq!['.', digit_char(m % 100 / 10)]
}

/// `x`, or the bound of `i128` that is nearest to it.
pub open spec fn clamp_i128(x: int) -> int {
    if x < i128::MIN {
        i128::MIN as int
    } else if x > i128::MAX {
        i128::MAX as int
    } else {
        x
    }
}

/// The status of a category: over budget where more than the budget is
/// spent; else near the limit where more than 80 percent of a budget above
/// zero are spent; else in order.
pub open spec fn status_of(spent: int, budget: nat) -> BudgetStatus {
    if spent > budget {
        BudgetStatus::OverBudget
    } else if budget > 0 && spent * 100 > 80 * budget {
        BudgetStatus::NearLimit
    } else {
        BudgetStatus::WithinBudget
    }
}

/// The row that reports on one budget.
pub open spec fn breakdown_row(records: Seq<TransactionView>, budget: BudgetView)
    -> BreakdownRowView {
    let spent = spent_in(records, budget.category);
    BreakdownRowView {
        category: budget.category,
        spent,
        budget: budget.limit,
        percentage: clamp_i128(percentage_of(spent, budget.limit)),
        status: status_of(spent, budget.limit),
    }
}

impl LedgerView {
    /// The ledger that holds no entry yet.
    pub open spec fn initial() -> LedgerView {
        LedgerView { records: Seq::empty(), budgets: default_budgets(), next_id: 1 }
    }

    /// What holds of every ledger: the entries are valid, the next id is at
    /// least 1 and above the id of every entry, and no category has two
    /// budgets.
    pub open spec fn well_formed(self) -> bool {
        &&& valid_records(self.records)
        &&& 1 <= self.next_id <= u32::MAX + 1
        &&& forall|i: int| 0 <= i < self.records.len() ==> (#[trigger] self.records[i]).id
            < self.next_id
        &&& forall|i: int, j: int|
            0 <= i < j < self.budgets.len() ==> (#[trigger] self.budgets[i]).category != (
            #[trigger] self.budgets[j]).category
        &&& forall|i: int|
            0 <= i < self.budgets.len() ==> (#[trigger] self.budgets[i]).limit <= u64::MAX
    }

    /// The ledger after one more entry is added: the entry gets the next id
    /// and stands last, and the next id grows by one.
    pub open spec fn added(
        self,
        description: Seq<char>,
        amount: int,
        category: Seq<char>,
        transaction_type: TransactionType,
    ) -> LedgerView {
        LedgerView {
            records: self.records.push(
                TransactionView {
                    id: self.next_id,
                    description,
                    amount,
                    category,
                    transaction_type,
                },
            ),
            budgets: self.budgets,
            next_id: self.next_id + 1,
        }
    }

    /// The ledger after a stored text is read: its entries are those of the
    /// text, its budgets stay, and the next id is one above the highest id
    /// read, or 1 where the text holds no entry.
    pub open spec fn loaded(self, text: Seq<char>) -> LedgerView {
        LedgerView {
            records: parse_text(text),
            budgets: self.budgets,
            next_id: max_id(parse_text(text)) + 1,
        }
    }

    /// The sum of all income.
    pub open spec fn total_income(self) -> int {
        total_of(self.records, TransactionType::Income)
    }

    /// The sum of all expenses.
    pub open spec fn total_expenses(self) -> int {
        total_of(self.records, TransactionType::Expense)
    }

    /// Income less expenses.
    pub open spec fn balance(self) -> int {
        self.total_income() - self.total_expenses()
    }

    /// The report on spending by category: one row per budget, in the order
    /// of the budgets.
    pub open spec fn breakdown(self) -> Seq<BreakdownRowView> {
        Seq::new(self.budgets.len(), |i: int| breakdown_row(self.records, self.budgets[i]))
    }
}

/// No id is above the highest id.
pub proof fn lemma_max_id_bounds(records: Seq<TransactionView>)
    ensures
        forall|i: int| 0 <= i < records.len() ==> (#[trigger] records[i]).id <= max_id(records),
        valid_records(records) ==> max_id(records) <= u32::MAX,
    decreases records.len(),
{
    if records.len() > 0 {
        let rest = records.drop_last();
        lemma_max_id_bounds(rest);
        assert forall|i: int| 0 <= i < records.len() implies (#[trigger] records[i]).id <= max_id(
            records,
        ) by {
            if i < records.len() - 1 {
                assert(records[i] == rest[i]);
            }
        }
        if valid_records(records) {
            assert(valid_record(records[records.len() - 1]));
            assert forall|i: int| 0 <= i < rest.len() implies valid_record(#[trigger] rest[i]) by {
                assert(rest[i] == records[i]);
            }
        }
    }
}

/// The new ledger is well formed.
pub proof fn lemma_initial_well_formed()
    ensures
        LedgerView::initial().well_formed(),
{
    reveal_strlit("Food");
    reveal_strlit("Transportation");
    reveal_strlit("Entertainment");
    reveal_strlit("Utilities");
    reveal_strlit("Other");
    let b = default_budgets();
    assert(b[0].category.len() == 4);
    assert(b[1].category.len() == 14);
    assert(b[2].category.len() == 13);
    assert(b[3].category.len() == 9);
    assert(b[4].category.len() == 5);
}

/// Adding an entry keeps a ledger well formed as long as the next id still
/// fits in a `u32`.
pub proof fn lemma_added_well_formed(
    l: LedgerView,
    description: Seq<char>,
    amount: int,
    category: Seq<char>,
    transaction_type: TransactionType,
)
    requires
        l.well_formed(),
        l.next_id <= u32::MAX,
        i64::MIN <= amount <= i64::MAX,
    ensures
        l.added(description, amount, category, transaction_type).well_formed(),
{
    let m = l.added(description, amount, category, transaction_type);
    assert forall|i: int| 0 <= i < m.records.len() implies valid_record(#[trigger] m.records[i])
        && m.records[i].id < m.next_id by {
        if i < l.records.len() {
            assert(m.records[i] == l.records[i]);
        }
    }
}

/// Reading a text whose entries are valid leaves a well-formed ledger.
pub proof fn lemma_loaded_well_formed(l: LedgerView, text: Seq<char>)
    requires
        l.well_formed(),
        valid_records(parse_text(text)),
    ensures
        l.loaded(text).well_formed(),
{
    lemma_max_id_bounds(parse_text(text));
}

/// The sums of income and of expenses, taken together, are bounded by the
/// number of entries: each entry adds at most `2^63` to the magnitude of one
/// of them.
pub proof fn lemma_totals_bound(records: Seq<TransactionView>)
    requires
        valid_records(records),
    ensures
        ({
            let income = total_of(records, TransactionType::Income);
            let expenses = total_of(records, TransactionType::Expense);
            let bound = records.len() * 0x8000_0000_0000_0000;
            &&& -bound <= income + expenses <= bound
            &&& -bound <= income - expenses <= bound
            &&& -bound <= income <= bound
            &&& -bound <= expenses <= bound
        }),
    decreases records.len(),
{
    if records.len() > 0 {
        let rest = records.drop_last();
        assert forall|i: int| 0 <= i < rest.len() implies valid_record(#[trigger] rest[i]) by {
            assert(rest[i] == records[i]);
        }
        lemma_totals_bound(rest);
        assert(valid_record(records[records.len() - 1]));
    }
}

/// What is given for one entry that is to be added.
pub struct NewEntry {
    pub description: Seq<char>,
    pub amount: int,
    pub category: Seq<char>,
    pub transaction_type: TransactionType,
}

impl LedgerView {
    /// The ledger after the entries of `entries` are added one after the
    /// other, the first of them first.
    pub open spec fn added_all(self, entries: Seq<NewEntry>) -> LedgerView
        decreases entries.len(),
    {
        if entries.len() == 0 {
            self
        } else {
            self.added_all(entries.drop_last()).added(
                entries.last().description,
                entries.last().amount,
                entries.last().category,
                entries.last().transaction_type,
            )
        }
    }
}

/// Ids are given out in order, without gaps and without repeats: whatever is
/// added, the entries that were there stay, and the entry added at place `i`
/// gets the id that is `i` above the next id at the start.
pub proof fn lemma_ids_in_order(l: LedgerView, entries: Seq<NewEntry>)
    ensures
        l.added_all(entries).budgets == l.budgets,
        l.added_all(entries).next_id == l.next_id + entries.len(),
        l.added_all(entries).records.len() == l.records.len() + entries.len(),
        forall|i: int|
            0 <= i < l.records.len() ==> #[trigger] l.added_all(entries).records[i]
                == l.records[i],
        forall|i: int|
            0 <= i < entries.len() ==> #[trigger] l.added_all(entries).records[l.records.len()
                + i] == (TransactionView {
                id: l.next_id + i as nat,
                description: entries[i].description,
                amount: entries[i].amount,
                category: entries[i].category,
                transaction_type: entries[i].transaction_type,
            }),
    decreases entries.len(),
{
    if entries.len() > 0 {
        let front = entries.drop_last();
        lemma_ids_in_order(l, front);
        let m = l.added_all(front);
        let n = l.added_all(entries);
        assert forall|i: int| 0 <= i < l.records.len() implies #[trigger] n.records[i]
            == l.records[i] by {
            assert(n.records[i] == m.records[i]);
        }
        assert forall|i: int| 0 <= i < entries.len() implies #[trigger] n.records[l.records.len()
            + i] == (TransactionView {
            id: l.next_id + i as nat,
            description: entries[i].description,
            amount: entries[i].amount,
            category: entries[i].category,
            transaction_type: entries[i].transaction_type,
        }) by {
            if i < front.len() {
                assert(n.records[l.records.len() + i] == m.records[l.records.len() + i]);
                assert(front[i] == entries[i]);
            }
        }
    }
}

/// In a ledger that was new and then only added to, the ids are 1, 2, 3 and
/// so on, in the order of the entries, and the ledger is well formed as long
/// as these ids fit in a `u32` and the amounts in an `i64`.
pub proof fn lemma_ids_from_one(entries: Seq<NewEntry>)
    ensures
        LedgerView::initial().added_all(entries).records.len() == entries.len(),
        LedgerView::initial().added_all(entries).next_id == entries.len() + 1,
        forall|i: int|
            0 <= i < entries.len() ==> (#[trigger] LedgerView::initial().added_all(
                entries,
            ).records[i]).id == i + 1,
        forall|i: int, j: int|
            0 <= i < j < entries.len() ==> (#[trigger] LedgerView::initial().added_all(
                entries,
            ).records[i]).id < (#[trigger] LedgerView::initial().added_all(entries).records[j]).id,
{
    let l = LedgerView::initial();
    lemma_ids_in_order(l, entries);
    let n = l.added_all(entries);
    assert forall|i: int| 0 <= i < entries.len() implies (#[trigger] n.records[i]).id == i
        + 1 by {
        assert(n.records[l.records.len() + i].id == l.next_id + i);
    }
}

/// Income less expenses is the balance, for every ledger.
pub proof fn lemma_balance(l: LedgerView)
    ensures
        l.total_income() - l.total_expenses() == l.balance(),
{
}

/// Without entries nothing is spent: the report has one row per budget, each
/// with nothing spent, a share of zero and a status in order.
pub proof fn lemma_empty_breakdown(l: LedgerView)
    requires
        l.records.len() == 0,
    ensures
        l.breakdown().len() == l.budgets.len(),
        forall|i: int|
            0 <= i < l.budgets.len() ==> #[trigger] l.breakdown()[i] == (BreakdownRowView {
                category: l.budgets[i].category,
                spent: 0,
                budget: l.budgets[i].limit,
                percentage: 0,
                status: BudgetStatus::WithinBudget,
            }),
{
    assert forall|i: int| 0 <= i < l.budgets.len() implies #[trigger] l.breakdown()[i] == (
    BreakdownRowView {
        category: l.budgets[i].category,
        spent: 0,
        budget: l.budgets[i].limit,
        percentage: 0,
        status: BudgetStatus::WithinBudget,
    }) by {
        let b = l.budgets[i];
        assert(spent_in(l.records, b.category) == 0);
        if b.limit > 0 {
            vstd::arithmetic::div_mod::lemma_div_basics(b.limit as int);
        }
        assert(percentage_of(0, b.limit) == 0);
    }
}

/// The report of a new ledger has the five default budgets, in their order.
pub proof fn lemma_initial_breakdown()
    ensures
        LedgerView::initial().breakdown().len() == 5,
        forall|i: int|
            0 <= i < 5 ==> #[trigger] LedgerView::initial().breakdown()[i] == (BreakdownRowView {
                category: default_budgets()[i].category,
                spent: 0,
                budget: default_budgets()[i].limit,
                percentage: 0,
                status: BudgetStatus::WithinBudget,
            }),
{
    lemma_empty_breakdown(LedgerView::initial());
}

/// Saving and loading again: a ledger whose entries are storable has the
/// same entries and the same budgets after it reads the text that stores
/// them, and its next id is above every id as before.
pub proof fn lemma_save_then_load(l: LedgerView)
    requires
        l.well_formed(),
        all_storable(l.records),
    ensures
        l.loaded(storage_text(l.records)).records == l.records,
        l.loaded(storage_text(l.records)).budgets == l.budgets,
        l.loaded(storage_text(l.records)).next_id <= l.next_id,
        l.loaded(storage_text(l.records)).well_formed(),
{
    lemma_round_trip(l.records);
    lemma_max_id_reached(l.records);
    lemma_loaded_well_formed(l, storage_text(l.records));
}

/// The highest id is zero or the id of an entry.
pub proof fn lemma_max_id_reached(records: Seq<TransactionView>)
    ensures
        max_id(records) == 0 || exists|i: int|
            0 <= i < records.len() && (#[trigger] records[i]).id == max_id(records),
    decreases records.len(),
{
    if records.len() > 0 {
        let rest = records.drop_last();
        lemma_max_id_reached(rest);
        if records.last().id > max_id(rest) {
            assert(records[records.len() - 1].id == max_id(records));
        } else if max_id(rest) != 0 {
            let i = choose|i: int| 0 <= i < rest.len() && (#[trigger] rest[i]).id == max_id(rest);
            assert(records[i] == rest[i]);
        }
    }
}

} // verus!
