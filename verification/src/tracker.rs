//! The ledger itself: it owns the entries and the budgets, and every change
//! and every report goes through it.

use vstd::prelude::*;
use vstd::string::StringExecFns;
use crate::decimal::push_decimal;
use crate::ledger::{
    breakdown_row, clamp_i128, default_budgets, lemma_added_well_formed,
    lemma_initial_well_formed, lemma_loaded_well_formed, lemma_totals_bound, percentage_of,
    percentage_text, spent_in, status_of, total_of, BreakdownRowView, BudgetStatus, BudgetView,
    LedgerView,
};
use crate::storage::{highest_id, parse_records, render_records, storage_text, views};
use crate::text::push_char;
use crate::transaction::{
    display_line, valid_record, valid_records, Transaction, TransactionType,
};

verus! {

/// A spending limit for one category, in cents.
#[derive(Debug, Clone)]
pub struct Budget {
    pub category: String,
    pub limit: u64,
}

impl View for Budget {
    type V = BudgetView;

    open spec fn view(&self) -> BudgetView {
        BudgetView { category: self.category@, limit: self.limit as nat }
    }
}

/// The views of the budgets of a vector, in its order.
pub open spec fn budget_views(budgets: Seq<Budget>) -> Seq<BudgetView> {
    budgets.map_values(|b: Budget| b@)
}

/// The sums over all entries. `overspent` says that the balance is below
/// zero.
#[derive(Debug, Clone, Copy, PartialEq, Eq)]
pub struct Summary {
    pub total_income: i128,
    pub total_expenses: i128,
    pub balance: i128,
    pub overspent: bool,
}

/// One row of the report on spending by category. `spent` and `budget` are
/// in cents, `percentage` is in hundredths of a percent.
#[derive(Debug, Clone)]
pub struct BreakdownRow {
    pub category: String,
    pub spent: i128,
    pub budget: u64,
    pub percentage: i128,
    pub status: BudgetStatus,
}

impl View for BreakdownRow {
    type V = BreakdownRowView;

    open spec fn view(&self) -> BreakdownRowView {
        BreakdownRowView {
            category: self.category@,
            spent: self.spent as int,
            budget: self.budget as nat,
            percentage: self.percentage as int,
            status: self.status,
        }
    }
}

/// The ledger: entries in the order in which they came, budgets in the order
/// in which they are reported, and the id that the next entry gets.
pub struct FinanceTracker {
    transactions: Vec<Transaction>,
    categories: Vec<Budget>,
    next_id: u64,
}

impl View for FinanceTracker {
    type V = LedgerView;

    closed spec fn view(&self) -> LedgerView {
        LedgerView {
            records: views(self.transactions@),
            budgets: budget_views(self.categories@),
            next_id: self.next_id as nat,
        }
    }
}

/// The entries of a vector are valid.
pub proof fn lemma_views_valid(records: Seq<Transaction>)
    ensures
        valid_records(views(records)),
{
    assert forall|i: int| 0 <= i < views(records).len() implies valid_record(
        #[trigger] views(records)[i],
    ) by {
        assert(views(records)[i] == records[i]@);
    }
}

/// The sum of the amounts of the entries of the given kind.
fn sum_of_kind(records: &Vec<Transaction>, kind: TransactionType) -> (sum: i128)
    ensures
        sum == total_of(views(records@), kind),
{
    let ghost all = views(records@);
    let mut sum: i128 = 0;
    let mut i: usize = 0;
    assert(all.take(0) =~= Seq::empty());
    while i < records.len()
        invariant
            i <= records.len(),
            all == views(records@),
            sum == total_of(all.take(i as int), kind),
            -(i * 0x8000_0000_0000_0000) <= sum <= i * 0x8000_0000_0000_0000,
        decreases records.len() - i,
    {
        proof {
            assert(all.take(i + 1).drop_last() =~= all.take(i as int));
            assert(all.take(i + 1).last() == records@[i as int]@);
        }
        if records[i].transaction_type == kind {
            sum = sum + records[i].amount as i128;
        }
        i += 1;
    }
    assert(all.take(records.len() as int) =~= all);
    sum
}

/// The sum of the amounts of the expenses in `category`.
fn sum_of_category(records: &Vec<Transaction>, category: &String) -> (sum: i128)
    ensures
        sum == spent_in(views(records@), category@),
{
    let ghost all = views(records@);
    let mut sum: i128 = 0;
    let mut i: usize = 0;
    assert(all.take(0) =~= Seq::empty());
    while i < records.len()
        invariant
            i <= records.len(),
            all == views(records@),
            sum == spent_in(all.take(i as int), category@),
            -(i * 0x8000_0000_0000_0000) <= sum <= i * 0x8000_0000_0000_0000,
        decreases records.len() - i,
    {
        proof {
            assert(all.take(i + 1).drop_last() =~= all.take(i as int));
            assert(all.take(i + 1).last() == records@[i as int]@);
        }
        if records[i].transaction_type == TransactionType::Expense && records[i].category
            == *category {
            sum = sum + records[i].amount as i128;
        }
        i += 1;
    }
    assert(all.take(records.len() as int) =~= all);
    sum
}

/// What is spent as a share of the budget, in hundredths of a percent; at a
/// bound of `i128` where the share is beyond it.
pub fn percentage(spent: i128, budget: u64) -> (p: i128)
    ensures
        p == clamp_i128(percentage_of(spent as int, budget as nat)),
{
    if budget == 0 {
        return 0;
    }
    let magnitude: u128 = if spent < 0 {
        ((-(spent + 1)) as u128) + 1
    } else {
        spent as u128
    };
    let b: u128 = budget as u128;
    let whole: u128 = magnitude / b;
    let left: u128 = magnitude % b;
    let ghost exact: int = (magnitude as int * 10000) / (b as int);
    proof {
        vstd::arithmetic::div_mod::lemma_fundamental_div_mod(magnitude as int, b as int);
        vstd::arithmetic::div_mod::lemma_hoist_over_denominator(
            left as int * 10000,
            whole as int * 10000,
            b as nat,
        );
        assert(left as int * 10000 + (whole as int * 10000) * (b as int) == magnitude as int
            * 10000) by (nonlinear_arith)
            requires
                magnitude as int == (b as int) * (whole as int) + (left as int),
        ;
        assert(exact == (left as int * 10000) / (b as int) + whole as int * 10000);
        assert(0 <= (left as int * 10000) / (b as int) < 10000) by (nonlinear_arith)
            requires
                0 <= left as int,
                (left as int) < (b as int),
        ;
        if spent < 0 {
            assert(-(spent as int) == magnitude as int);
        }
    }
    if whole > 0x7fff_ffff_ffff_ffff_ffff_ffff_ffff_ffff / 10000 {
        return if spent < 0 {
            i128::MIN
        } else {
            i128::MAX
        };
    }
    let scaled: u128 = whole * 10000 + (left * 10000) / b;
    assert(scaled == exact);
    if spent < 0 {
        if scaled >= 0x8000_0000_0000_0000_0000_0000_0000_0000 {
            i128::MIN
        } else {
            -(scaled as i128)
        }
    } else {
        if scaled > 0x7fff_ffff_ffff_ffff_ffff_ffff_ffff_ffff {
            i128::MAX
        } else {
            scaled as i128
        }
    }
}

/// A share in hundredths of a percent, written in percent with one decimal
/// place.
pub fn format_percentage(p: i128) -> (s: String)
    ensures
        s@ == percentage_text(p as int),
{
    let m: u128 = if p < 0 {
        ((-(p + 1)) as u128) + 1
    } else {
        p as u128
    };
    let mut s = String::new();
    if p < 0 {
        push_char(&mut s, '-');
    }
    push_decimal(&mut s, m / 100);
    push_char(&mut s, '.');
    let d: u8 = (m % 100 / 10) as u8;
    push_char(&mut s, (0x30u8 + d) as char);
    assert(s@ =~= percentage_text(p as int));
    s
}

/// The status of a category in which `spent` is spent against `budget`.
pub fn budget_status(spent: i128, budget: u64) -> (s: BudgetStatus)
    ensures
        s == status_of(spent as int, budget as nat),
{
    if spent > budget as i128 {
        BudgetStatus::OverBudget
    } else if spent > 0 && spent * 100 > 80 * (budget as i128) {
        BudgetStatus::NearLimit
    } else {
        BudgetStatus::WithinBudget
    }
}

impl FinanceTracker {
    #[verifier::type_invariant]
    spec fn well_formed(&self) -> bool {
        self@.well_formed()
    }

    /// A ledger without entries, with the default budgets.
    pub fn new() -> (tracker: Self)
        ensures
            tracker@ == LedgerView::initial(),
            tracker@.well_formed(),
    {
        let mut categories: Vec<Budget> = Vec::new();
        categories.push(Budget { category: String::from_str("Food"), limit: 50000 });
        categories.push(Budget { category: String::from_str("Transportation"), limit: 20000 });
        categories.push(Budget { category: String::from_str("Entertainment"), limit: 15000 });
        categories.push(Budget { category: String::from_str("Utilities"), limit: 30000 });
        categories.push(Budget { category: String::from_str("Other"), limit: 10000 });
        let transactions: Vec<Transaction> = Vec::new();
        proof {
            lemma_initial_well_formed();
            assert(budget_views(categories@) =~= default_budgets());
            assert(views(transactions@) =~= Seq::empty());
        }
        FinanceTracker { transactions, categories, next_id: 1 }
    }

    /// The budgets, in the order in which they are reported. No category
    /// occurs twice.
    pub fn categories(&self) -> (budgets: &Vec<Budget>)
        ensures
            budget_views(budgets@) == self@.budgets,
            self@.well_formed(),
    {
        proof {
            use_type_invariant(self);
        }
        &self.categories
    }

    /// The entries, in the order in which they were added or read.
    pub fn transactions(&self) -> (records: &Vec<Transaction>)
        ensures
            views(records@) == self@.records,
            self@.well_formed(),
    {
        proof {
            use_type_invariant(self);
        }
        &self.transactions
    }

    /// The id that the next added entry gets. It is above the id of every
    /// entry of the ledger.
    pub fn next_id(&self) -> (id: u64)
        ensures
            id == self@.next_id,
            self@.well_formed(),
    {
        proof {
            use_type_invariant(self);
        }
        self.next_id
    }

    /// Adds an entry. It gets the next id and stands last; the entries before
    /// it and the budgets stay as they are. The amount is in cents.
    pub fn add_transaction(
        &mut self,
        description: String,
        amount: i64,
        category: String,
        transaction_type: TransactionType,
    )
        requires
            old(self)@.next_id <= u32::MAX,
        ensures
            final(self)@ == old(self)@.added(
                description@,
                amount as int,
                category@,
                transaction_type,
            ),
            final(self)@.well_formed(),
    {
        proof {
            use_type_invariant(&*self);
            lemma_added_well_formed(
                self@,
                description@,
                amount as int,
                category@,
                transaction_type,
            );
        }
        let ghost before = self@;
        let id: u32 = self.next_id as u32;
        let mut records: Vec<Transaction> = Vec::new();
        std::mem::swap(&mut records, &mut self.transactions);
        records.push(Transaction::new(id, description, amount, category, transaction_type));
        assert(views(records@) =~= before.added(
            description@,
            amount as int,
            category@,
            transaction_type,
        ).records);
        assert(views(self.transactions@) =~= Seq::empty());
        self.next_id = id as u64 + 1;
        self.transactions = records;
    }

    /// The lines that show the entries, one per entry and in their order, or
    /// `None` where the ledger holds no entry.
    pub fn display_transactions(&self) -> (listing: Option<Vec<String>>)
        ensures
            listing is None <==> self@.records.len() == 0,
            listing matches Some(shown) ==> {
                &&& shown.len() == self@.records.len()
                &&& forall|i: int|
                    0 <= i < shown.len() ==> (#[trigger] shown[i])@ == display_line(
                        self@.records[i],
                    )
            },
    {
        if self.transactions.len() == 0 {
            return None;
        }
        let mut shown: Vec<String> = Vec::new();
        let mut i: usize = 0;
        while i < self.transactions.len()
            invariant
                i <= self.transactions.len(),
                shown.len() == i,
                forall|j: int|
                    0 <= j < i ==> (#[trigger] shown[j])@ == display_line(
                        self.transactions@[j]@,
                    ),
            decreases self.transactions.len() - i,
        {
            shown.push(self.transactions[i].format_for_display());
            i += 1;
        }
        Some(shown)
    }

    /// The sum of the amounts of all income, in cents.
    pub fn calculate_total_income(&self) -> (total: i128)
        ensures
            total == self@.total_income(),
    {
        sum_of_kind(&self.transactions, TransactionType::Income)
    }

    /// The sum of the amounts of all expenses, in cents.
    pub fn calculate_total_expenses(&self) -> (total: i128)
        ensures
            total == self@.total_expenses(),
    {
        sum_of_kind(&self.transactions, TransactionType::Expense)
    }

    /// Income less expenses, in cents.
    pub fn calculate_balance(&self) -> (balance: i128)
        ensures
            balance == self@.balance(),
            balance == self@.total_income() - self@.total_expenses(),
    {
        let count: usize = self.transactions.len();
        proof {
            lemma_views_valid(self.transactions@);
            lemma_totals_bound(views(self.transactions@));
            assert(views(self.transactions@).len() == count);
        }
        let income = self.calculate_total_income();
        let expenses = self.calculate_total_expenses();
        income - expenses
    }

    /// The three sums, and whether more is spent than earned.
    pub fn show_summary(&self) -> (summary: Summary)
        ensures
            summary.total_income == self@.total_income(),
            summary.total_expenses == self@.total_expenses(),
            summary.balance == self@.balance(),
            summary.overspent == (self@.balance() < 0),
    {
        let total_income = self.calculate_total_income();
        let total_expenses = self.calculate_total_expenses();
        let balance = self.calculate_balance();
        Summary { total_income, total_expenses, balance, overspent: balance < 0 }
    }

    /// The report on spending by category: one row per budget, in the order
    /// of the budgets. Expenses in a category without a budget are in no row.
    pub fn show_category_breakdown(&self) -> (rows: Vec<BreakdownRow>)
        ensures
            rows.len() == self@.budgets.len(),
            forall|i: int|
                0 <= i < rows.len() ==> (#[trigger] rows[i])@ == breakdown_row(
                    self@.records,
                    self@.budgets[i],
                ),
            rows@.map_values(|r: BreakdownRow| r@) == self@.breakdown(),
    {
        let mut rows: Vec<BreakdownRow> = Vec::new();
        let mut i: usize = 0;
        while i < self.categories.len()
            invariant
                i <= self.categories.len(),
                rows.len() == i,
                forall|j: int|
                    0 <= j < i ==> (#[trigger] rows[j])@ == breakdown_row(
                        views(self.transactions@),
                        self.categories@[j]@,
                    ),
            decreases self.categories.len() - i,
        {
            let budget = &self.categories[i];
            let spent = sum_of_category(&self.transactions, &budget.category);
            let row = BreakdownRow {
                category: budget.category.clone(),
                spent,
                budget: budget.limit,
                percentage: percentage(spent, budget.limit),
                status: budget_status(spent, budget.limit),
            };
            rows.push(row);
            i += 1;
        }
        assert(rows@.map_values(|r: BreakdownRow| r@) =~= self@.breakdown());
        rows
    }

    /// The text that stores the entries. The budgets are not stored.
    pub fn save_to_text(&self) -> (text: String)
        ensures
            text@ == storage_text(self@.records),
    {
        render_records(&self.transactions)
    }

    /// Replaces the entries by those that `content` stores, in the order of
    /// its lines. The budgets stay. The next id becomes one above the highest
    /// id read, or 1 where `content` stores no entry.
    pub fn load_from_text(&mut self, content: &str)
        ensures
            final(self)@ == old(self)@.loaded(content@),
            final(self)@.well_formed(),
    {
        proof {
            use_type_invariant(&*self);
        }
        let records = parse_records(content);
        let highest = highest_id(&records);
        proof {
            lemma_views_valid(records@);
            lemma_loaded_well_formed(self@, content@);
        }
        let mut none: Vec<Transaction> = Vec::new();
        std::mem::swap(&mut none, &mut self.transactions);
        self.next_id = highest as u64 + 1;
        self.transactions = records;
    }
}

} // verus!
