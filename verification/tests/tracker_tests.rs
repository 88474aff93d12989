use finance_tracker::tracker::{budget_status, format_percentage, percentage};
use finance_tracker::{BudgetStatus, FinanceTracker, TransactionType};

fn row_of<'a>(
    rows: &'a [finance_tracker::BreakdownRow],
    category: &str,
) -> &'a finance_tracker::BreakdownRow {
    rows.iter().find(|r| r.category == category).unwrap()
}

#[test]
fn new_ledger_is_empty_and_has_the_default_budgets() {
    let tracker = FinanceTracker::new();
    assert_eq!(tracker.transactions().len(), 0);
    assert_eq!(tracker.next_id(), 1);
    let budgets: Vec<(String, u64)> =
        tracker.categories().iter().map(|b| (b.category.clone(), b.limit)).collect();
    assert_eq!(
        budgets,
        vec![
            (String::from("Food"), 50000),
            (String::from("Transportation"), 20000),
            (String::from("Entertainment"), 15000),
            (String::from("Utilities"), 30000),
            (String::from("Other"), 10000),
        ]
    );
}

#[test]
fn ids_are_assigned_from_one_without_gaps() {
    let mut tracker = FinanceTracker::new();
    for i in 0..25u32 {
        assert_eq!(tracker.next_id(), u64::from(i) + 1);
        tracker.add_transaction(
            format!("entry {}", i),
            100,
            String::from("Other"),
            TransactionType::Expense,
        );
    }
    let ids: Vec<u32> = tracker.transactions().iter().map(|t| t.id).collect();
    let expected: Vec<u32> = (1..=25).collect();
    assert_eq!(ids, expected);
    assert_eq!(tracker.next_id(), 26);
}

#[test]
fn add_keeps_the_parts_and_the_order() {
    let mut tracker = FinanceTracker::new();
    tracker.add_transaction(
        String::from("Paycheck"),
        100000,
        String::from("Income"),
        TransactionType::Income,
    );
    tracker.add_transaction(
        String::from("Groceries"),
        15000,
        String::from("Food"),
        TransactionType::Expense,
    );
    let records = tracker.transactions();
    assert_eq!(records.len(), 2);
    assert_eq!(records[0].id, 1);
    assert_eq!(records[0].description, "Paycheck");
    assert_eq!(records[0].amount, 100000);
    assert_eq!(records[0].category, "Income");
    assert_eq!(records[0].transaction_type, TransactionType::Income);
    assert_eq!(records[1].id, 2);
    assert_eq!(records[1].description, "Groceries");
    assert_eq!(records[1].amount, 15000);
    assert_eq!(records[1].category, "Food");
    assert_eq!(records[1].transaction_type, TransactionType::Expense);
    assert_eq!(tracker.categories().len(), 5);
}

#[test]
fn paycheck_and_groceries() {
    let mut tracker = FinanceTracker::new();
    tracker.add_transaction(
        String::from("Paycheck"),
        100000,
        String::from("Income"),
        TransactionType::Income,
    );
    tracker.add_transaction(
        String::from("Groceries"),
        15000,
        String::from("Food"),
        TransactionType::Expense,
    );
    assert_eq!(tracker.calculate_total_income(), 100000);
    assert_eq!(tracker.calculate_total_expenses(), 15000);
    assert_eq!(tracker.calculate_balance(), 85000);
    let rows = tracker.show_category_breakdown();
    let food = row_of(&rows, "Food");
    assert_eq!(food.spent, 15000);
    assert_eq!(food.budget, 50000);
    assert_eq!(food.percentage, 3000);
    assert_eq!(food.status, BudgetStatus::WithinBudget);
    assert_eq!(food.percentage as f64 / 100.0, 30.0);
}

#[test]
fn over_budget_and_near_limit() {
    let mut over = FinanceTracker::new();
    over.add_transaction(
        String::from("Feast"),
        60000,
        String::from("Food"),
        TransactionType::Expense,
    );
    let rows = over.show_category_breakdown();
    assert_eq!(row_of(&rows, "Food").status, BudgetStatus::OverBudget);
    assert_eq!(row_of(&rows, "Food").percentage, 12000);

    let mut near = FinanceTracker::new();
    near.add_transaction(
        String::from("Groceries"),
        42000,
        String::from("Food"),
        TransactionType::Expense,
    );
    let rows = near.show_category_breakdown();
    assert_eq!(row_of(&rows, "Food").percentage, 8400);
    assert_eq!(row_of(&rows, "Food").percentage as f64 / 100.0, 84.0);
    assert_eq!(row_of(&rows, "Food").status, BudgetStatus::NearLimit);
}

#[test]
fn breakdown_of_an_empty_ledger() {
    let tracker = FinanceTracker::new();
    let rows = tracker.show_category_breakdown();
    assert_eq!(rows.len(), 5);
    let names: Vec<&str> = rows.iter().map(|r| r.category.as_str()).collect();
    assert_eq!(names, vec!["Food", "Transportation", "Entertainment", "Utilities", "Other"]);
    let budgets: Vec<u64> = rows.iter().map(|r| r.budget).collect();
    assert_eq!(budgets, vec![50000, 20000, 15000, 30000, 10000]);
    for row in &rows {
        assert_eq!(row.spent, 0);
        assert_eq!(row.percentage, 0);
        assert_eq!(row.status, BudgetStatus::WithinBudget);
    }
}

#[test]
fn breakdown_counts_expenses_of_the_exact_category_only() {
    let mut tracker = FinanceTracker::new();
    tracker.add_transaction(String::from("a"), 1000, String::from("Food"), TransactionType::Expense);
    tracker.add_transaction(String::from("b"), 2000, String::from("food"), TransactionType::Expense);
    tracker.add_transaction(String::from("c"), 4000, String::from("Food "), TransactionType::Expense);
    tracker.add_transaction(String::from("d"), 8000, String::from("Food"), TransactionType::Income);
    tracker.add_transaction(String::from("e"), 16000, String::from("Pets"), TransactionType::Expense);
    tracker.add_transaction(String::from("f"), 32000, String::from("Food"), TransactionType::Expense);
    tracker.add_transaction(String::from("g"), 500, String::from("Other"), TransactionType::Expense);
    let rows = tracker.show_category_breakdown();
    assert_eq!(rows.len(), 5);
    assert_eq!(row_of(&rows, "Food").spent, 33000);
    assert_eq!(row_of(&rows, "Food").percentage, 6600);
    assert_eq!(row_of(&rows, "Other").spent, 500);
    assert_eq!(row_of(&rows, "Other").percentage, 500);
    assert_eq!(row_of(&rows, "Utilities").spent, 0);
    assert!(rows.iter().all(|r| r.category != "Pets"));
    assert_eq!(tracker.calculate_total_expenses(), 55500);
    assert_eq!(tracker.calculate_total_income(), 8000);
}

#[test]
fn totals_of_an_empty_ledger_are_zero() {
    let tracker = FinanceTracker::new();
    assert_eq!(tracker.calculate_total_income(), 0);
    assert_eq!(tracker.calculate_total_expenses(), 0);
    assert_eq!(tracker.calculate_balance(), 0);
    let summary = tracker.show_summary();
    assert_eq!(summary.total_income, 0);
    assert_eq!(summary.total_expenses, 0);
    assert_eq!(summary.balance, 0);
    assert!(!summary.overspent);
}

#[test]
fn balance_is_income_less_expenses() {
    let mut tracker = FinanceTracker::new();
    let entries: [(i64, TransactionType); 6] = [
        (125050, TransactionType::Income),
        (9999, TransactionType::Expense),
        (1, TransactionType::Expense),
        (-300, TransactionType::Income),
        (-450, TransactionType::Expense),
        (70000, TransactionType::Expense),
    ];
    for (amount, kind) in entries {
        tracker.add_transaction(String::from("x"), amount, String::from("Other"), kind);
        assert_eq!(
            tracker.calculate_total_income() - tracker.calculate_total_expenses(),
            tracker.calculate_balance()
        );
    }
    assert_eq!(tracker.calculate_total_income(), 124750);
    assert_eq!(tracker.calculate_total_expenses(), 79550);
    assert_eq!(tracker.calculate_balance(), 45200);
}

#[test]
fn summary_says_when_more_is_spent_than_earned() {
    let mut tracker = FinanceTracker::new();
    tracker.add_transaction(String::from("pay"), 1000, String::from("Income"), TransactionType::Income);
    tracker.add_transaction(String::from("rent"), 1000, String::from("Other"), TransactionType::Expense);
    let even = tracker.show_summary();
    assert_eq!(even.balance, 0);
    assert!(!even.overspent);
    tracker.add_transaction(String::from("gum"), 1, String::from("Food"), TransactionType::Expense);
    let summary = tracker.show_summary();
    assert_eq!(summary.total_income, 1000);
    assert_eq!(summary.total_expenses, 1001);
    assert_eq!(summary.balance, -1);
    assert!(summary.overspent);
}

#[test]
fn totals_do_not_overflow_at_the_largest_amounts() {
    let mut tracker = FinanceTracker::new();
    for _ in 0..4 {
        tracker.add_transaction(String::from("in"), i64::MAX, String::from("Income"), TransactionType::Income);
        tracker.add_transaction(String::from("out"), i64::MIN, String::from("Food"), TransactionType::Expense);
    }
    assert_eq!(tracker.calculate_total_income(), 4 * i128::from(i64::MAX));
    assert_eq!(tracker.calculate_total_expenses(), 4 * i128::from(i64::MIN));
    assert_eq!(
        tracker.calculate_balance(),
        4 * i128::from(i64::MAX) - 4 * i128::from(i64::MIN)
    );
    let rows = tracker.show_category_breakdown();
    assert_eq!(row_of(&rows, "Food").spent, 4 * i128::from(i64::MIN));
    assert_eq!(row_of(&rows, "Food").status, BudgetStatus::WithinBudget);
}

#[test]
fn listing_of_an_empty_ledger_is_none() {
    let tracker = FinanceTracker::new();
    assert_eq!(tracker.display_transactions(), None);
}

#[test]
fn listing_shows_the_entries_in_order() {
    let mut tracker = FinanceTracker::new();
    tracker.add_transaction(String::from("Paycheck"), 100000, String::from("Income"), TransactionType::Income);
    tracker.add_transaction(String::from("Groceries"), 15000, String::from("Food"), TransactionType::Expense);
    assert_eq!(
        tracker.display_transactions(),
        Some(vec![
            String::from("ID: 1 | +1000.00 | Income | Paycheck"),
            String::from("ID: 2 | -150.00 | Food | Groceries"),
        ])
    );
}

#[test]
fn percentage_is_in_hundredths_of_a_percent_towards_zero() {
    assert_eq!(percentage(15000, 50000), 3000);
    assert_eq!(percentage(42000, 50000), 8400);
    assert_eq!(percentage(1, 3), 3333);
    assert_eq!(percentage(2, 3), 6666);
    assert_eq!(percentage(-1, 3), -3333);
    assert_eq!(percentage(-2, 3), -6666);
    assert_eq!(percentage(0, 50000), 0);
    assert_eq!(percentage(50000, 50000), 10000);
    assert_eq!(percentage(1, u64::MAX), 0);
}

#[test]
fn percentage_of_a_budget_of_zero_is_zero() {
    assert_eq!(percentage(0, 0), 0);
    assert_eq!(percentage(12345, 0), 0);
    assert_eq!(percentage(-12345, 0), 0);
}

#[test]
fn percentage_stops_at_the_bounds() {
    assert_eq!(percentage(i128::MAX, 1), i128::MAX);
    assert_eq!(percentage(i128::MIN, 1), i128::MIN);
    assert_eq!(percentage(i128::MAX / 10000, 1), (i128::MAX / 10000) * 10000);
    assert_eq!(percentage(i128::MAX / 10000 + 1, 1), i128::MAX);
    assert_eq!(percentage(-(i128::MAX / 10000) - 1, 1), i128::MIN);
    assert_eq!(percentage(i128::MAX, 10000), i128::MAX);
    assert_eq!(percentage(i128::MAX, 20000), i128::MAX / 2);
    assert_eq!(percentage(i128::MIN, 20000), -(1i128 << 126));
}

#[test]
fn status_at_the_edges() {
    assert_eq!(budget_status(50001, 50000), BudgetStatus::OverBudget);
    assert_eq!(budget_status(50000, 50000), BudgetStatus::NearLimit);
    assert_eq!(budget_status(40001, 50000), BudgetStatus::NearLimit);
    assert_eq!(budget_status(40000, 50000), BudgetStatus::WithinBudget);
    assert_eq!(budget_status(0, 50000), BudgetStatus::WithinBudget);
    assert_eq!(budget_status(-1, 50000), BudgetStatus::WithinBudget);
    assert_eq!(budget_status(0, 0), BudgetStatus::WithinBudget);
    assert_eq!(budget_status(1, 0), BudgetStatus::OverBudget);
    assert_eq!(budget_status(-1, 0), BudgetStatus::WithinBudget);
    assert_eq!(budget_status(i128::MIN, u64::MAX), BudgetStatus::WithinBudget);
    assert_eq!(budget_status(i128::MAX, u64::MAX), BudgetStatus::OverBudget);
    assert_eq!(budget_status(i128::from(u64::MAX), u64::MAX), BudgetStatus::NearLimit);
    assert_eq!(budget_status(4, 5), BudgetStatus::WithinBudget);
    assert_eq!(budget_status(5, 6), BudgetStatus::NearLimit);
}

#[test]
fn percentages_are_written_with_one_place() {
    assert_eq!(format_percentage(3000), "30.0");
    assert_eq!(format_percentage(8400), "84.0");
    assert_eq!(format_percentage(0), "0.0");
    assert_eq!(format_percentage(9), "0.0");
    assert_eq!(format_percentage(10), "0.1");
    assert_eq!(format_percentage(3339), "33.3");
    assert_eq!(format_percentage(12000), "120.0");
    assert_eq!(format_percentage(-3339), "-33.3");
    assert_eq!(format_percentage(-5), "-0.0");
    assert_eq!(format_percentage(i128::MIN), "-1701411834604692317316873037158841057.2");
}
