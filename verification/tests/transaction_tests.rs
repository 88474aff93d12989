use finance_tracker::{Transaction, TransactionType};

#[test]
fn new_keeps_the_parts() {
    let t = Transaction::new(
        3,
        String::from("Lunch"),
        1250,
        String::from("Food"),
        TransactionType::Expense,
    );
    assert_eq!(t.id, 3);
    assert_eq!(t.description, "Lunch");
    assert_eq!(t.amount, 1250);
    assert_eq!(t.category, "Food");
    assert_eq!(t.transaction_type, TransactionType::Expense);
}

#[test]
fn display_line_of_income() {
    let t = Transaction::new(
        1,
        String::from("Paycheck"),
        100000,
        String::from("Income"),
        TransactionType::Income,
    );
    assert_eq!(t.format_for_display(), "ID: 1 | +1000.00 | Income | Paycheck");
}

#[test]
fn display_line_of_expense() {
    let t = Transaction::new(
        42,
        String::from("Groceries, weekly"),
        15005,
        String::from("Food"),
        TransactionType::Expense,
    );
    assert_eq!(t.format_for_display(), "ID: 42 | -150.05 | Food | Groceries, weekly");
}

#[test]
fn display_line_of_a_negative_amount() {
    let t = Transaction::new(
        2,
        String::from("Refund"),
        -500,
        String::from("Other"),
        TransactionType::Income,
    );
    assert_eq!(t.format_for_display(), "ID: 2 | +-5.00 | Other | Refund");
}

#[test]
fn storage_line_of_income() {
    let t = Transaction::new(
        1,
        String::from("Paycheck"),
        100000,
        String::from("Income"),
        TransactionType::Income,
    );
    assert_eq!(t.format_for_file(), "1,Income,1000.00,Income,Paycheck");
}

#[test]
fn storage_line_of_expense_keeps_commas_of_the_description() {
    let t = Transaction::new(
        4294967295,
        String::from("a,b,,c"),
        7,
        String::from("Food"),
        TransactionType::Expense,
    );
    assert_eq!(t.format_for_file(), "4294967295,Expense,0.07,Food,a,b,,c");
}

#[test]
fn storage_line_of_empty_texts() {
    let t = Transaction::new(0, String::new(), 0, String::new(), TransactionType::Expense);
    assert_eq!(t.format_for_file(), "0,Expense,0.00,,");
    assert_eq!(t.format_for_display(), "ID: 0 | -0.00 |  | ");
}
