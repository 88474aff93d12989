//! What the menu decides: which action a choice stands for, whether typed
//! text is an amount, and which category an answer names. Reading and
//! printing are left to the caller.

use vstd::prelude::*;
use crate::amount::{parse_amount, read_amount};
use crate::decimal::{parse_unsigned, read_unsigned};
use crate::ledger::BudgetView;
use crate::text::{string_of_range, to_chars, trim_range, trimmed};
use crate::tracker::{budget_views, Budget};

verus! {

/// What a choice in the main menu asks for.
#[derive(Debug, Clone, Copy, PartialEq, Eq, Structural)]
pub enum MenuAction {
    AddIncome,
    AddExpense,
    ViewTransactions,
    ShowSummary,
    ShowCategoryBreakdown,
    SaveData,
    LoadData,
    Exit,
    Invalid,
}

/// The action that a choice stands for: `1` to `8` in the order of the menu,
/// and no action for any other text.
pub open spec fn menu_action(choice: Seq<char>) -> MenuAction {
    if choice == seq!['1'] {
        MenuAction::AddIncome
    } else if choice == seq!['2'] {
        MenuAction::AddExpense
    } else if choice == seq!['3'] {
        MenuAction::ViewTransactions
    } else if choice == seq!['4'] {
        MenuAction::ShowSummary
    } else if choice == seq!['5'] {
        MenuAction::ShowCategoryBreakdown
    } else if choice == seq!['6'] {
        MenuAction::SaveData
    } else if choice == seq!['7'] {
        MenuAction::LoadData
    } else if choice == seq!['8'] {
        MenuAction::Exit
    } else {
        MenuAction::Invalid
    }
}

/// Whether the menu goes on after an action: after every action but `Exit`.
pub open spec fn goes_on(action: MenuAction) -> bool {
    action != MenuAction::Exit
}

/// The amount that typed text gives: the amount it writes, if it writes one
/// that is above zero.
pub open spec fn amount_input(input: Seq<char>) -> Option<i64> {
    match parse_amount(input) {
        Some(a) => if a > 0 {
            Some(a)
        } else {
            None
        },
        None => None,
    }
}

/// How an answer to the question for a category is read.
#[derive(Debug, Clone, Copy, PartialEq, Eq, Structural)]
pub enum CategoryAnswer {
    /// The answer is the number of a listed category; the place of that
    /// category in the list, counted from zero, is given.
    Listed(usize),
    /// The answer is a number, but no category has it: the answer itself is
    /// taken as the name.
    NumberOutOfRange,
    /// The answer is no number and is taken as the name.
    Name,
}

/// How `input` is read against a list of `count` categories, which are
/// numbered from 1.
pub open spec fn category_answer(input: Seq<char>, count: nat) -> CategoryAnswer {
    match parse_unsigned(input, usize::MAX as nat) {
        Some(n) => if 1 <= n <= count {
            CategoryAnswer::Listed((n - 1) as usize)
        } else {
            CategoryAnswer::NumberOutOfRange
        },
        None => CategoryAnswer::Name,
    }
}

/// The category that an answer names: the listed one where the answer is its
/// number, else the answer itself.
pub open spec fn chosen_category(input: Seq<char>, budgets: Seq<BudgetView>) -> Seq<char> {
    match category_answer(input, budgets.len()) {
        CategoryAnswer::Listed(i) => budgets[i as int].category,
        _ => input,
    }
}

/// The action that a choice in the main menu stands for.
pub fn handle_menu_choice(choice: &str) -> (action: MenuAction)
    ensures
        action == menu_action(choice@),
{
    let v = to_chars(choice);
    if v.len() != 1 {
        return MenuAction::Invalid;
    }
    let c: char = v[0];
    assert(v@ =~= seq![c]);
    if c == '1' {
        MenuAction::AddIncome
    } else if c == '2' {
        MenuAction::AddExpense
    } else if c == '3' {
        MenuAction::ViewTransactions
    } else if c == '4' {
        MenuAction::ShowSummary
    } else if c == '5' {
        MenuAction::ShowCategoryBreakdown
    } else if c == '6' {
        MenuAction::SaveData
    } else if c == '7' {
        MenuAction::LoadData
    } else if c == '8' {
        MenuAction::Exit
    } else {
        assert(v@[0] == c);
        MenuAction::Invalid
    }
}

/// Whether the menu is shown again after `action`.
pub fn continues_after(action: MenuAction) -> (b: bool)
    ensures
        b == goes_on(action),
{
    match action {
        MenuAction::Exit => false,
        _ => true,
    }
}

/// A line that was typed, without the white space around it.
pub fn trim_input(line: &str) -> (input: String)
    ensures
        input@ == trimmed(line@),
{
    let v = to_chars(line);
    assert(v@.subrange(0, v.len() as int) =~= v@);
    let (from, to) = trim_range(&v, 0, v.len());
    string_of_range(&v, from, to)
}

/// Reads typed text as an amount in cents. `None` where it writes no amount
/// or one that is not above zero: the caller asks again.
pub fn parse_amount_input(input: &str) -> (amount: Option<i64>)
    ensures
        amount == amount_input(input@),
{
    let v = to_chars(input);
    assert(v@.subrange(0, v.len() as int) =~= v@);
    match read_amount(&v, 0, v.len()) {
        Some(a) => if a > 0 {
            Some(a)
        } else {
            None
        },
        None => None,
    }
}

/// Reads an answer to the question for a category against the listed
/// budgets, which are numbered from 1 in their order.
pub fn read_category_answer(input: &str, count: usize) -> (answer: CategoryAnswer)
    ensures
        answer == category_answer(input@, count as nat),
{
    let v = to_chars(input);
    assert(v@.subrange(0, v.len() as int) =~= v@);
    match read_unsigned(&v, 0, v.len(), usize::MAX as u64) {
        Some(n) => if 1 <= n && n <= count as u64 {
            CategoryAnswer::Listed((n - 1) as usize)
        } else {
            CategoryAnswer::NumberOutOfRange
        },
        None => CategoryAnswer::Name,
    }
}

/// The category that an answer names: the listed one where the answer is its
/// number, else the answer itself.
pub fn choose_category(input: &str, budgets: &Vec<Budget>) -> (category: String)
    ensures
        category@ == chosen_category(input@, budget_views(budgets@)),
{
    match read_category_answer(input, budgets.len()) {
        CategoryAnswer::Listed(i) => budgets[i].category.clone(),
        _ => input.to_owned(),
    }
}

} // verus!
