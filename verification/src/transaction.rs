//! One entry of the ledger, and the two ways it is written as text.

use vstd::prelude::*;
use vstd::string::StringExecFns;
use crate::amount::{amount_text, push_amount};
use crate::decimal::{decimal_digits, push_decimal};

verus! {

/// Whether an entry is money received or money spent.
#[derive(Debug, Clone, Copy, PartialEq, Eq, Structural)]
pub enum TransactionType {
    Income,
    Expense,
}

/// One income or expense entry. The amount is in cents.
#[derive(Debug, Clone)]
pub struct Transaction {
    pub id: u32,
    pub description: String,
    pub amount: i64,
    pub category: String,
    pub transaction_type: TransactionType,
}

/// The mathematical value of a [`Transaction`].
pub struct TransactionView {
    pub id: nat,
    pub description: Seq<char>,
    pub amount: int,
    pub category: Seq<char>,
    pub transaction_type: TransactionType,
}

impl View for Transaction {
    type V = TransactionView;

    open spec fn view(&self) -> TransactionView {
        TransactionView {
            id: self.id as nat,
            description: self.description@,
            amount: self.amount as int,
            category: self.category@,
            transaction_type: self.transaction_type,
        }
    }
}

/// An entry whose id fits in a `u32` and whose amount fits in an `i64`.
pub open spec fn valid_record(t: TransactionView) -> bool {
    &&& t.id <= u32::MAX
    &&& i64::MIN <= t.amount <= i64::MAX
}

/// Every entry of `records` is valid.
pub open spec fn valid_records(records: Seq<TransactionView>) -> bool {
    forall|i: int| 0 <= i < records.len() ==> valid_record(#[trigger] records[i])
}

/// The word that stands for a kind in storage.
pub open spec fn type_word(kind: TransactionType) -> Seq<char> {
    match kind {
        TransactionType::Income => "Income"@,
        TransactionType::Expense => "Expense"@,
    }
}

/// The sign shown in front of the amount of an entry of this kind.
pub open spec fn type_symbol(kind: TransactionType) -> Seq<char> {
    match kind {
        TransactionType::Income => "+"@,
        TransactionType::Expense => "-"@,
    }
}

/// The line that shows an entry to a reader:
/// `ID: <id> | <sign><amount> | <category> | <description>`.
pub open spec fn display_line(t: TransactionView) -> Seq<char> {
    "ID: "@ + decimal_digits(t.id) + " | "@ + type_symbol(t.transaction_type) + amount_text(
        t.amount,
    ) + " | "@ + t.category + " | "@ + t.description
}

/// The line that stores an entry:
/// `<id>,<Income|Expense>,<amount>,<category>,<description>`. The description
/// stands last and is written as it is, commas included.
pub open spec fn storage_line(t: TransactionView) -> Seq<char> {
    decimal_digits(t.id) + ","@ + type_word(t.transaction_type) + ","@ + amount_text(t.amount)
        + ","@ + t.category + ","@ + t.description
}

impl Transaction {
    /// Makes an entry of the given parts, none of which is checked.
    pub fn new(
        id: u32,
        description: String,
        amount: i64,
        category: String,
        transaction_type: TransactionType,
    ) -> (t: Self)
        ensures
            t.id == id,
            t.description == description,
            t.amount == amount,
            t.category == category,
            t.transaction_type == transaction_type,
    {
        Transaction { id, description, amount, category, transaction_type }
    }

    /// The entry as a line for a reader.
    pub fn format_for_display(&self) -> (s: String)
        ensures
            s@ == display_line(self@),
    {
        let mut s = String::from_str("ID: ");
        push_decimal(&mut s, self.id as u128);
        s.append(" | ");
        match self.transaction_type {
            TransactionType::Income => s.append("+"),
            TransactionType::Expense => s.append("-"),
        }
        push_amount(&mut s, self.amount as i128);
        s.append(" | ");
        s.append(self.category.as_str());
        s.append(" | ");
        s.append(self.description.as_str());
        s
    }

    /// The entry as a line of the storage format.
    pub fn format_for_file(&self) -> (s: String)
        ensures
            s@ == storage_line(self@),
    {
        let mut s = String::new();
        push_decimal(&mut s, self.id as u128);
        s.append(",");
        match self.transaction_type {
            TransactionType::Income => s.append("Income"),
            TransactionType::Expense => s.append("Expense"),
        }
        s.append(",");
        push_amount(&mut s, self.amount as i128);
        s.append(",");
        s.append(self.category.as_str());
        s.append(",");
        s.append(self.description.as_str());
        assert(s@ =~= storage_line(self@));
        s
    }
}

} // verus!
