//! The storage format: a text of lines, one entry per line.
//!
//! ```text
//! # Personal Finance Tracker Data
//! # Format: ID,Type,Amount,Category,Description
//! <id>,<Income|Expense>,<amount>,<category>,<description>
//! ```
//!
//! A line is read by its first four commas: they end the id, the type, the
//! amount and the category, and all that follows the fourth is the
//! description, further commas included. A line with fewer than four commas
//! has fewer than five fields and is passed over, as is a line whose id or
//! amount cannot be read, a line that starts with `#` and a blank line.

use vstd::prelude::*;
use vstd::string::StringExecFns;
use crate::amount::{parse_amount, read_amount};
use crate::decimal::{parse_unsigned, read_unsigned};
use crate::text::{
    after_first_line, cut, find_char, first_line, is_blank, lines, next_line, range_is_blank,
    string_of_range, to_chars,
};
use crate::transaction::{storage_line, Transaction, TransactionType, TransactionView};

verus! {

/// The views of the entries of a vector, in its order.
pub open spec fn views(records: Seq<Transaction>) -> Seq<TransactionView> {
    records.map_values(|t: Transaction| t@)
}

/// The first of the two comment lines that every stored text starts with.
pub open spec fn title_line() -> Seq<char> {
    "# Personal Finance Tracker Data\n"@
}

/// The second comment line, which names the fields.
pub open spec fn format_line() -> Seq<char> {
    "# Format: ID,Type,Amount,Category,Description\n"@
}

/// The stored lines of `records`, each ended by a line feed.
pub open spec fn storage_body(records: Seq<TransactionView>) -> Seq<char>
    decreases records.len(),
{
    if records.len() == 0 {
        Seq::empty()
    } else {
        storage_body(records.drop_last()) + storage_line(records.last()) + "\n"@
    }
}

/// The text that stores `records`: the two comment lines, then one line per
/// entry in the order of `records`.
pub open spec fn storage_text(records: Seq<TransactionView>) -> Seq<char> {
    title_line() + format_line() + storage_body(records)
}

/// A line that starts with `#`.
pub open spec fn is_comment(line: Seq<char>) -> bool {
    line.len() > 0 && line[0] == '#'
}

/// The kind that a type field stands for: `Income` for exactly that word, and
/// `Expense` for anything else.
pub open spec fn type_of_word(word: Seq<char>) -> TransactionType {
    if word == "Income"@ {
        TransactionType::Income
    } else {
        TransactionType::Expense
    }
}

/// The entry that the five fields of a line give, if its id and its amount
/// can be read.
pub open spec fn entry_of_fields(
    id_field: Seq<char>,
    type_field: Seq<char>,
    amount_field: Seq<char>,
    category: Seq<char>,
    description: Seq<char>,
) -> Option<TransactionView> {
    match (parse_unsigned(id_field, u32::MAX as nat), parse_amount(amount_field)) {
        (Some(id), Some(amount)) => Some(
            TransactionView {
                id,
                description,
                amount: amount as int,
                category,
                transaction_type: type_of_word(type_field),
            },
        ),
        _ => None,
    }
}

/// The entry that a line stores, or `None` for a line that is passed over.
pub open spec fn parse_line(line: Seq<char>) -> Option<TransactionView> {
    if is_comment(line) || is_blank(line) {
        None
    } else {
        match cut(line, ',') {
            None => None,
            Some((id_field, after_id)) => match cut(after_id, ',') {
                None => None,
                Some((type_field, after_type)) => match cut(after_type, ',') {
                    None => None,
                    Some((amount_field, after_amount)) => match cut(after_amount, ',') {
                        None => None,
                        Some((category, description)) => entry_of_fields(
                            id_field,
                            type_field,
                            amount_field,
                            category,
                            description,
                        ),
                    },
                },
            },
        }
    }
}

/// The entries that the lines `ls` store, in their order.
pub open spec fn parse_lines(ls: Seq<Seq<char>>) -> Seq<TransactionView>
    decreases ls.len(),
{
    if ls.len() == 0 {
        Seq::empty()
    } else {
        let rest = parse_lines(ls.drop_first());
        match parse_line(ls[0]) {
            Some(t) => seq![t] + rest,
            None => rest,
        }
    }
}

/// The entries that a text stores, in the order of its lines.
pub open spec fn parse_text(text: Seq<char>) -> Seq<TransactionView> {
    parse_lines(lines(text))
}

/// The highest id among `records`, or zero where there is none.
pub open spec fn max_id(records: Seq<TransactionView>) -> nat
    decreases records.len(),
{
    if records.len() == 0 {
        0
    } else {
        let rest = max_id(records.drop_last());
        if records.last().id > rest {
            records.last().id
        } else {
            rest
        }
    }
}

/// Whether the characters of `v` in `[from, to)` are those of `word`.
fn range_is_word(v: &Vec<char>, from: usize, to: usize, word: &str) -> (b: bool)
    requires
        from <= to <= v.len(),
    ensures
        b == (v@.subrange(from as int, to as int) == word@),
{
    let w = to_chars(word);
    if w.len() != to - from {
        return false;
    }
    let ghost s = v@.subrange(from as int, to as int);
    let mut i: usize = 0;
    while i < w.len()
        invariant
            from <= to <= v.len(),
            w.len() == to - from,
            w@ == word@,
            i <= w.len(),
            s == v@.subrange(from as int, to as int),
            forall|j: int| 0 <= j < i ==> s[j] == w@[j],
        decreases w.len() - i,
    {
        assert(s[i as int] == v@[from + i]);
        if v[from + i] != w[i] {
            return false;
        }
        i += 1;
    }
    assert(s =~= w@);
    true
}

/// Reads the line that the characters of `v` in `[from, to)` make up.
pub fn read_line(v: &Vec<char>, from: usize, to: usize) -> (r: Option<Transaction>)
    requires
        from <= to <= v.len(),
    ensures
        match r {
            Some(t) => parse_line(v@.subrange(from as int, to as int)) == Some(t@),
            None => parse_line(v@.subrange(from as int, to as int)) is None,
        },
{
    let ghost line = v@.subrange(from as int, to as int);
    if from < to && v[from] == '#' {
        assert(line[0] == '#');
        return None;
    }
    assert(!is_comment(line)) by {
        if from < to {
            assert(line[0] == v@[from as int]);
        }
    }
    if range_is_blank(v, from, to) {
        return None;
    }
    let c1: usize = find_char(v, from, to, ',');
    if c1 == to {
        return None;
    }
    let ghost after_id = v@.subrange(c1 + 1, to as int);
    assert(cut(line, ',') == Some((v@.subrange(from as int, c1 as int), after_id))) by {
        assert(line.take(c1 - from) =~= v@.subrange(from as int, c1 as int));
        assert(line.skip(c1 - from + 1) =~= after_id);
    }
    let c2: usize = find_char(v, c1 + 1, to, ',');
    if c2 == to {
        return None;
    }
    let ghost after_type = v@.subrange(c2 + 1, to as int);
    assert(cut(after_id, ',') == Some((v@.subrange(c1 + 1, c2 as int), after_type))) by {
        assert(after_id.take(c2 - (c1 + 1)) =~= v@.subrange(c1 + 1, c2 as int));
        assert(after_id.skip(c2 - (c1 + 1) + 1) =~= after_type);
    }
    let c3: usize = find_char(v, c2 + 1, to, ',');
    if c3 == to {
        return None;
    }
    let ghost after_amount = v@.subrange(c3 + 1, to as int);
    assert(cut(after_type, ',') == Some((v@.subrange(c2 + 1, c3 as int), after_amount))) by {
        assert(after_type.take(c3 - (c2 + 1)) =~= v@.subrange(c2 + 1, c3 as int));
        assert(after_type.skip(c3 - (c2 + 1) + 1) =~= after_amount);
    }
    let c4: usize = find_char(v, c3 + 1, to, ',');
    if c4 == to {
        return None;
    }
    assert(cut(after_amount, ',') == Some(
        (v@.subrange(c3 + 1, c4 as int), v@.subrange(c4 + 1, to as int)),
    )) by {
        assert(after_amount.take(c4 - (c3 + 1)) =~= v@.subrange(c3 + 1, c4 as int));
        assert(after_amount.skip(c4 - (c3 + 1) + 1) =~= v@.subrange(c4 + 1, to as int));
    }
    let id: u32 = match read_unsigned(v, from, c1, 0xffff_ffff) {
        Some(n) => n as u32,
        None => {
            return None;
        },
    };
    let amount: i64 = match read_amount(v, c2 + 1, c3) {
        Some(a) => a,
        None => {
            return None;
        },
    };
    let transaction_type = if range_is_word(v, c1 + 1, c2, "Income") {
        TransactionType::Income
    } else {
        TransactionType::Expense
    };
    let category = string_of_range(v, c3 + 1, c4);
    let description = string_of_range(v, c4 + 1, to);
    Some(Transaction::new(id, description, amount, category, transaction_type))
}

/// The entries of a text are the entry of its first line, if that line
/// stores one, and then the entries of the rest.
pub proof fn lemma_parse_text_step(text: Seq<char>)
    requires
        text.len() > 0,
    ensures
        parse_text(text) == match parse_line(first_line(text)) {
            Some(t) => seq![t] + parse_text(after_first_line(text)),
            None => parse_text(after_first_line(text)),
        },
{
    let ls = lines(text);
    let more = lines(after_first_line(text));
    assert(ls == seq![first_line(text)] + more);
    assert(ls.drop_first() =~= more);
    assert(ls[0] == first_line(text));
}

/// Reads the entries that a stored text holds.
pub fn parse_records(content: &str) -> (records: Vec<Transaction>)
    ensures
        views(records@) == parse_text(content@),
{
    let v = to_chars(content);
    let n: usize = v.len();
    let mut records: Vec<Transaction> = Vec::new();
    let mut pos: usize = 0;
    assert(v@.subrange(0, n as int) =~= v@);
    assert(views(records@) =~= Seq::empty());
    while pos < n
        invariant
            pos <= n == v.len(),
            v@ == content@,
            parse_text(content@) == views(records@) + parse_text(
                v@.subrange(pos as int, n as int),
            ),
        decreases n - pos,
    {
        let ghost before = views(records@);
        let (line_end, next) = next_line(&v, pos);
        let ghost more = parse_text(v@.subrange(next as int, n as int));
        proof {
            lemma_parse_text_step(v@.subrange(pos as int, n as int));
        }
        match read_line(&v, pos, line_end) {
            Some(t) => {
                records.push(t);
                assert(views(records@) =~= before + seq![t@]);
                assert(before + (seq![t@] + more) =~= (before + seq![t@]) + more);
            },
            None => {},
        }
        pos = next;
    }
    assert(v@.subrange(pos as int, n as int) =~= Seq::<char>::empty());
    assert(lines(Seq::<char>::empty()) =~= Seq::empty());
    assert(views(records@) + Seq::<TransactionView>::empty() =~= views(records@));
    records
}

/// Writes the text that stores `records`.
pub fn render_records(records: &Vec<Transaction>) -> (s: String)
    ensures
        s@ == storage_text(views(records@)),
{
    let mut s = String::from_str("# Personal Finance Tracker Data\n");
    s.append("# Format: ID,Type,Amount,Category,Description\n");
    let mut i: usize = 0;
    assert(views(records@).take(0) =~= Seq::empty());
    assert(s@ =~= title_line() + format_line() + Seq::<char>::empty());
    while i < records.len()
        invariant
            i <= records.len(),
            s@ == storage_text(views(records@).take(i as int)),
        decreases records.len() - i,
    {
        let ghost done = views(records@).take(i as int);
        let ghost grown = views(records@).take(i + 1);
        let line = records[i].format_for_file();
        s.append(line.as_str());
        s.append("\n");
        proof {
            assert(grown.drop_last() =~= done);
            assert(grown.last() == records@[i as int]@);
            assert(s@ =~= title_line() + format_line() + (storage_body(done) + storage_line(
                records@[i as int]@,
            ) + "\n"@));
        }
        i += 1;
    }
    assert(views(records@).take(records.len() as int) =~= views(records@));
    s
}

/// The highest id among `records`, or zero where there is none.
pub fn highest_id(records: &Vec<Transaction>) -> (m: u32)
    ensures
        m == max_id(views(records@)),
{
    let mut m: u32 = 0;
    let mut i: usize = 0;
    assert(views(records@).take(0) =~= Seq::empty());
    while i < records.len()
        invariant
            i <= records.len(),
            m == max_id(views(records@).take(i as int)),
        decreases records.len() - i,
    {
        assert(views(records@).take(i + 1).drop_last() =~= views(records@).take(i as int));
        assert(views(records@).take(i + 1).last() == records@[i as int]@);
        if records[i].id > m {
            m = records[i].id;
        }
        i += 1;
    }
    assert(views(records@).take(records.len() as int) =~= views(records@));
    m
}

} // verus!
