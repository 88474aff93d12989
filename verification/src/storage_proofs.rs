//! What holds of the storage format: entries that are written come back as
//! they were, and lines with too few fields add nothing.

use vstd::prelude::*;
use crate::amount::{amount_text, lemma_amount_round_trip, lemma_amount_text_chars, parse_amount};
use crate::decimal::{decimal_digits, is_digit, lemma_decimal_digits, parse_unsigned};
use crate::storage::{
    entry_of_fields, format_line, is_comment, lemma_parse_text_step, parse_line, parse_text,
    storage_body, storage_text, title_line, type_of_word,
};
use crate::text::{
    after_first_line, count_char, cut, first_index, first_line, free_of, is_blank, is_space,
    lemma_count_after_cut, lemma_cut_joined, lemma_first_index_bound, lemma_first_index_is, lines,
    strip_cr,
};
use crate::transaction::{
    storage_line, type_word, valid_record, TransactionType, TransactionView,
};

verus! {

/// An entry that the storage format gives back as it was: its id and amount
/// are valid, its category holds no comma and no line feed, and its
/// description holds no line feed and does not end in a carriage return.
pub open spec fn storable(t: TransactionView) -> bool {
    &&& valid_record(t)
    &&& free_of(t.category, ',')
    &&& free_of(t.category, '\n')
    &&& free_of(t.description, '\n')
    &&& !(t.description.len() > 0 && t.description.last() == '\r')
}

/// Every entry of `records` is storable.
pub open spec fn all_storable(records: Seq<TransactionView>) -> bool {
    forall|i: int| 0 <= i < records.len() ==> storable(#[trigger] records[i])
}

/// The word of a kind holds no comma and no line feed, and stands for that
/// kind.
pub proof fn lemma_type_word(kind: TransactionType)
    ensures
        free_of(type_word(kind), ','),
        free_of(type_word(kind), '\n'),
        type_of_word(type_word(kind)) == kind,
{
    reveal_strlit("Income");
    reveal_strlit("Expense");
    assert("Income"@.len() == 6);
    assert("Expense"@.len() == 7);
}

/// A text that starts with a line `l` without a line feed, then a line feed,
/// has `l` as its first line, without a carriage return at its end, and the
/// rest after it.
pub proof fn lemma_first_line_joined(l: Seq<char>, rest: Seq<char>)
    requires
        free_of(l, '\n'),
    ensures
        first_line(l + seq!['\n'] + rest) == strip_cr(l),
        after_first_line(l + seq!['\n'] + rest) == rest,
{
    lemma_cut_joined(l, '\n', rest);
}

/// A comment line at the start of a text adds no entry.
proof fn lemma_skip_comment(comment: Seq<char>, rest: Seq<char>)
    requires
        comment.len() > 1,
        comment[0] == '#',
        comment.last() == '\n',
        free_of(comment.drop_last(), '\n'),
    ensures
        parse_text(comment + rest) == parse_text(rest),
{
    let l = comment.drop_last();
    assert(comment + rest =~= l + seq!['\n'] + rest);
    lemma_first_line_joined(l, rest);
    lemma_parse_text_step(comment + rest);
    assert(is_comment(strip_cr(l))) by {
        assert(l[0] == '#');
        if l.len() == 1 {
            assert(l.last() == '#');
        } else {
            assert(strip_cr(l)[0] == l[0]);
        }
    }
}

/// The digits of an id hold no comma and no line feed, start with a digit,
/// and are read back as that id.
proof fn lemma_id_field(id: nat)
    requires
        id <= u32::MAX,
    ensures
        free_of(decimal_digits(id), ','),
        free_of(decimal_digits(id), '\n'),
        decimal_digits(id).len() > 0,
        is_digit(decimal_digits(id)[0]),
        parse_unsigned(decimal_digits(id), u32::MAX as nat) == Some(id),
{
    let d = decimal_digits(id);
    lemma_decimal_digits(id);
    assert(is_digit(d[0]));
    assert forall|i: int| 0 <= i < d.len() implies d[i] != ',' && d[i] != '\n' by {
        assert(is_digit(d[i]));
    }
}

/// The text of an amount holds no comma and no line feed and is read back as
/// that amount.
proof fn lemma_amount_field(a: i64)
    ensures
        free_of(amount_text(a as int), ','),
        free_of(amount_text(a as int), '\n'),
        parse_amount(amount_text(a as int)) == Some(a),
{
    let s = amount_text(a as int);
    lemma_amount_text_chars(a);
    lemma_amount_round_trip(a);
    assert forall|i: int| 0 <= i < s.len() implies s[i] != ',' && s[i] != '\n' by {
        let c = s[i];
        assert(c == '-' || c == '.' || is_digit(c));
    }
}

/// Five fields joined by commas, as a line.
pub open spec fn joined_fields(
    id_field: Seq<char>,
    type_field: Seq<char>,
    amount_field: Seq<char>,
    category: Seq<char>,
    description: Seq<char>,
) -> Seq<char> {
    id_field + seq![','] + (type_field + seq![','] + (amount_field + seq![','] + (category + seq![
        ',',
    ] + description)))
}

/// A line of five fields joined by commas, whose first four fields hold no
/// comma and which starts neither with `#` nor with white space, is read as
/// those five fields.
proof fn lemma_parse_joined(
    id_field: Seq<char>,
    type_field: Seq<char>,
    amount_field: Seq<char>,
    category: Seq<char>,
    description: Seq<char>,
)
    requires
        free_of(id_field, ','),
        free_of(type_field, ','),
        free_of(amount_field, ','),
        free_of(category, ','),
        id_field.len() > 0,
        id_field[0] != '#',
        !is_space(id_field[0]),
    ensures
        parse_line(joined_fields(id_field, type_field, amount_field, category, description))
            == entry_of_fields(id_field, type_field, amount_field, category, description),
{
    let comma = seq![','];
    let after_amount = category + comma + description;
    let after_type = amount_field + comma + after_amount;
    let after_id = type_field + comma + after_type;
    let line = joined_fields(id_field, type_field, amount_field, category, description);
    lemma_cut_joined(id_field, ',', after_id);
    lemma_cut_joined(type_field, ',', after_type);
    lemma_cut_joined(amount_field, ',', after_amount);
    lemma_cut_joined(category, ',', description);
    assert(line[0] == id_field[0]);
    assert(!is_blank(line)) by {
        assert(!is_space(line[0]));
    }
}

/// Two sequences without `c`, joined, hold no `c`.
proof fn lemma_free_of_joined(a: Seq<char>, b: Seq<char>, c: char)
    requires
        free_of(a, c),
        free_of(b, c),
    ensures
        free_of(a + b, c),
{
    assert forall|i: int| 0 <= i < (a + b).len() implies (a + b)[i] != c by {
        if i < a.len() {
            assert((a + b)[i] == a[i]);
        } else {
            assert((a + b)[i] == b[i - a.len()]);
        }
    }
}

/// Five fields without line feed, joined by commas, hold no line feed.
proof fn lemma_joined_one_line(
    id_field: Seq<char>,
    type_field: Seq<char>,
    amount_field: Seq<char>,
    category: Seq<char>,
    description: Seq<char>,
)
    requires
        free_of(id_field, '\n'),
        free_of(type_field, '\n'),
        free_of(amount_field, '\n'),
        free_of(category, '\n'),
        free_of(description, '\n'),
    ensures
        free_of(
            joined_fields(id_field, type_field, amount_field, category, description),
            '\n',
        ),
{
    let comma = seq![','];
    lemma_free_of_joined(category, comma, '\n');
    lemma_free_of_joined(category + comma, description, '\n');
    let after_amount = category + comma + description;
    lemma_free_of_joined(amount_field, comma, '\n');
    lemma_free_of_joined(amount_field + comma, after_amount, '\n');
    let after_type = amount_field + comma + after_amount;
    lemma_free_of_joined(type_field, comma, '\n');
    lemma_free_of_joined(type_field + comma, after_type, '\n');
    let after_id = type_field + comma + after_type;
    lemma_free_of_joined(id_field, comma, '\n');
    lemma_free_of_joined(id_field + comma, after_id, '\n');
}

/// The stored line of an entry is its five fields joined by commas.
proof fn lemma_storage_line_joined(t: TransactionView)
    ensures
        storage_line(t) == joined_fields(
            decimal_digits(t.id),
            type_word(t.transaction_type),
            amount_text(t.amount),
            t.category,
            t.description,
        ),
{
    reveal_strlit(",");
    assert(","@ =~= seq![',']);
    assert(storage_line(t) =~= joined_fields(
        decimal_digits(t.id),
        type_word(t.transaction_type),
        amount_text(t.amount),
        t.category,
        t.description,
    ));
}

/// The stored line of a storable entry holds no line feed, does not end in a
/// carriage return, and is read back as that entry.
pub proof fn lemma_line_round_trip(t: TransactionView)
    requires
        storable(t),
    ensures
        parse_line(storage_line(t)) == Some(t),
        free_of(storage_line(t), '\n'),
        strip_cr(storage_line(t)) == storage_line(t),
{
    let id_field = decimal_digits(t.id);
    let word = type_word(t.transaction_type);
    let amount_field = amount_text(t.amount);
    let line = storage_line(t);
    lemma_storage_line_joined(t);
    lemma_id_field(t.id);
    lemma_type_word(t.transaction_type);
    lemma_amount_field(t.amount as i64);
    lemma_parse_joined(id_field, word, amount_field, t.category, t.description);
    lemma_joined_one_line(id_field, word, amount_field, t.category, t.description);
    assert(line.last() != '\r') by {
        if t.description.len() > 0 {
            assert(line.last() == t.description.last());
        } else {
            assert(line.last() == ',');
        }
    }
}

/// The stored lines of entries start with the line of the first entry.
proof fn lemma_storage_body_front(records: Seq<TransactionView>)
    requires
        records.len() > 0,
    ensures
        storage_body(records) == storage_line(records[0]) + seq!['\n'] + storage_body(
            records.drop_first(),
        ),
    decreases records.len(),
{
    reveal_strlit("\n");
    assert("\n"@ =~= seq!['\n']);
    let front = records.drop_last();
    if front.len() == 0 {
        assert(records.drop_first() =~= Seq::<TransactionView>::empty());
        assert(storage_body(front) =~= Seq::<char>::empty());
        assert(storage_body(records) =~= storage_line(records[0]) + seq!['\n'] + Seq::<
            char,
        >::empty());
    } else {
        lemma_storage_body_front(front);
        let tail = records.drop_first();
        assert(tail.drop_last() =~= front.drop_first());
        assert(tail.last() == records.last());
        assert(front[0] == records[0]);
        assert(storage_body(records) =~= storage_line(records[0]) + seq!['\n'] + (storage_body(
            tail.drop_last(),
        ) + storage_line(tail.last()) + "\n"@));
    }
}

/// A text that starts with a line that stores an entry holds that entry
/// first, and then the entries of the rest.
proof fn lemma_parse_text_with_line(l: Seq<char>, rest: Seq<char>, t: TransactionView)
    requires
        free_of(l, '\n'),
        strip_cr(l) == l,
        parse_line(l) == Some(t),
    ensures
        parse_text(l + seq!['\n'] + rest) == seq![t] + parse_text(rest),
{
    let text = l + seq!['\n'] + rest;
    lemma_first_line_joined(l, rest);
    assert(text.len() > 0);
    lemma_parse_text_step(text);
}

/// Reading the stored lines of storable entries gives the entries back.
proof fn lemma_body_round_trip(records: Seq<TransactionView>)
    requires
        all_storable(records),
    ensures
        parse_text(storage_body(records)) == records,
    decreases records.len(),
{
    if records.len() == 0 {
        assert(storage_body(records) =~= Seq::<char>::empty());
        assert(lines(Seq::<char>::empty()) =~= Seq::<Seq<char>>::empty());
        assert(parse_text(Seq::<char>::empty()) =~= Seq::<TransactionView>::empty());
        assert(records =~= Seq::<TransactionView>::empty());
    } else {
        let t = records[0];
        let tail = records.drop_first();
        assert(storable(t));
        assert(all_storable(tail)) by {
            assert forall|i: int| 0 <= i < tail.len() implies storable(#[trigger] tail[i]) by {
                assert(tail[i] == records[i + 1]);
            }
        }
        lemma_body_round_trip(tail);
        lemma_storage_body_front(records);
        lemma_line_round_trip(t);
        lemma_parse_text_with_line(storage_line(t), storage_body(tail), t);
        assert(seq![t] + tail =~= records);
    }
}

/// Writing storable entries and reading the text again gives the same
/// entries, in the same order.
pub proof fn lemma_round_trip(records: Seq<TransactionView>)
    requires
        all_storable(records),
    ensures
        parse_text(storage_text(records)) == records,
{
    reveal_strlit("# Personal Finance Tracker Data\n");
    reveal_strlit("# Format: ID,Type,Amount,Category,Description\n");
    let t = title_line();
    let f = format_line();
    let body = storage_body(records);
    assert(t.len() == 32 && t[31] == '\n' && t[0] == '#');
    assert(free_of(t.drop_last(), '\n'));
    assert(f.len() == 46 && f[45] == '\n' && f[0] == '#');
    assert(free_of(f.drop_last(), '\n'));
    assert(t + f + body =~= t + (f + body));
    lemma_skip_comment(t, f + body);
    lemma_skip_comment(f, body);
    lemma_body_round_trip(records);
}

/// A text that is empty or ends in a line feed: a run of whole lines.
pub open spec fn whole_lines(text: Seq<char>) -> bool {
    text.len() == 0 || text.last() == '\n'
}

/// The entries of a run of whole lines followed by more text are the entries
/// of the one and then those of the other.
pub proof fn lemma_parse_text_joined(head: Seq<char>, tail: Seq<char>)
    requires
        whole_lines(head),
    ensures
        parse_text(head + tail) == parse_text(head) + parse_text(tail),
    decreases head.len(),
{
    if head.len() == 0 {
        assert(head + tail =~= tail);
        assert(lines(head) =~= Seq::<Seq<char>>::empty());
        assert(parse_text(head) + parse_text(tail) =~= parse_text(tail));
    } else {
        let text = head + tail;
        lemma_first_index_bound(head, '\n');
        let i = first_index(head, '\n');
        assert(i < head.len()) by {
            if i >= head.len() {
                assert(head[head.len() - 1] != '\n');
            }
        }
        assert forall|j: int| 0 <= j < i implies text[j] != '\n' by {
            assert(text[j] == head[j]);
        }
        assert(text[i as int] == head[i as int]);
        lemma_first_index_is(text, '\n', i as int);
        assert(text.take(i as int) =~= head.take(i as int));
        assert(first_line(text) == first_line(head));
        let rest = after_first_line(head);
        assert(after_first_line(text) =~= rest + tail);
        assert(whole_lines(rest)) by {
            if rest.len() > 0 {
                assert(rest.last() == head.last());
            }
        }
        lemma_parse_text_joined(rest, tail);
        lemma_parse_text_step(text);
        lemma_parse_text_step(head);
        match parse_line(first_line(head)) {
            Some(t) => {
                assert(seq![t] + (parse_text(rest) + parse_text(tail)) =~= (seq![t] + parse_text(
                    rest,
                )) + parse_text(tail));
            },
            None => {},
        }
    }
}

/// A line with fewer than five fields adds no entry, wherever it stands:
/// the text with the line holds the entries of the text without it.
pub proof fn lemma_short_line_adds_nothing(head: Seq<char>, line: Seq<char>, tail: Seq<char>)
    requires
        whole_lines(head),
        free_of(line, '\n'),
        count_char(line, ',') < 4,
    ensures
        parse_text(head + (line + seq!['\n'] + tail)) == parse_text(head + tail),
{
    let stripped = strip_cr(line);
    assert(count_char(stripped, ',') < 4) by {
        if stripped != line {
            assert(count_char(line, ',') >= count_char(line.drop_last(), ','));
        }
    }
    lemma_short_line_rejected(stripped);
    lemma_first_line_joined(line, tail);
    lemma_parse_text_step(line + seq!['\n'] + tail);
    lemma_parse_text_joined(head, line + seq!['\n'] + tail);
    lemma_parse_text_joined(head, tail);
}

/// A line with fewer than five fields, that is with fewer than four commas,
/// stores no entry.
pub proof fn lemma_short_line_rejected(line: Seq<char>)
    requires
        count_char(line, ',') < 4,
    ensures
        parse_line(line) is None,
{
    lemma_count_after_cut(line, ',');
    if let Some((_, after_id)) = cut(line, ',') {
        lemma_count_after_cut(after_id, ',');
        if let Some((_, after_type)) = cut(after_id, ',') {
            lemma_count_after_cut(after_type, ',');
            if let Some((_, after_amount)) = cut(after_type, ',') {
                lemma_count_after_cut(after_amount, ',');
            }
        }
    }
}

} // verus!
