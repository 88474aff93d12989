//! Character-sequence helpers shared by the formatting and parsing code.
//!
//! Text is modelled as `Seq<char>`. Executable code scans a `Vec<char>` by
//! index and names a piece of it by a half-open range `[from, to)`.

use vstd::prelude::*;

verus! {

/// Position of the first `c` in `s`, or `s.len()` when `s` holds no `c`.
pub open spec fn first_index(s: Seq<char>, c: char) -> nat
    decreases s.len(),
{
    if s.len() == 0 {
        0
    } else if s[0] == c {
        0
    } else {
        1 + first_index(s.drop_first(), c)
    }
}

/// The number of occurrences of `c` in `s`.
pub open spec fn count_char(s: Seq<char>, c: char) -> nat
    decreases s.len(),
{
    if s.len() == 0 {
        0
    } else {
        count_char(s.drop_last(), c) + if s.last() == c {
            1nat
        } else {
            0nat
        }
    }
}

/// `s` holds no `c`.
pub open spec fn free_of(s: Seq<char>, c: char) -> bool {
    forall|i: int| 0 <= i < s.len() ==> s[i] != c
}

/// Splits `s` at its first `c`: what stands before it and what stands after
/// it. `None` when `s` holds no `c`.
pub open spec fn cut(s: Seq<char>, c: char) -> Option<(Seq<char>, Seq<char>)> {
    let i = first_index(s, c);
    if i < s.len() {
        Some((s.take(i as int), s.skip(i + 1 as int)))
    } else {
        None
    }
}

/// The characters that count as white space: the code points that Unicode
/// marks as `White_Space`.
pub open spec fn is_space(c: char) -> bool {
    let n = c as u32;
    ||| 0x09 <= n <= 0x0D
    ||| n == 0x20
    ||| n == 0x85
    ||| n == 0xA0
    ||| n == 0x1680
    ||| 0x2000 <= n <= 0x200A
    ||| n == 0x2028
    ||| n == 0x2029
    ||| n == 0x202F
    ||| n == 0x205F
    ||| n == 0x3000
}

/// `s` is empty or holds white space only.
pub open spec fn is_blank(s: Seq<char>) -> bool {
    forall|i: int| 0 <= i < s.len() ==> is_space(#[trigger] s[i])
}

/// `s` without its leading and trailing white space.
pub open spec fn trimmed(s: Seq<char>) -> Seq<char>
    decreases s.len(),
{
    if s.len() == 0 {
        s
    } else if is_space(s[0]) {
        trimmed(s.drop_first())
    } else if is_space(s.last()) {
        trimmed(s.drop_last())
    } else {
        s
    }
}

/// `line` without one trailing carriage return, if it ends in one.
pub open spec fn strip_cr(line: Seq<char>) -> Seq<char> {
    if line.len() > 0 && line.last() == '\r' {
        line.drop_last()
    } else {
        line
    }
}

/// The first line of a text that is not empty: what stands before its first
/// line feed, without a carriage return directly before that line feed; the
/// whole text where it holds no line feed.
pub open spec fn first_line(s: Seq<char>) -> Seq<char> {
    let i = first_index(s, '\n');
    if i < s.len() {
        strip_cr(s.take(i as int))
    } else {
        s
    }
}

/// What follows the first line feed of a text; nothing where it holds none.
pub open spec fn after_first_line(s: Seq<char>) -> Seq<char> {
    let i = first_index(s, '\n');
    if i < s.len() {
        s.skip(i + 1 as int)
    } else {
        Seq::empty()
    }
}

/// The lines of `s`. A line ends at a line feed, which does not belong to it,
/// and a carriage return directly before that line feed does not either. What
/// follows the last line feed is a line of its own unless it is empty.
pub open spec fn lines(s: Seq<char>) -> Seq<Seq<char>>
    decreases s.len(),
{
    if s.len() == 0 {
        Seq::empty()
    } else {
        seq![first_line(s)] + lines(after_first_line(s))
    }
}

/// `first_index` is at most the length.
pub proof fn lemma_first_index_bound(s: Seq<char>, c: char)
    ensures
        first_index(s, c) <= s.len(),
        forall|j: int| 0 <= j < first_index(s, c) ==> s[j] != c,
        first_index(s, c) < s.len() ==> s[first_index(s, c) as int] == c,
    decreases s.len(),
{
    if s.len() > 0 && s[0] != c {
        let t = s.drop_first();
        lemma_first_index_bound(t, c);
        assert forall|j: int| 0 <= j < first_index(s, c) implies s[j] != c by {
            if j > 0 {
                assert(s[j] == t[j - 1]);
            }
        }
    }
}

/// A position that holds `c`, with no `c` before it, is the first index; so is
/// the length where there is no `c` at all.
pub proof fn lemma_first_index_is(s: Seq<char>, c: char, k: int)
    requires
        0 <= k <= s.len(),
        forall|j: int| 0 <= j < k ==> s[j] != c,
        k < s.len() ==> s[k] == c,
    ensures
        first_index(s, c) == k,
    decreases s.len(),
{
    if s.len() > 0 && k > 0 {
        let t = s.drop_first();
        assert forall|j: int| 0 <= j < k - 1 implies t[j] != c by {
            assert(t[j] == s[j + 1]);
        }
        lemma_first_index_is(t, c, k - 1);
    }
}

/// In `a + [c] + b`, where `a` holds no `c`, the first `c` stands at
/// `a.len()`, so `cut` gives back `a` and `b`.
pub proof fn lemma_cut_joined(a: Seq<char>, c: char, b: Seq<char>)
    requires
        free_of(a, c),
    ensures
        first_index(a + seq![c] + b, c) == a.len(),
        cut(a + seq![c] + b, c) == Some((a, b)),
{
    let s = a + seq![c] + b;
    lemma_first_index_is(s, c, a.len() as int);
    assert(s.take(a.len() as int) =~= a);
    assert(s.skip(a.len() + 1 as int) =~= b);
}

/// Counting from the front: the count of a sequence that is not empty is
/// that of its first character and that of the rest.
pub proof fn lemma_count_front(s: Seq<char>, c: char)
    requires
        s.len() > 0,
    ensures
        count_char(s, c) == count_char(s.drop_first(), c) + if s[0] == c {
            1nat
        } else {
            0nat
        },
    decreases s.len(),
{
    if s.len() == 1 {
        assert(s.drop_first() =~= s.drop_last());
    } else {
        lemma_count_front(s.drop_last(), c);
        assert(s.drop_last().drop_first() =~= s.drop_first().drop_last());
    }
}

/// A sequence with no `c` cannot be cut; one that can be cut holds one `c`
/// more than what stands after the cut.
pub proof fn lemma_count_after_cut(s: Seq<char>, c: char)
    ensures
        match cut(s, c) {
            Some((_, after)) => count_char(s, c) >= 1 + count_char(after, c),
            None => count_char(s, c) == 0,
        },
    decreases s.len(),
{
    if s.len() > 0 {
        lemma_count_front(s, c);
        let t = s.drop_first();
        if s[0] == c {
            assert(s.skip(1) =~= t);
        } else {
            lemma_count_after_cut(t, c);
            lemma_first_index_bound(t, c);
            let i = first_index(t, c);
            if i < t.len() {
                assert(s.skip(i + 2 as int) =~= t.skip(i + 1 as int));
            }
        }
    }
}

/// Appends one character to a string.
///
/// Trusted: calls `String::push`, which std documents as appending the given
/// character to the end of the string.
#[verifier::external_body]
pub(crate) fn push_char(s: &mut String, c: char)
    ensures
        final(s)@ == old(s)@.push(c),
{
    s.push(c);
}

/// Copies the characters of a string slice into a vector.
pub fn to_chars(s: &str) -> (v: Vec<char>)
    ensures
        v@ == s@,
{
    let mut v: Vec<char> = Vec::new();
    for c in it: s.chars()
        invariant
            v@ == it.seq().take(it.index() as int),
            it.seq() == s@,
    {
        v.push(c);
    }
    v
}

/// Builds a string from the characters of `v` in `[from, to)`.
pub fn string_of_range(v: &Vec<char>, from: usize, to: usize) -> (s: String)
    requires
        from <= to <= v.len(),
    ensures
        s@ == v@.subrange(from as int, to as int),
{
    let mut s = String::new();
    let mut i: usize = from;
    while i < to
        invariant
            from <= i <= to <= v.len(),
            s@ == v@.subrange(from as int, i as int),
        decreases to - i,
    {
        push_char(&mut s, v[i]);
        i += 1;
        assert(v@.subrange(from as int, i as int) == v@.subrange(from as int, i - 1).push(
            v@[i - 1],
        ));
    }
    s
}

/// Finds the first `c` of `v` in `[from, to)`; the result is `to` when there
/// is none.
pub fn find_char(v: &Vec<char>, from: usize, to: usize, c: char) -> (r: usize)
    requires
        from <= to <= v.len(),
    ensures
        from <= r <= to,
        r - from == first_index(v@.subrange(from as int, to as int), c),
        r < to ==> v@[r as int] == c,
        free_of(v@.subrange(from as int, r as int), c),
{
    let mut i: usize = from;
    while i < to && v[i] != c
        invariant
            from <= i <= to <= v.len(),
            forall|j: int| from <= j < i ==> v@[j] != c,
        decreases to - i,
    {
        i += 1;
    }
    proof {
        lemma_first_index_is(v@.subrange(from as int, to as int), c, i - from);
    }
    i
}

/// Finds the first line of the text that starts at `pos`. The result gives
/// the end of that line and the place where the next line starts.
pub fn next_line(v: &Vec<char>, pos: usize) -> (r: (usize, usize))
    requires
        pos < v.len(),
    ensures
        pos <= r.0 <= r.1 <= v.len(),
        pos < r.1,
        v@.subrange(pos as int, r.0 as int) == first_line(
            v@.subrange(pos as int, v.len() as int),
        ),
        v@.subrange(r.1 as int, v.len() as int) == after_first_line(
            v@.subrange(pos as int, v.len() as int),
        ),
{
    let n: usize = v.len();
    let ghost rest = v@.subrange(pos as int, n as int);
    let end: usize = find_char(v, pos, n, '\n');
    if end < n {
        let line_end: usize = if pos < end && v[end - 1] == '\r' {
            end - 1
        } else {
            end
        };
        proof {
            let whole = rest.take(end - pos);
            assert(whole =~= v@.subrange(pos as int, end as int));
            if pos < end {
                assert(whole.last() == v@[end - 1]);
            }
            assert(strip_cr(whole) =~= v@.subrange(pos as int, line_end as int));
            assert(rest.skip(end - pos + 1) =~= v@.subrange(end + 1, n as int));
        }
        (line_end, end + 1)
    } else {
        assert(v@.subrange(n as int, n as int) =~= Seq::<char>::empty());
        (n, n)
    }
}

/// Whether `c` is a white-space character.
pub fn char_is_space(c: char) -> (b: bool)
    ensures
        b == is_space(c),
{
    let n: u32 = c as u32;
    (0x09 <= n && n <= 0x0D) || n == 0x20 || n == 0x85 || n == 0xA0 || n == 0x1680 || (0x2000 <= n
        && n <= 0x200A) || n == 0x2028 || n == 0x2029 || n == 0x202F || n == 0x205F || n == 0x3000
}

/// Whether the characters of `v` in `[from, to)` are all white space.
pub fn range_is_blank(v: &Vec<char>, from: usize, to: usize) -> (b: bool)
    requires
        from <= to <= v.len(),
    ensures
        b == is_blank(v@.subrange(from as int, to as int)),
{
    let ghost s = v@.subrange(from as int, to as int);
    let mut i: usize = from;
    while i < to
        invariant
            from <= i <= to <= v.len(),
            s == v@.subrange(from as int, to as int),
            forall|j: int| from <= j < i ==> is_space(v@[j]),
        decreases to - i,
    {
        if !char_is_space(v[i]) {
            assert(s[i - from] == v@[i as int]);
            return false;
        }
        i += 1;
    }
    assert forall|j: int| 0 <= j < s.len() implies is_space(#[trigger] s[j]) by {
        assert(s[j] == v@[from + j]);
    }
    true
}

/// The range of `v` within `[from, to)` that is left when leading and
/// trailing white space is taken away.
pub fn trim_range(v: &Vec<char>, from: usize, to: usize) -> (r: (usize, usize))
    requires
        from <= to <= v.len(),
    ensures
        from <= r.0 <= r.1 <= to,
        v@.subrange(r.0 as int, r.1 as int) == trimmed(v@.subrange(from as int, to as int)),
{
    let mut a: usize = from;
    while a < to && char_is_space(v[a])
        invariant
            from <= a <= to <= v.len(),
            trimmed(v@.subrange(a as int, to as int)) == trimmed(
                v@.subrange(from as int, to as int),
            ),
        decreases to - a,
    {
        assert(v@.subrange(a as int, to as int).drop_first() == v@.subrange(a + 1, to as int));
        a += 1;
    }
    let mut b: usize = to;
    while a < b && char_is_space(v[b - 1])
        invariant
            from <= a <= b <= to <= v.len(),
            a < to ==> !is_space(v@[a as int]),
            a == to ==> b == to,
            trimmed(v@.subrange(a as int, b as int)) == trimmed(
                v@.subrange(from as int, to as int),
            ),
        decreases b - a,
    {
        assert(v@.subrange(a as int, b as int).drop_last() == v@.subrange(a as int, b - 1));
        b -= 1;
    }
    (a, b)
}

} // verus!
