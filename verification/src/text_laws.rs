//! What building strings promises as a whole.

use vstd::prelude::*;

use crate::clock::{clock_text, two_digits};
use crate::columns::{char_columns, columns, lemma_columns_concat};
use crate::text::{
    decimal, first_line_len, indented, is_blank, is_white, joined, repeated, trimmed_end,
};

verus! {

/// The number that decimal digits stand for.
pub open spec fn number(s: Seq<char>) -> int
    decreases s.len(),
{
    if s.len() == 0 {
        0
    } else {
        10 * number(s.drop_last()) + (s.last() as int - 48)
    }
}

/// A number in decimal notation reads as that number: it consists of digits, and does not start
/// with a zero unless it is one.
pub proof fn law_decimal_reads_as_number(n: nat)
    ensures
        number(decimal(n)) == n,
        decimal(n).len() > 0,
        forall|i: int| 0 <= i < decimal(n).len() ==> '0' <= #[trigger] decimal(n)[i] <= '9',
        decimal(n)[0] == '0' ==> n == 0,
    decreases n,
{
    reveal_with_fuel(number, 2);
    if n < 10 {
        assert(decimal(n).drop_last() =~= Seq::empty());
    } else {
        law_decimal_reads_as_number(n / 10);
        assert(decimal(n).drop_last() =~= decimal(n / 10));
        assert(decimal(n)[0] == decimal(n / 10)[0]);
    }
}

/// A character that is repeated `n` times stands at `n` places, and nothing else does.
pub proof fn law_repeated_character(c: char, n: nat)
    ensures
        repeated(c, n).len() == n,
        forall|i: int| 0 <= i < n ==> #[trigger] repeated(c, n)[i] == c,
{
}

/// The first part comes first, and behind it, if there are more, the separator and the others.
pub proof fn law_joined_from_the_front(parts: Seq<Seq<char>>, separator: Seq<char>)
    ensures
        parts.len() == 0 ==> joined(parts, separator) == Seq::<char>::empty(),
        parts.len() == 1 ==> joined(parts, separator) == parts[0],
        parts.len() > 1 ==> joined(parts, separator) == parts[0] + separator + joined(
            parts.drop_first(),
            separator,
        ),
    decreases parts.len(),
{
    if parts.len() == 1 {
        assert(joined(parts.drop_last(), separator) =~= Seq::empty());
        assert(joined(parts, separator) =~= parts[0]);
    } else if parts.len() > 1 {
        let before = parts.drop_last();
        law_joined_from_the_front(before, separator);
        assert(parts.drop_first().drop_last() =~= before.drop_first());
        assert(before[0] == parts[0]);
        let rest = joined(parts.drop_first(), separator);
        assert(joined(parts, separator) == joined(before, separator) + separator + parts.last());
        if parts.len() == 2 {
            assert(joined(parts.drop_first().drop_last(), separator) =~= Seq::empty());
            assert(joined(parts, separator) =~= parts[0] + separator + rest);
        } else {
            assert(rest == joined(before.drop_first(), separator) + separator + parts.last());
            assert(joined(parts, separator) =~= parts[0] + separator + rest);
        }
    }
}

/// Parts that are joined without a separator follow each other directly.
pub proof fn law_joined_without_separator(parts: Seq<Seq<char>>)
    ensures
        joined(parts, Seq::empty()) == parts.flatten(),
    decreases parts.len(),
{
    law_joined_from_the_front(parts, Seq::empty());
    if parts.len() > 0 {
        law_joined_without_separator(parts.drop_first());
        if parts.len() == 1 {
            assert(parts.drop_first() =~= Seq::empty());
            assert(parts.drop_first().flatten() =~= Seq::empty());
        }
        assert(joined(parts, Seq::empty()) =~= parts.flatten());
    }
}

/// No part gets lost when parts are joined.
pub proof fn law_every_part_is_joined(parts: Seq<Seq<char>>, separator: Seq<char>, i: int) -> (r: (
    Seq<char>,
    Seq<char>,
))
    requires
        0 <= i < parts.len(),
    ensures
        joined(parts, separator) == r.0 + parts[i] + r.1,
    decreases parts.len(),
{
    let rest = if parts.len() > 1 {
        separator
    } else {
        Seq::empty()
    };
    let before = joined(parts.drop_last(), separator);
    if i == parts.len() - 1 {
        assert(joined(parts, separator) =~= before + rest + parts[i] + Seq::empty());
        (before + rest, Seq::empty())
    } else {
        let (a, b) = law_every_part_is_joined(parts.drop_last(), separator, i);
        assert(joined(parts, separator) =~= a + parts[i] + (b + rest + parts.last()));
        (a, b + rest + parts.last())
    }
}

/// A line that can be seen gets the whole prefix; of one that is blank, the prefix loses the white
/// space at its end.
pub proof fn law_one_line_is_indented(s: Seq<char>, prefix: Seq<char>)
    requires
        s.len() > 0,
        !s.contains('\n'),
    ensures
        (exists|i: int| 0 <= i < s.len() && !is_white(#[trigger] s[i])) ==> indented(s, prefix)
            == prefix + s,
        (forall|i: int| 0 <= i < s.len() ==> is_white(#[trigger] s[i])) ==> indented(s, prefix)
            == trimmed_end(prefix) + s,
{
    lemma_one_line(s);
    assert(s.take(s.len() as int) =~= s);
    assert(indented(s, prefix) =~= (if is_blank(s) {
        trimmed_end(prefix)
    } else {
        prefix
    }) + s);
}

/// What is left of a text without the white space at its end: a beginning of it, behind which only
/// white space comes, and which does not end with any.
pub proof fn law_trimmed_end(s: Seq<char>)
    ensures
        trimmed_end(s).is_prefix_of(s),
        trimmed_end(s).len() > 0 ==> !is_white(trimmed_end(s).last()),
        forall|i: int| trimmed_end(s).len() <= i < s.len() ==> is_white(#[trigger] s[i]),
    decreases s.len(),
{
    if s.len() > 0 && is_white(s.last()) {
        law_trimmed_end(s.drop_last());
        let t = trimmed_end(s.drop_last());
        assert(t =~= s.take(t.len() as int));
        assert forall|i: int| t.len() <= i < s.len() implies is_white(#[trigger] s[i]) by {
            if i < s.len() - 1 {
                assert(s.drop_last()[i] == s[i]);
            }
        }
    } else {
        assert(s =~= s.take(s.len() as int));
    }
}

pub(crate) proof fn lemma_one_line(s: Seq<char>)
    requires
        !s.contains('\n'),
    ensures
        first_line_len(s) == s.len(),
    decreases s.len(),
{
    if s.len() > 0 {
        assert(s.contains(s[0]));
        assert(!s.drop_first().contains('\n')) by {
            assert(forall|i: int|
                0 <= i < s.len() - 1 ==> #[trigger] s.drop_first()[i] == s[i + 1]);
        }
        lemma_one_line(s.drop_first());
    }
}

/// The width of a text is that of its characters, one after the other; control characters take no
/// column.
pub proof fn law_columns_add_up(s: Seq<char>, c: char)
    ensures
        columns(Seq::<char>::empty()) == 0,
        columns(s.push(c)) == columns(s) + (match char_columns(c) {
            Some(n) => n as nat,
            None => 0,
        }),
        columns(seq![c] + s) == columns(s.push(c)),
{
    assert(s.push(c).drop_last() =~= s);
    lemma_columns_concat(seq![c], s);
    assert(seq![c] =~= Seq::<char>::empty().push(c));
    assert(Seq::<char>::empty().push(c).drop_last() =~= Seq::<char>::empty());
    reveal_with_fuel(columns, 2);
}

/// A clock shows the hours and the minutes of the day, with two digits each.
pub proof fn law_clock_shows_the_time(second: nat)
    requires
        second < 86_400,
    ensures
        clock_text(second).len() == 6,
        number(clock_text(second).subrange(0, 2)) == second / 3600,
        clock_text(second)[2] == ':',
        number(clock_text(second).subrange(3, 5)) == second / 60 % 60,
        clock_text(second)[5] == ' ',
{
    lemma_two_digits(second / 3600);
    lemma_two_digits(second / 60 % 60);
    let text = clock_text(second);
    assert(text.subrange(0, 2) =~= two_digits(second / 3600));
    assert(text.subrange(3, 5) =~= two_digits(second / 60 % 60));
}

pub(crate) proof fn lemma_two_digits(n: nat)
    requires
        n < 100,
    ensures
        number(two_digits(n)) == n,
{
    let s = two_digits(n);
    reveal_with_fuel(number, 3);
    assert(s.drop_last().drop_last() =~= Seq::empty());
}

} // verus!
