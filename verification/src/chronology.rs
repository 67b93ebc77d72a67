//! Proof that identifiers sort as the moments they name, and that an
//! identifier reads back as the moment it was written for.

use crate::identifier::{
    days_before_month, days_before_year, digit_char, digits, identifier_of,
    lemma_days_before_month_grows, lemma_days_before_year_grows, lemma_digits_shape,
    lemma_identifier_shape, lemma_months_fill_year, moment_of, number, DateTime,
};
use vstd::prelude::*;

verus! {

/// Whether `a` and `b` agree before position `k` and `a` has the smaller
/// character there.
pub open spec fn precedes_at(a: Seq<char>, b: Seq<char>, k: int) -> bool {
    &&& 0 <= k < a.len()
    &&& k < b.len()
    &&& a.take(k) == b.take(k)
    &&& a[k] < b[k]
}

/// Whether `a` comes before `b` in the order of a dictionary: `a` is a
/// proper prefix of `b`, or has the smaller character where the two first
/// differ.
pub open spec fn lex_less(a: Seq<char>, b: Seq<char>) -> bool {
    (a.len() < b.len() && b.take(a.len() as int) == a) || exists|k: int| precedes_at(a, b, k)
}

/// The least number that `width` digits cannot write.
pub open spec fn limit(width: nat) -> int
    decreases width,
{
    if width == 0 {
        1
    } else {
        10 * limit((width - 1) as nat)
    }
}

/// Of two numbers written with the same number of digits, the smaller has
/// the smaller digit where the two first differ.
proof fn lemma_digits_order(x: int, y: int, width: nat) -> (k: int)
    requires
        0 <= x < y < limit(width),
    ensures
        precedes_at(digits(x, width), digits(y, width), k),
    decreases width,
{
    lemma_digits_shape(x, width);
    lemma_digits_shape(y, width);
    let a = digits(x, width);
    let b = digits(y, width);
    let shorter = (width - 1) as nat;
    if x / 10 < y / 10 {
        let k = lemma_digits_order(x / 10, y / 10, shorter);
        lemma_digits_shape(x / 10, shorter);
        lemma_digits_shape(y / 10, shorter);
        assert(a.take(k) == digits(x / 10, shorter).take(k));
        assert(b.take(k) == digits(y / 10, shorter).take(k));
        k
    } else {
        assert(x / 10 == y / 10);
        assert(x % 10 < y % 10);
        let k = width - 1;
        lemma_digits_shape(x / 10, shorter);
        assert(a.take(k) == digits(x / 10, shorter));
        assert(b.take(k) == digits(y / 10, shorter));
        assert(a[k] == digit_char(x % 10));
        assert(b[k] == digit_char(y % 10));
        k
    }
}

/// Digits read back as the number they were written for.
proof fn lemma_number_of_digits(n: int, width: nat)
    requires
        0 <= n < limit(width),
    ensures
        number(digits(n, width)) == n,
    decreases width,
{
    if width > 0 {
        let shorter = (width - 1) as nat;
        lemma_number_of_digits(n / 10, shorter);
        let s = digits(n, width);
        assert(s.drop_last() == digits(n / 10, shorter));
        assert(s.last() == digit_char(n % 10));
    }
}

/// Text that differs first in one field sorts as that field does.
proof fn lemma_field_decides(
    before: Seq<char>,
    x: Seq<char>,
    y: Seq<char>,
    after_x: Seq<char>,
    after_y: Seq<char>,
    k: int,
)
    requires
        precedes_at(x, y, k),
    ensures
        lex_less(before + x + after_x, before + y + after_y),
{
    let a = before + x + after_x;
    let b = before + y + after_y;
    let at = before.len() + k;
    assert(a[at] == x[k]);
    assert(b[at] == y[k]);
    assert forall|i: int| 0 <= i < at implies a.take(at)[i] == b.take(at)[i] by {
        if i >= before.len() {
            assert(x.take(k)[i - before.len()] == y.take(k)[i - before.len()]);
        }
    }
    assert(a.take(at) == b.take(at));
    assert(precedes_at(a, b, at));
}

proof fn lemma_limits()
    ensures
        limit(2) == 100,
        limit(4) == 10000,
{
    reveal_with_fuel(limit, 5);
}

/// Identifiers sort as the moments they name: of two moments, the
/// identifier of the earlier comes first in the order of a dictionary.
pub proof fn lemma_identifiers_sort_as_moments(a: DateTime, b: DateTime)
    requires
        a.is_valid(),
        b.is_valid(),
        a.is_before(b),
    ensures
        lex_less(identifier_of(a), identifier_of(b)),
{
    lemma_limits();
    let t = seq!['T'];
    let (ya, ma, da) = (digits(a.year, 4), digits(a.month, 2), digits(a.day, 2));
    let (ha, ia, sa) = (digits(a.hour, 2), digits(a.minute, 2), digits(a.second, 2));
    let (yb, mb, db) = (digits(b.year, 4), digits(b.month, 2), digits(b.day, 2));
    let (hb, ib, sb) = (digits(b.hour, 2), digits(b.minute, 2), digits(b.second, 2));
    let none = Seq::<char>::empty();
    if a.year < b.year {
        let k = lemma_digits_order(a.year, b.year, 4);
        lemma_field_decides(none, ya, yb, ma + da + t + ha + ia + sa, mb + db + t + hb + ib + sb, k);
        assert(identifier_of(a) == none + ya + (ma + da + t + ha + ia + sa));
        assert(identifier_of(b) == none + yb + (mb + db + t + hb + ib + sb));
    } else if a.month < b.month {
        let k = lemma_digits_order(a.month, b.month, 2);
        lemma_field_decides(ya, ma, mb, da + t + ha + ia + sa, db + t + hb + ib + sb, k);
        assert(identifier_of(a) == ya + ma + (da + t + ha + ia + sa));
        assert(identifier_of(b) == ya + mb + (db + t + hb + ib + sb));
    } else if a.day < b.day {
        let k = lemma_digits_order(a.day, b.day, 2);
        lemma_field_decides(ya + ma, da, db, t + ha + ia + sa, t + hb + ib + sb, k);
        assert(identifier_of(a) == ya + ma + da + (t + ha + ia + sa));
        assert(identifier_of(b) == ya + ma + db + (t + hb + ib + sb));
    } else if a.hour < b.hour {
        let k = lemma_digits_order(a.hour, b.hour, 2);
        lemma_field_decides(ya + ma + da + t, ha, hb, ia + sa, ib + sb, k);
        assert(identifier_of(a) == ya + ma + da + t + ha + (ia + sa));
        assert(identifier_of(b) == ya + ma + da + t + hb + (ib + sb));
    } else if a.minute < b.minute {
        let k = lemma_digits_order(a.minute, b.minute, 2);
        lemma_field_decides(ya + ma + da + t + ha, ia, ib, sa, sb, k);
    } else {
        let k = lemma_digits_order(a.second, b.second, 2);
        lemma_field_decides(ya + ma + da + t + ha + ia, sa, sb, none, none, k);
        assert(identifier_of(a) == ya + ma + da + t + ha + ia + sa + none);
        assert(identifier_of(b) == ya + ma + da + t + ha + ia + sb + none);
    }
}

/// An identifier reads back as the moment it was written for.
pub proof fn lemma_identifier_reads_back(moment: DateTime)
    requires
        moment.is_valid(),
    ensures
        moment_of(identifier_of(moment)) == Some(moment),
{
    lemma_limits();
    lemma_identifier_shape(moment);
    let s = identifier_of(moment);
    lemma_digits_shape(moment.year, 4);
    lemma_digits_shape(moment.month, 2);
    lemma_digits_shape(moment.day, 2);
    lemma_digits_shape(moment.hour, 2);
    lemma_digits_shape(moment.minute, 2);
    lemma_digits_shape(moment.second, 2);
    assert(s.subrange(0, 4) == digits(moment.year, 4));
    assert(s.subrange(4, 6) == digits(moment.month, 2));
    assert(s.subrange(6, 8) == digits(moment.day, 2));
    assert(s.subrange(9, 11) == digits(moment.hour, 2));
    assert(s.subrange(11, 13) == digits(moment.minute, 2));
    assert(s.subrange(13, 15) == digits(moment.second, 2));
    lemma_number_of_digits(moment.year, 4);
    lemma_number_of_digits(moment.month, 2);
    lemma_number_of_digits(moment.day, 2);
    lemma_number_of_digits(moment.hour, 2);
    lemma_number_of_digits(moment.minute, 2);
    lemma_number_of_digits(moment.second, 2);
}

/// The number of days from the start of 1970 to the day of a moment.
spec fn day_number(moment: DateTime) -> int {
    days_before_year(moment.year) + days_before_month(moment.year, moment.month) + moment.day - 1
}

proof fn lemma_day_number_grows(a: DateTime, b: DateTime)
    requires
        a.is_valid(),
        b.is_valid(),
        1970 <= a.year,
        a.year < b.year || (a.year == b.year && (a.month < b.month || (a.month == b.month && a.day
            < b.day))),
    ensures
        day_number(a) < day_number(b),
{
    lemma_months_fill_year(a.year);
    lemma_days_before_month_grows(a.year, a.month, 13);
    lemma_days_before_month_grows(b.year, 1, b.month);
    if a.year < b.year {
        lemma_days_before_year_grows(a.year, b.year);
    } else if a.month < b.month {
        lemma_days_before_month_grows(a.year, a.month, b.month);
    }
}

/// Of two moments since 1970, the earlier is fewer seconds away from the
/// start of 1970.
pub proof fn lemma_seconds_grow(a: DateTime, b: DateTime)
    requires
        a.is_valid(),
        b.is_valid(),
        1970 <= a.year,
        1970 <= b.year,
    ensures
        a.is_before(b) <==> a.unix_seconds() < b.unix_seconds(),
{
    let same_day = a.year == b.year && a.month == b.month && a.day == b.day;
    let earlier_day = a.year < b.year || (a.year == b.year && (a.month < b.month || (a.month
        == b.month && a.day < b.day)));
    let later_day = b.year < a.year || (a.year == b.year && (b.month < a.month || (a.month
        == b.month && b.day < a.day)));
    if earlier_day {
        lemma_day_number_grows(a, b);
    } else if later_day {
        lemma_day_number_grows(b, a);
    } else {
        assert(same_day);
    }
}

/// Identifiers that are written one second apart, or more, sort as they
/// were written.
pub proof fn lemma_identifiers_sort_as_seconds(a: DateTime, b: DateTime)
    requires
        a.is_valid(),
        b.is_valid(),
        1970 <= a.year,
        1970 <= b.year,
        a.unix_seconds() < b.unix_seconds(),
    ensures
        lex_less(identifier_of(a), identifier_of(b)),
{
    lemma_seconds_grow(a, b);
    lemma_identifiers_sort_as_moments(a, b);
}

} // verus!
