//! The UTC timestamp prefixed to the daemon's log lines, computed from the
//! seconds since the Unix epoch in the proleptic Gregorian calendar (no
//! leap seconds).
use crate::text::{decimal, digit_char, is_ascii_digit, push_decimal, push_str, zero_pad};
use vstd::prelude::*;

verus! {

/// Gregorian leap year.
pub open spec fn is_leap(y: int) -> bool {
    (y % 4 == 0 && y % 100 != 0) || y % 400 == 0
}

/// Days in year `y`.
pub open spec fn year_len(y: int) -> int {
    if is_leap(y) {
        366
    } else {
        365
    }
}

/// Days in month `m` (1-12) of year `y`.
pub open spec fn month_len(y: int, m: int) -> int {
    if m == 2 {
        if is_leap(y) {
            29
        } else {
            28
        }
    } else if m == 4 || m == 6 || m == 9 || m == 11 {
        30
    } else {
        31
    }
}

/// Days in the months of year `y` before month `m`.
pub open spec fn days_before_month(y: int, m: int) -> int
    decreases m,
{
    if m <= 1 {
        0
    } else {
        days_before_month(y, m - 1) + month_len(y, m - 1)
    }
}

/// Leap years among years 1 through `n`.
pub open spec fn leaps_through(n: int) -> int {
    n / 4 - n / 100 + n / 400
}

/// Days from 1970-01-01 to January 1st of year `y` (for `y >= 1970`).
pub open spec fn days_to_year(y: int) -> int {
    365 * (y - 1970) + leaps_through(y - 1) - leaps_through(1969)
}

/// `(y, m, d)` is the date `days` days after 1970-01-01.
pub open spec fn is_date_of(days: int, y: int, m: int, d: int) -> bool {
    &&& y >= 1970
    &&& 1 <= m <= 12
    &&& 1 <= d <= month_len(y, m)
    &&& days == days_to_year(y) + days_before_month(y, m) + d - 1
}

proof fn lemma_div4_step(y: int)
    ensures
        y / 4 - (y - 1) / 4 == (if y % 4 == 0 {
            1int
        } else {
            0int
        }),
{
}

proof fn lemma_div100_step(y: int)
    ensures
        y / 100 - (y - 1) / 100 == (if y % 100 == 0 {
            1int
        } else {
            0int
        }),
{
}

proof fn lemma_div400_step(y: int)
    ensures
        y / 400 - (y - 1) / 400 == (if y % 400 == 0 {
            1int
        } else {
            0int
        }),
{
}

proof fn lemma_year_step(y: int)
    requires
        y >= 1970,
    ensures
        days_to_year(y + 1) == days_to_year(y) + year_len(y),
{
    lemma_div4_step(y);
    lemma_div100_step(y);
    lemma_div400_step(y);
    assert(leaps_through(y) - leaps_through(y - 1) == (if is_leap(y) {
        1int
    } else {
        0int
    }));
}

proof fn lemma_four_centuries(c: int)
    requires
        c >= 0,
    ensures
        days_to_year(1970 + 400 * c) == 146097 * c,
{
    assert((1969 + 400 * c) / 4 == 1969int / 4 + 100 * c);
    assert((1969 + 400 * c) / 100 == 1969int / 100 + 4 * c);
    assert((1969 + 400 * c) / 400 == 1969int / 400 + c);
}

proof fn lemma_months_fill_year(y: int)
    ensures
        days_before_month(y, 13) == year_len(y),
        forall|m: int| 1 <= m <= 12 ==> #[trigger] days_before_month(y, m) + month_len(y, m)
            == days_before_month(y, m + 1),
{
    reveal_with_fuel(days_before_month, 13);
}

/// The date `days` days after 1970-01-01.
pub fn civil_from_days(days: u64) -> (r: (u64, u64, u64))
    requires
        days <= 1_000_000_000_000_000,
    ensures
        is_date_of(days as int, r.0 as int, r.1 as int, r.2 as int),
{
    let cycles = days / 146097;
    let mut rem = days % 146097;
    let base: u64 = 1970 + 400 * cycles;
    let mut y: u64 = base;
    proof {
        lemma_four_centuries(cycles as int);
    }
    while rem >= year_days(y)
        invariant
            base == 1970 + 400 * cycles,
            cycles <= 1_000_000_000_000_000u64 / 146097,
            base <= y,
            days as int == days_to_year(y as int) + rem,
            days_to_year(base as int) + 146097 > days as int,
            days_to_year(y as int) - days_to_year(base as int) >= 365 * (y - base),
        decreases rem,
    {
        proof {
            lemma_year_step(y as int);
        }
        rem = rem - year_days(y);
        y = y + 1;
    }
    proof {
        lemma_months_fill_year(y as int);
    }
    let mut m: u64 = 1;
    while rem >= month_days(y, m)
        invariant
            1 <= m <= 12,
            y >= 1970,
            days as int == days_to_year(y as int) + days_before_month(y as int, m as int) + rem,
            days_before_month(y as int, m as int) + rem < year_len(y as int),
            days_before_month(y as int, 13) == year_len(y as int),
            forall|k: int| 1 <= k <= 12 ==> #[trigger] days_before_month(y as int, k) + month_len(
                y as int,
                k,
            ) == days_before_month(y as int, k + 1),
        decreases 12 - m,
    {
        rem = rem - month_days(y, m);
        m = m + 1;
        if m > 12 {
            proof {
                assert(false);
            }
        }
    }
    (y, m, rem + 1)
}

/// Days in year `y`.
pub fn year_days(y: u64) -> (n: u64)
    ensures
        n == year_len(y as int),
{
    if is_leap_year(y) {
        366
    } else {
        365
    }
}

/// Whether `y` is a leap year.
pub fn is_leap_year(y: u64) -> (b: bool)
    ensures
        b == is_leap(y as int),
{
    (y % 4 == 0 && y % 100 != 0) || y % 400 == 0
}

/// Days in month `m` of year `y`.
pub fn month_days(y: u64, m: u64) -> (n: u64)
    ensures
        n == month_len(y as int, m as int),
{
    if m == 2 {
        if is_leap_year(y) {
            29
        } else {
            28
        }
    } else if m == 4 || m == 6 || m == 9 || m == 11 {
        30
    } else {
        31
    }
}

proof fn lemma_years_increase(a: int, b: int)
    requires
        1970 <= a <= b,
    ensures
        days_to_year(b) >= days_to_year(a) + 365 * (b - a),
    decreases b - a,
{
    if a < b {
        lemma_years_increase(a, b - 1);
        lemma_year_step(b - 1);
    }
}

proof fn lemma_months_increase(y: int, a: int, b: int)
    requires
        1 <= a <= b <= 13,
    ensures
        days_before_month(y, b) >= days_before_month(y, a) + 28 * (b - a),
    decreases b - a,
{
    if a < b {
        lemma_months_increase(y, a, b - 1);
    }
}

proof fn lemma_month_step(y: int, m: int)
    requires
        1 <= m <= 12,
    ensures
        days_before_month(y, m + 1) == days_before_month(y, m) + month_len(y, m),
{
}

proof fn lemma_date_within_year(days: int, y: int, m: int, d: int)
    requires
        is_date_of(days, y, m, d),
    ensures
        days_to_year(y) <= days < days_to_year(y) + year_len(y),
        days_before_month(y, m) <= days - days_to_year(y) < days_before_month(y, m + 1),
{
    lemma_month_step(y, m);
    lemma_months_increase(y, m + 1, 13);
    lemma_months_increase(y, 1, m);
    assert(days_before_month(y, 1) == 0);
    assert(days_before_month(y, 13) == year_len(y)) by {
        reveal_with_fuel(days_before_month, 13);
    }
    assert(days_before_month(y, m) + d - 1 < days_before_month(y, m + 1));
}

/// A day count names exactly one date.
pub proof fn law_date_unique(days: int, y1: int, m1: int, d1: int, y2: int, m2: int, d2: int)
    requires
        is_date_of(days, y1, m1, d1),
        is_date_of(days, y2, m2, d2),
    ensures
        y1 == y2 && m1 == m2 && d1 == d2,
{
    lemma_date_within_year(days, y1, m1, d1);
    lemma_date_within_year(days, y2, m2, d2);
    if y1 < y2 {
        lemma_years_increase(y1 + 1, y2);
        lemma_year_step(y1);
    } else if y2 < y1 {
        lemma_years_increase(y2 + 1, y1);
        lemma_year_step(y2);
    }
    assert(y1 == y2);
    if m1 < m2 {
        lemma_months_increase(y1, m1 + 1, m2);
    } else if m2 < m1 {
        lemma_months_increase(y1, m2 + 1, m1);
    }
}

/// The date `days` days after 1970-01-01.
pub open spec fn civil_date(days: int) -> (int, int, int) {
    choose|t: (int, int, int)| is_date_of(days, t.0, t.1, t.2)
}

/// The log timestamp for `secs` seconds after the epoch:
/// `YYYY-MM-DD HH:MM:SS UTC`, each field zero-padded (the year to at least
/// four digits).
pub open spec fn timestamp_text(secs: nat) -> Seq<char> {
    let date = civil_date((secs / 86400) as int);
    let sod = secs % 86400;
    zero_pad(decimal(date.0 as nat), 4) + "-"@ + zero_pad(decimal(date.1 as nat), 2) + "-"@
        + zero_pad(decimal(date.2 as nat), 2) + " "@ + zero_pad(decimal(sod / 3600), 2) + ":"@
        + zero_pad(decimal((sod / 60) % 60), 2) + ":"@ + zero_pad(decimal(sod % 60), 2) + " UTC"@
}

/// Formats the log timestamp for `secs_since_epoch`.
pub fn timestamp(secs_since_epoch: u64) -> (r: String)
    ensures
        r@ == timestamp_text(secs_since_epoch as nat),
{
    let days = secs_since_epoch / 86400;
    let sod = secs_since_epoch % 86400;
    let (y, m, d) = civil_from_days(days);
    proof {
        let t = civil_date(days as int);
        assert(is_date_of(days as int, y as int, m as int, d as int));
        law_date_unique(days as int, y as int, m as int, d as int, t.0, t.1, t.2);
    }
    let mut r = String::new();
    push_decimal(&mut r, y, 4);
    push_str(&mut r, "-");
    push_decimal(&mut r, m, 2);
    push_str(&mut r, "-");
    push_decimal(&mut r, d, 2);
    push_str(&mut r, " ");
    push_decimal(&mut r, sod / 3600, 2);
    push_str(&mut r, ":");
    push_decimal(&mut r, (sod / 60) % 60, 2);
    push_str(&mut r, ":");
    push_decimal(&mut r, sod % 60, 2);
    push_str(&mut r, " UTC");
    proof {
        assert(r@ =~= timestamp_text(secs_since_epoch as nat));
    }
    r
}

/// `a` sorts no later than `b`, comparing character by character by code
/// point (a proper prefix sorts first).
pub open spec fn text_le(a: Seq<char>, b: Seq<char>) -> bool
    decreases a.len(),
{
    if a.len() == 0 {
        true
    } else if b.len() == 0 {
        false
    } else if a[0] != b[0] {
        (a[0] as u32) < (b[0] as u32)
    } else {
        text_le(a.drop_first(), b.drop_first())
    }
}

proof fn lemma_text_le_refl(a: Seq<char>)
    ensures
        text_le(a, a),
    decreases a.len(),
{
    if a.len() > 0 {
        lemma_text_le_refl(a.drop_first());
    }
}

/// Two texts of equal length that differ, the first sorting first: any
/// continuations keep that order.
proof fn lemma_text_lt_concat(a: Seq<char>, b: Seq<char>, x: Seq<char>, y: Seq<char>)
    requires
        a.len() == b.len(),
        a != b,
        text_le(a, b),
    ensures
        text_le(a + x, b + y),
        a + x != b + y,
    decreases a.len(),
{
    if a.len() == 0 {
        assert(a =~= b);
    } else {
        assert((a + x)[0] == a[0]);
        assert((b + y)[0] == b[0]);
        if a[0] == b[0] {
            assert(a.drop_first() != b.drop_first()) by {
                if a.drop_first() =~= b.drop_first() {
                    assert forall|i: int| 0 <= i < a.len() implies a[i] == b[i] by {
                        if i > 0 {
                            assert(a[i] == a.drop_first()[i - 1]);
                            assert(b[i] == b.drop_first()[i - 1]);
                        }
                    }
                    assert(a =~= b);
                }
            }
            lemma_text_lt_concat(a.drop_first(), b.drop_first(), x, y);
            assert((a + x).drop_first() =~= a.drop_first() + x);
            assert((b + y).drop_first() =~= b.drop_first() + y);
        }
        assert((a + x)[0] != (b + y)[0] ==> a + x != b + y);
        if (a + x) == (b + y) {
            assert(a =~= (a + x).subrange(0, a.len() as int));
            assert(b =~= (b + y).subrange(0, b.len() as int));
        }
    }
}

/// Equal prefixes: the order is that of the continuations.
proof fn lemma_text_le_same_prefix(a: Seq<char>, x: Seq<char>, y: Seq<char>)
    ensures
        text_le(a + x, a + y) == text_le(x, y),
    decreases a.len(),
{
    if a.len() == 0 {
        assert(a + x =~= x);
        assert(a + y =~= y);
    } else {
        lemma_text_le_same_prefix(a.drop_first(), x, y);
        assert((a + x).drop_first() =~= a.drop_first() + x);
        assert((a + y).drop_first() =~= a.drop_first() + y);
    }
}

proof fn lemma_digit_code(d: nat)
    requires
        d < 10,
    ensures
        digit_char(d) as u32 == 48 + d,
{
}

proof fn lemma_pad2(n: nat)
    requires
        n < 100,
    ensures
        zero_pad(decimal(n), 2) == seq![digit_char(n / 10), digit_char(n % 10)],
{
    reveal_with_fuel(decimal, 2);
    if n < 10 {
        assert(zero_pad(decimal(n), 2) =~= seq![digit_char(0), digit_char(n % 10)]);
    } else {
        assert(decimal(n / 10) == seq![digit_char(n / 10)]);
        assert(zero_pad(decimal(n), 2) =~= seq![digit_char(n / 10), digit_char(n % 10)]);
    }
}

proof fn lemma_pad4(n: nat)
    requires
        1000 <= n < 10000,
    ensures
        zero_pad(decimal(n), 4) == seq![
            digit_char(n / 1000),
            digit_char((n / 100) % 10),
            digit_char((n / 10) % 10),
            digit_char(n % 10),
        ],
{
    reveal_with_fuel(decimal, 4);
    let a = n / 10;
    let b = a / 10;
    let c = b / 10;
    assert(b == n / 100);
    assert(c == n / 1000);
    assert(c < 10);
    assert(decimal(c) == seq![digit_char(c)]);
    assert(decimal(b) =~= seq![digit_char(c), digit_char(b % 10)]);
    assert(decimal(a) =~= seq![digit_char(c), digit_char(b % 10), digit_char(a % 10)]);
    assert(decimal(n) =~= seq![digit_char(c), digit_char(b % 10), digit_char(a % 10), digit_char(n % 10)]);
}

/// Two-digit fields sort as their numbers do.
proof fn lemma_pad2_order(n1: nat, n2: nat)
    requires
        n1 <= n2 < 100,
    ensures
        text_le(zero_pad(decimal(n1), 2), zero_pad(decimal(n2), 2)),
        n1 < n2 ==> zero_pad(decimal(n1), 2) != zero_pad(decimal(n2), 2),
        zero_pad(decimal(n1), 2).len() == 2,
        zero_pad(decimal(n2), 2).len() == 2,
{
    lemma_pad2(n1);
    lemma_pad2(n2);
    lemma_digit_code(n1 / 10);
    lemma_digit_code(n2 / 10);
    lemma_digit_code(n1 % 10);
    lemma_digit_code(n2 % 10);
    let a = zero_pad(decimal(n1), 2);
    let b = zero_pad(decimal(n2), 2);
    reveal_with_fuel(text_le, 3);
    assert(a.drop_first() =~= seq![digit_char(n1 % 10)]);
    assert(b.drop_first() =~= seq![digit_char(n2 % 10)]);
    assert(a.drop_first().drop_first() =~= Seq::<char>::empty());
    if n1 < n2 {
        if a == b {
            assert(a[0] == b[0] && a[1] == b[1]);
        }
    }
}

/// Texts led by one digit each sort by that digit, then by what follows.
proof fn lemma_lead_digit(d1: nat, d2: nat, x: Seq<char>, y: Seq<char>)
    requires
        d1 <= d2 < 10,
        d1 == d2 ==> text_le(x, y),
    ensures
        text_le(seq![digit_char(d1)] + x, seq![digit_char(d2)] + y),
        (d1 < d2 || x != y) ==> seq![digit_char(d1)] + x != seq![digit_char(d2)] + y,
{
    let a = seq![digit_char(d1)] + x;
    let b = seq![digit_char(d2)] + y;
    lemma_digit_code(d1);
    lemma_digit_code(d2);
    assert(a[0] == digit_char(d1));
    assert(b[0] == digit_char(d2));
    if d1 == d2 {
        lemma_text_le_same_prefix(seq![digit_char(d1)], x, y);
        if x != y && a == b {
            assert(x =~= a.subrange(1, a.len() as int));
            assert(y =~= b.subrange(1, b.len() as int));
        }
    } else {
        assert(a[0] != b[0]);
    }
}

/// The text of four digits, most significant first.
pub open spec fn four_digits(a: nat, b: nat, c: nat, d: nat) -> Seq<char> {
    seq![digit_char(a)] + (seq![digit_char(b)] + (seq![digit_char(c)] + seq![digit_char(d)]))
}

proof fn lemma_digit_parts(n: nat)
    requires
        n < 10000,
    ensures
        (n / 100) % 10 == (n % 1000) / 100,
        (n / 10) % 10 == (n % 100) / 10,
        n / 1000 < 10,
        (n % 1000) / 100 < 10,
        (n % 100) / 10 < 10,
        n == 1000 * (n / 1000) + 100 * ((n % 1000) / 100) + 10 * ((n % 100) / 10) + n % 10,
{
    assert((n / 100) % 10 == (n % 1000) / 100) by (nonlinear_arith)
        requires
            n < 10000,
    ;
    assert((n / 10) % 10 == (n % 100) / 10) by (nonlinear_arith)
        requires
            n < 10000,
    ;
    assert(n == 1000 * (n / 1000) + 100 * ((n % 1000) / 100) + 10 * ((n % 100) / 10) + n % 10)
        by (nonlinear_arith);
}

/// The four digits of a four-digit number, most significant first.
proof fn lemma_pad4_split(n: nat)
    requires
        1000 <= n < 10000,
    ensures
        zero_pad(decimal(n), 4) == four_digits(n / 1000, (n % 1000) / 100, (n % 100) / 10, n % 10),
{
    lemma_pad4(n);
    lemma_digit_parts(n);
    assert(zero_pad(decimal(n), 4) =~= four_digits(
        n / 1000,
        (n % 1000) / 100,
        (n % 100) / 10,
        n % 10,
    ));
}

/// Four digits sort as the number they write.
proof fn lemma_four_digits_order(a0: nat, a1: nat, a2: nat, a3: nat, b0: nat, b1: nat, b2: nat, b3: nat)
    requires
        a0 < 10 && a1 < 10 && a2 < 10 && a3 < 10,
        b0 < 10 && b1 < 10 && b2 < 10 && b3 < 10,
        1000 * a0 + 100 * a1 + 10 * a2 + a3 <= 1000 * b0 + 100 * b1 + 10 * b2 + b3,
    ensures
        text_le(four_digits(a0, a1, a2, a3), four_digits(b0, b1, b2, b3)),
        1000 * a0 + 100 * a1 + 10 * a2 + a3 < 1000 * b0 + 100 * b1 + 10 * b2 + b3 ==> four_digits(
            a0,
            a1,
            a2,
            a3,
        ) != four_digits(b0, b1, b2, b3),
{
    let e = Seq::<char>::empty();
    lemma_text_le_refl(e);
    let l1 = seq![digit_char(a3)];
    let l2 = seq![digit_char(b3)];
    assert(l1 =~= seq![digit_char(a3)] + e);
    assert(l2 =~= seq![digit_char(b3)] + e);
    let u1 = seq![digit_char(a2)] + l1;
    let u2 = seq![digit_char(b2)] + l2;
    let h1 = seq![digit_char(a1)] + u1;
    let h2 = seq![digit_char(b1)] + u2;
    if a0 == b0 {
        if a1 == b1 {
            if a2 == b2 {
                lemma_lead_digit(a3, b3, e, e);
            }
            lemma_lead_digit(a2, b2, l1, l2);
        }
        lemma_lead_digit(a1, b1, u1, u2);
    }
    lemma_lead_digit(a0, b0, h1, h2);
}

/// Four-digit fields sort as their numbers do.
proof fn lemma_pad4_order(n1: nat, n2: nat)
    requires
        1000 <= n1 <= n2 < 10000,
    ensures
        text_le(zero_pad(decimal(n1), 4), zero_pad(decimal(n2), 4)),
        n1 < n2 ==> zero_pad(decimal(n1), 4) != zero_pad(decimal(n2), 4),
        zero_pad(decimal(n1), 4).len() == 4,
        zero_pad(decimal(n2), 4).len() == 4,
{
    lemma_pad4_split(n1);
    lemma_pad4_split(n2);
    lemma_digit_parts(n1);
    lemma_digit_parts(n2);
    lemma_four_digits_order(
        n1 / 1000,
        (n1 % 1000) / 100,
        (n1 % 100) / 10,
        n1 % 10,
        n2 / 1000,
        (n2 % 1000) / 100,
        (n2 % 100) / 10,
        n2 % 10,
    );
}

/// The year holding day `days`, searching upwards from year `y`.
proof fn lemma_year_of(days: int, y: int) -> (yr: int)
    requires
        1970 <= y,
        days_to_year(y) <= days,
    ensures
        y <= yr,
        days_to_year(yr) <= days < days_to_year(yr + 1),
    decreases days - days_to_year(y),
{
    lemma_year_step(y);
    if days < days_to_year(y + 1) {
        y
    } else {
        lemma_year_of(days, y + 1)
    }
}

/// The month of year `y` holding day `r` of that year, searching upwards
/// from month `m`.
proof fn lemma_month_of(y: int, r: int, m: int) -> (mo: int)
    requires
        1 <= m <= 12,
        days_before_month(y, m) <= r < year_len(y),
    ensures
        m <= mo <= 12,
        days_before_month(y, mo) <= r < days_before_month(y, mo + 1),
    decreases 12 - m,
{
    lemma_months_fill_year(y);
    if r < days_before_month(y, m + 1) {
        m
    } else {
        lemma_month_of(y, r, m + 1)
    }
}

/// Every day from 1970-01-01 on has a date.
proof fn lemma_date_exists(days: int)
    requires
        days >= 0,
    ensures
        is_date_of(days, civil_date(days).0, civil_date(days).1, civil_date(days).2),
{
    assert(days_to_year(1970) == 0);
    let y = lemma_year_of(days, 1970);
    lemma_year_step(y);
    assert(days_before_month(y, 1) == 0);
    let m = lemma_month_of(y, days - days_to_year(y), 1);
    lemma_month_step(y, m);
    let d = days - days_to_year(y) - days_before_month(y, m) + 1;
    let t = (y, m, d);
    assert(is_date_of(days, t.0, t.1, t.2));
}

/// A later day has a later date.
proof fn lemma_date_order(days1: int, days2: int)
    requires
        0 <= days1 < days2,
    ensures
        ({
            let a = civil_date(days1);
            let b = civil_date(days2);
            a.0 < b.0 || (a.0 == b.0 && (a.1 < b.1 || (a.1 == b.1 && a.2 < b.2)))
        }),
{
    lemma_date_exists(days1);
    lemma_date_exists(days2);
    let a = civil_date(days1);
    let b = civil_date(days2);
    lemma_date_within_year(days1, a.0, a.1, a.2);
    lemma_date_within_year(days2, b.0, b.1, b.2);
    if a.0 > b.0 {
        lemma_years_increase(b.0 + 1, a.0);
        lemma_year_step(b.0);
    } else if a.0 == b.0 && a.1 > b.1 {
        lemma_months_increase(a.0, b.1 + 1, a.1);
    }
}

/// An equal-length first piece that sorts no later decides, or, when equal,
/// leaves the order to what follows.
proof fn lemma_piece(p1: Seq<char>, p2: Seq<char>, x: Seq<char>, y: Seq<char>)
    requires
        p1.len() == p2.len(),
        text_le(p1, p2),
        p1 == p2 ==> text_le(x, y),
    ensures
        text_le(p1 + x, p2 + y),
{
    if p1 == p2 {
        lemma_text_le_same_prefix(p1, x, y);
    } else {
        lemma_text_lt_concat(p1, p2, x, y);
    }
}

/// The log timestamp with its fields spelled out.
pub open spec fn stamp_text(y: nat, mo: nat, d: nat, h: nat, mi: nat, s: nat) -> Seq<char> {
    zero_pad(decimal(y), 4) + ("-"@ + (zero_pad(decimal(mo), 2) + ("-"@ + (zero_pad(decimal(d), 2) + (
    " "@ + (zero_pad(decimal(h), 2) + (":"@ + (zero_pad(decimal(mi), 2) + (":"@ + (zero_pad(
        decimal(s),
        2,
    ) + " UTC"@))))))))))
}

/// Timestamps whose fields are in order sort in that order.
proof fn lemma_stamp_order(
    y1: nat, mo1: nat, d1: nat, h1: nat, mi1: nat, s1: nat,
    y2: nat, mo2: nat, d2: nat, h2: nat, mi2: nat, s2: nat,
)
    requires
        1000 <= y1 <= y2 < 10000,
        mo1 < 100 && d1 < 100 && h1 < 100 && mi1 < 100 && s1 < 100,
        mo2 < 100 && d2 < 100 && h2 < 100 && mi2 < 100 && s2 < 100,
        y1 == y2 ==> mo1 <= mo2,
        y1 == y2 && mo1 == mo2 ==> d1 <= d2,
        y1 == y2 && mo1 == mo2 && d1 == d2 ==> h1 <= h2,
        y1 == y2 && mo1 == mo2 && d1 == d2 && h1 == h2 ==> mi1 <= mi2,
        y1 == y2 && mo1 == mo2 && d1 == d2 && h1 == h2 && mi1 == mi2 ==> s1 <= s2,
    ensures
        text_le(stamp_text(y1, mo1, d1, h1, mi1, s1), stamp_text(y2, mo2, d2, h2, mi2, s2)),
{
    let u = " UTC"@;
    let c = ":"@;
    let dash = "-"@;
    let sp = " "@;
    lemma_text_le_refl(u);
    lemma_text_le_refl(c);
    lemma_text_le_refl(dash);
    lemma_text_le_refl(sp);
    let r_s1 = zero_pad(decimal(s1), 2) + u;
    let r_s2 = zero_pad(decimal(s2), 2) + u;
    let r_mi1 = zero_pad(decimal(mi1), 2) + (c + r_s1);
    let r_mi2 = zero_pad(decimal(mi2), 2) + (c + r_s2);
    let r_h1 = zero_pad(decimal(h1), 2) + (c + r_mi1);
    let r_h2 = zero_pad(decimal(h2), 2) + (c + r_mi2);
    let r_d1 = zero_pad(decimal(d1), 2) + (sp + r_h1);
    let r_d2 = zero_pad(decimal(d2), 2) + (sp + r_h2);
    let r_mo1 = zero_pad(decimal(mo1), 2) + (dash + r_d1);
    let r_mo2 = zero_pad(decimal(mo2), 2) + (dash + r_d2);
    lemma_pad4_order(y1, y2);
    if y1 == y2 {
        lemma_pad2_order(mo1, mo2);
        if mo1 == mo2 {
            lemma_pad2_order(d1, d2);
            if d1 == d2 {
                lemma_pad2_order(h1, h2);
                if h1 == h2 {
                    lemma_pad2_order(mi1, mi2);
                    if mi1 == mi2 {
                        lemma_pad2_order(s1, s2);
                        lemma_piece(zero_pad(decimal(s1), 2), zero_pad(decimal(s2), 2), u, u);
                        lemma_piece(c, c, r_s1, r_s2);
                    }
                    lemma_piece(zero_pad(decimal(mi1), 2), zero_pad(decimal(mi2), 2), c + r_s1, c + r_s2);
                    lemma_piece(c, c, r_mi1, r_mi2);
                }
                lemma_piece(zero_pad(decimal(h1), 2), zero_pad(decimal(h2), 2), c + r_mi1, c + r_mi2);
                lemma_piece(sp, sp, r_h1, r_h2);
            }
            lemma_piece(zero_pad(decimal(d1), 2), zero_pad(decimal(d2), 2), sp + r_h1, sp + r_h2);
            lemma_piece(dash, dash, r_d1, r_d2);
        }
        lemma_piece(zero_pad(decimal(mo1), 2), zero_pad(decimal(mo2), 2), dash + r_d1, dash + r_d2);
        lemma_piece(dash, dash, r_mo1, r_mo2);
    }
    lemma_piece(zero_pad(decimal(y1), 4), zero_pad(decimal(y2), 4), dash + r_mo1, dash + r_mo2);
}

proof fn lemma_time_parts(sod: nat)
    requires
        sod < 86400,
    ensures
        sod / 3600 < 24,
        (sod / 60) % 60 < 60,
        sod % 60 < 60,
        sod == 3600 * (sod / 3600) + 60 * ((sod / 60) % 60) + sod % 60,
{
    assert(sod == 3600 * (sod / 3600) + 60 * ((sod / 60) % 60) + sod % 60) by (nonlinear_arith);
}

proof fn lemma_assoc3(a: Seq<char>, b: Seq<char>, c: Seq<char>)
    ensures
        (a + b) + c == a + (b + c),
{
    assert((a + b) + c =~= a + (b + c));
}

/// Left-nested concatenation of twelve pieces equals right-nested.
proof fn lemma_reassociate(
    a0: Seq<char>, a1: Seq<char>, a2: Seq<char>, a3: Seq<char>, a4: Seq<char>, a5: Seq<char>,
    a6: Seq<char>, a7: Seq<char>, a8: Seq<char>, a9: Seq<char>, a10: Seq<char>, a11: Seq<char>,
)
    ensures
        a0 + a1 + a2 + a3 + a4 + a5 + a6 + a7 + a8 + a9 + a10 + a11 == a0 + (a1 + (a2 + (a3 + (a4
            + (a5 + (a6 + (a7 + (a8 + (a9 + (a10 + a11)))))))))),
{
    let t10 = a10 + a11;
    let t9 = a9 + t10;
    let t8 = a8 + t9;
    let t7 = a7 + t8;
    let t6 = a6 + t7;
    let t5 = a5 + t6;
    let t4 = a4 + t5;
    let t3 = a3 + t4;
    let t2 = a2 + t3;
    let t1 = a1 + t2;
    let l1 = a0 + a1;
    let l2 = l1 + a2;
    let l3 = l2 + a3;
    let l4 = l3 + a4;
    let l5 = l4 + a5;
    let l6 = l5 + a6;
    let l7 = l6 + a7;
    let l8 = l7 + a8;
    let l9 = l8 + a9;
    let l10 = l9 + a10;
    // l_k + t_(k+1) == a0 + t1 for every k, from the inside out.
    assert(l10 + a11 == l9 + t10) by { lemma_assoc3(l9, a10, a11); }
    assert(l9 + t10 == l8 + t9) by { lemma_assoc3(l8, a9, t10); }
    assert(l8 + t9 == l7 + t8) by { lemma_assoc3(l7, a8, t9); }
    assert(l7 + t8 == l6 + t7) by { lemma_assoc3(l6, a7, t8); }
    assert(l6 + t7 == l5 + t6) by { lemma_assoc3(l5, a6, t7); }
    assert(l5 + t6 == l4 + t5) by { lemma_assoc3(l4, a5, t6); }
    assert(l4 + t5 == l3 + t4) by { lemma_assoc3(l3, a4, t5); }
    assert(l3 + t4 == l2 + t3) by { lemma_assoc3(l2, a3, t4); }
    assert(l2 + t3 == l1 + t2) by { lemma_assoc3(l1, a2, t3); }
    assert(l1 + t2 == a0 + t1) by { lemma_assoc3(a0, a1, t2); }
}

proof fn lemma_stamp_text(secs: nat)
    ensures
        ({
            let date = civil_date((secs / 86400) as int);
            let sod = secs % 86400;
            timestamp_text(secs) == stamp_text(
                date.0 as nat,
                date.1 as nat,
                date.2 as nat,
                sod / 3600,
                (sod / 60) % 60,
                sod % 60,
            )
        }),
{
    let date = civil_date((secs / 86400) as int);
    let sod = secs % 86400;
    lemma_reassociate(
        zero_pad(decimal(date.0 as nat), 4),
        "-"@,
        zero_pad(decimal(date.1 as nat), 2),
        "-"@,
        zero_pad(decimal(date.2 as nat), 2),
        " "@,
        zero_pad(decimal(sod / 3600), 2),
        ":"@,
        zero_pad(decimal((sod / 60) % 60), 2),
        ":"@,
        zero_pad(decimal(sod % 60), 2),
        " UTC"@,
    );
}

/// Later clock readings never give a log timestamp that sorts earlier:
/// for readings up to the end of year 9999, comparing the texts character
/// by character orders them as the readings are ordered.
pub proof fn law_timestamps_sorted(secs1: nat, secs2: nat)
    requires
        secs1 <= secs2,
        secs2 < 86400 * days_to_year(10000),
    ensures
        text_le(timestamp_text(secs1), timestamp_text(secs2)),
{
    let days1 = (secs1 / 86400) as int;
    let days2 = (secs2 / 86400) as int;
    let sod1 = secs1 % 86400;
    let sod2 = secs2 % 86400;
    assert(days2 < days_to_year(10000)) by (nonlinear_arith)
        requires
            secs2 < 86400 * days_to_year(10000),
            days2 == secs2 / 86400,
    ;
    assert(days1 <= days2);
    lemma_date_exists(days1);
    lemma_date_exists(days2);
    let a = civil_date(days1);
    let b = civil_date(days2);
    if b.0 >= 10000 {
        lemma_years_increase(10000, b.0);
        lemma_date_within_year(days2, b.0, b.1, b.2);
    }
    if days1 < days2 {
        lemma_date_order(days1, days2);
    } else {
        assert(sod1 <= sod2);
    }
    lemma_time_parts(sod1);
    lemma_time_parts(sod2);
    lemma_stamp_text(secs1);
    lemma_stamp_text(secs2);
    lemma_stamp_order(
        a.0 as nat,
        a.1 as nat,
        a.2 as nat,
        sod1 / 3600,
        (sod1 / 60) % 60,
        sod1 % 60,
        b.0 as nat,
        b.1 as nat,
        b.2 as nat,
        sod2 / 3600,
        (sod2 / 60) % 60,
        sod2 % 60,
    );
}

/// `t` has the shape `DDDD-DD-DD DD:DD:DD UTC`: 23 characters, digits in
/// the date and time fields.
pub open spec fn stamp_shape(t: Seq<char>) -> bool {
    &&& t.len() == 23
    &&& t[4] == '-' && t[7] == '-' && t[10] == ' ' && t[13] == ':' && t[16] == ':'
    &&& t.subrange(19, 23) == " UTC"@
    &&& forall|i: int|
        0 <= i < 19 && i != 4 && i != 7 && i != 10 && i != 13 && i != 16 ==> is_ascii_digit(
            #[trigger] t[i],
        )
}

proof fn lemma_pad2_digits(n: nat)
    requires
        n < 100,
    ensures
        zero_pad(decimal(n), 2).len() == 2,
        is_ascii_digit(zero_pad(decimal(n), 2)[0]),
        is_ascii_digit(zero_pad(decimal(n), 2)[1]),
{
    lemma_pad2(n);
    lemma_digit_code(n / 10);
    lemma_digit_code(n % 10);
}

proof fn lemma_pad4_digits(n: nat)
    requires
        1000 <= n < 10000,
    ensures
        zero_pad(decimal(n), 4).len() == 4,
        forall|i: int| 0 <= i < 4 ==> is_ascii_digit(#[trigger] zero_pad(decimal(n), 4)[i]),
{
    lemma_pad4(n);
    lemma_digit_code(n / 1000);
    lemma_digit_code((n / 100) % 10);
    lemma_digit_code((n / 10) % 10);
    lemma_digit_code(n % 10);
}

/// Every log timestamp up to the end of year 9999 has the shape
/// `DDDD-DD-DD DD:DD:DD UTC`.
pub proof fn law_timestamp_shape(secs: nat)
    requires
        secs < 86400 * days_to_year(10000),
    ensures
        stamp_shape(timestamp_text(secs)),
{
    let days = (secs / 86400) as int;
    let sod = secs % 86400;
    assert(days < days_to_year(10000)) by (nonlinear_arith)
        requires
            secs < 86400 * days_to_year(10000),
            days == secs / 86400,
    ;
    lemma_date_exists(days);
    let a = civil_date(days);
    if a.0 >= 10000 {
        lemma_years_increase(10000, a.0);
        lemma_date_within_year(days, a.0, a.1, a.2);
    }
    lemma_time_parts(sod);
    lemma_stamp_text(secs);
    let y = zero_pad(decimal(a.0 as nat), 4);
    let mo = zero_pad(decimal(a.1 as nat), 2);
    let d = zero_pad(decimal(a.2 as nat), 2);
    let h = zero_pad(decimal(sod / 3600), 2);
    let mi = zero_pad(decimal((sod / 60) % 60), 2);
    let se = zero_pad(decimal(sod % 60), 2);
    lemma_pad4_digits(a.0 as nat);
    lemma_pad2_digits(a.1 as nat);
    lemma_pad2_digits(a.2 as nat);
    lemma_pad2_digits(sod / 3600);
    lemma_pad2_digits((sod / 60) % 60);
    lemma_pad2_digits(sod % 60);
    reveal_strlit("-");
    reveal_strlit(" ");
    reveal_strlit(":");
    reveal_strlit(" UTC");
    let t = timestamp_text(secs);
    let flat = y + "-"@ + mo + "-"@ + d + " "@ + h + ":"@ + mi + ":"@ + se + " UTC"@;
    assert(t == flat);
    assert(t.len() == 23);
    assert(t.subrange(19, 23) =~= " UTC"@);
    assert forall|i: int|
        0 <= i < 19 && i != 4 && i != 7 && i != 10 && i != 13 && i != 16 implies is_ascii_digit(
        #[trigger] t[i],
    ) by {
        if i < 4 {
            assert(t[i] == y[i]);
        } else if i < 7 {
            assert(t[i] == mo[i - 5]);
        } else if i < 10 {
            assert(t[i] == d[i - 8]);
        } else if i < 13 {
            assert(t[i] == h[i - 11]);
        } else if i < 16 {
            assert(t[i] == mi[i - 14]);
        } else {
            assert(t[i] == se[i - 17]);
        }
    }
}

} // verus!
