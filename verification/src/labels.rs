use crate::calendar::{date_le, is_calendar_date, representable, Date, DateView, Timestamp};
use crate::names::name_le;
use chrono::{NaiveDate, NaiveTime};
use vstd::prelude::*;
use vstd::string::StringExecFns;

verus! {

/// The character for a decimal digit.
pub open spec fn digit(n: nat) -> char {
    seq!['0', '1', '2', '3', '4', '5', '6', '7', '8', '9'][n as int]
}

/// `n` in decimal, with zeros in front where it has fewer than `width` digits.
pub open spec fn decimal(n: nat, width: nat) -> Seq<char>
    decreases n + width,
{
    if n < 10 && width <= 1 {
        seq![digit(n)]
    } else {
        decimal(n / 10, if width > 0 { (width - 1) as nat } else { 0 }).push(digit(n % 10))
    }
}

/// A year as a dated folder's name shows it: four digits from 0 to 9999; beyond
/// that a sign, then at least four digits.
pub open spec fn year_text(year: int) -> Seq<char> {
    if year < 0 {
        seq!['-'] + decimal((-year) as nat, 4)
    } else if year > 9999 {
        seq!['+'] + decimal(year as nat, 4)
    } else {
        decimal(year as nat, 4)
    }
}

/// The name of a day's folder: year, month and day, `YYYY-MM-DD`.
pub open spec fn date_text(d: DateView) -> Seq<char> {
    year_text(d.year) + seq!['-'] + decimal(d.month as nat, 2) + seq!['-'] + decimal(
        d.day as nat,
        2,
    )
}

/// The hour on a twelve-hour clock, from 1 to 12.
pub open spec fn hour_of_twelve(hour: int) -> int {
    if hour % 12 == 0 {
        12
    } else {
        hour % 12
    }
}

/// An hour as two digits of the twelve-hour clock, a space, and `AM` or `PM`.
pub open spec fn hour_text(hour: int) -> Seq<char> {
    decimal(hour_of_twelve(hour) as nat, 2) + seq![' '] + if hour < 12 {
        seq!['A', 'M']
    } else {
        seq!['P', 'M']
    }
}

/// The name of the folder of one hour's backups within a day's folder.
pub open spec fn hour_folder_text(hour: int) -> Seq<char> {
    seq!['@'] + hour_text(hour)
}

/// Ten to the power `width`.
pub open spec fn ten_to(width: nat) -> nat
    decreases width,
{
    if width == 0 {
        1
    } else {
        10 * ten_to((width - 1) as nat)
    }
}

proof fn lemma_digit_code(n: nat)
    requires
        n < 10,
    ensures
        digit(n) as u32 == 48 + n,
{
}

/// A number below ten to the `width` takes exactly `width` digits.
pub proof fn lemma_decimal_len(n: nat, width: nat)
    requires
        width >= 1,
        n < ten_to(width),
    ensures
        decimal(n, width).len() == width,
    decreases width,
{
    reveal_with_fuel(ten_to, 2);
    if width > 1 {
        lemma_decimal_len(n / 10, (width - 1) as nat);
    }
}

/// Comparing two names that begin with parts of equal length: where the parts
/// differ they decide, where they agree the rest decides.
pub proof fn lemma_name_le_by_parts(p: Seq<char>, q: Seq<char>, x: Seq<char>, y: Seq<char>)
    requires
        p.len() == q.len(),
    ensures
        p == q ==> name_le(p + x, q + y) == name_le(x, y),
        p != q ==> name_le(p + x, q + y) == name_le(p, q),
    decreases p.len(),
{
    if p.len() == 0 {
        assert(p =~= q);
        assert(p + x =~= x);
        assert(q + y =~= y);
    } else {
        assert((p + x).drop_first() =~= p.drop_first() + x);
        assert((q + y).drop_first() =~= q.drop_first() + y);
        if p[0] == q[0] {
            lemma_name_le_by_parts(p.drop_first(), q.drop_first(), x, y);
            assert(p =~= seq![p[0]] + p.drop_first());
            assert(q =~= seq![q[0]] + q.drop_first());
        }
    }
}

/// Numbers written with the same number of digits sort as names the way they
/// sort as numbers, and differ as names where they differ as numbers.
pub proof fn lemma_decimal_order(n: nat, m: nat, width: nat)
    requires
        width >= 1,
        n < ten_to(width),
        m < ten_to(width),
    ensures
        decimal(n, width) == decimal(m, width) <==> n == m,
        name_le(decimal(n, width), decimal(m, width)) <==> n <= m,
    decreases width,
{
    reveal_with_fuel(ten_to, 2);
    let x = seq![digit(n % 10)];
    let y = seq![digit(m % 10)];
    lemma_digit_code(n % 10);
    lemma_digit_code(m % 10);
    assert(name_le(x, y) <==> n % 10 <= m % 10) by {
        reveal_with_fuel(name_le, 2);
    }
    assert(x == y <==> n % 10 == m % 10) by {
        assert(x[0] == digit(n % 10));
        assert(y[0] == digit(m % 10));
        if n % 10 == m % 10 {
            assert(x =~= y);
        }
    }
    if width == 1 {
        assert(decimal(n, width) =~= x);
        assert(decimal(m, width) =~= y);
    } else {
        let p = decimal(n / 10, (width - 1) as nat);
        let q = decimal(m / 10, (width - 1) as nat);
        lemma_decimal_order(n / 10, m / 10, (width - 1) as nat);
        lemma_decimal_len(n / 10, (width - 1) as nat);
        lemma_decimal_len(m / 10, (width - 1) as nat);
        lemma_name_le_by_parts(p, q, x, y);
        assert(decimal(n, width) =~= p + x);
        assert(decimal(m, width) =~= q + y);
        assert((p + x).drop_last() =~= p);
        assert((q + y).drop_last() =~= q);
        assert((p + x).last() == x[0]);
        assert((q + y).last() == y[0]);
        if p == q && x == y {
            assert(p + x =~= q + y);
        }
    }
}

/// For years written with four digits, from 0 to 9999, dated folders sort by
/// name exactly as their days follow each other in the calendar.
pub proof fn lemma_date_names_sort_by_date(a: DateView, b: DateView)
    requires
        is_calendar_date(a),
        is_calendar_date(b),
        0 <= a.year <= 9999,
        0 <= b.year <= 9999,
    ensures
        name_le(date_text(a), date_text(b)) <==> date_le(a, b),
        date_text(a) == date_text(b) <==> a == b,
{
    reveal_with_fuel(ten_to, 5);
    let hyphen = seq!['-'];
    let (ya, yb) = (decimal(a.year as nat, 4), decimal(b.year as nat, 4));
    let (ma, mb) = (decimal(a.month as nat, 2), decimal(b.month as nat, 2));
    let (da, db) = (decimal(a.day as nat, 2), decimal(b.day as nat, 2));
    lemma_decimal_order(a.year as nat, b.year as nat, 4);
    lemma_decimal_order(a.month as nat, b.month as nat, 2);
    lemma_decimal_order(a.day as nat, b.day as nat, 2);
    lemma_decimal_len(a.year as nat, 4);
    lemma_decimal_len(b.year as nat, 4);
    lemma_decimal_len(a.month as nat, 2);
    lemma_decimal_len(b.month as nat, 2);
    lemma_decimal_len(a.day as nat, 2);
    lemma_decimal_len(b.day as nat, 2);
    assert(date_text(a) =~= ya + (hyphen + (ma + (hyphen + da))));
    assert(date_text(b) =~= yb + (hyphen + (mb + (hyphen + db))));
    lemma_name_le_by_parts(ya, yb, hyphen + (ma + (hyphen + da)), hyphen + (mb + (hyphen + db)));
    lemma_name_le_by_parts(hyphen, hyphen, ma + (hyphen + da), mb + (hyphen + db));
    lemma_name_le_by_parts(ma, mb, hyphen + da, hyphen + db);
    lemma_name_le_by_parts(hyphen, hyphen, da, db);
    if date_text(a) == date_text(b) {
        assert(ya =~= date_text(a).subrange(0, 4));
        assert(yb =~= date_text(b).subrange(0, 4));
        assert(ma =~= date_text(a).subrange(5, 7));
        assert(mb =~= date_text(b).subrange(5, 7));
        assert(da =~= date_text(a).subrange(8, 10));
        assert(db =~= date_text(b).subrange(8, 10));
    }
}

/// The hour folder tells the hours of a day apart: two hours with the same
/// folder name are the same hour, so 2 AM and 2 PM never share a folder.
pub proof fn lemma_hour_folder_identifies_hour(a: int, b: int)
    requires
        0 <= a < 24,
        0 <= b < 24,
        hour_folder_text(a) == hour_folder_text(b),
    ensures
        a == b,
{
    reveal_with_fuel(ten_to, 3);
    let (ta, tb) = (hour_folder_text(a), hour_folder_text(b));
    let (da, db) = (decimal(hour_of_twelve(a) as nat, 2), decimal(hour_of_twelve(b) as nat, 2));
    lemma_decimal_len(hour_of_twelve(a) as nat, 2);
    lemma_decimal_len(hour_of_twelve(b) as nat, 2);
    lemma_decimal_order(hour_of_twelve(a) as nat, hour_of_twelve(b) as nat, 2);
    assert(da =~= ta.subrange(1, 3));
    assert(db =~= tb.subrange(1, 3));
    assert(ta[4] == if a < 12 { 'A' } else { 'P' });
    assert(tb[4] == if b < 12 { 'A' } else { 'P' });
}

/// Calls chrono's `NaiveDate::format` with `%Y-%m-%d` and renders the result.
/// The contract spells out what chrono writes for these three items: the year
/// as `year_text` has it, the month and the day as two digits each, joined by
/// hyphens. The date reaches chrono through `NaiveDate::from_ymd_opt`, which
/// takes every representable date.
#[verifier::external_body]
fn format_date(date: Date) -> (text: String)
    requires
        representable(date@),
    ensures
        text@ == date_text(date@),
{
    NaiveDate::from_ymd_opt(date.year(), date.month(), date.day()).unwrap().format(
        "%Y-%m-%d",
    ).to_string()
}

/// Calls chrono's `NaiveTime::format` with `%I %p` and renders the result. The
/// contract spells out what chrono writes: the hour of the twelve-hour clock as
/// two digits, a space, and `AM` before noon, `PM` from noon on. The hour
/// reaches chrono through `NaiveTime::from_hms_opt`, which takes every hour
/// below 24.
#[verifier::external_body]
fn format_hour(hour: u32) -> (text: String)
    requires
        hour < 24,
    ensures
        text@ == hour_text(hour as int),
{
    NaiveTime::from_hms_opt(hour, 0, 0).unwrap().format("%I %p").to_string()
}

/// The name of the dated folder for `date`.
pub fn date_folder_name(date: Date) -> (name: String)
    ensures
        name@ == date_text(date@),
{
    proof {
        use_type_invariant(date);
    }
    format_date(date)
}

/// The name of the folder for the hour of `now`. Backups made within the same
/// clock hour of a day share one folder; 2 AM and 2 PM do not.
pub fn hour_folder_name(now: Timestamp) -> (name: String)
    ensures
        name@ == hour_folder_text(now@.hour),
{
    let hour = format_hour(now.hour());
    let name = String::from_str("@").concat(hour.as_str());
    proof {
        reveal_strlit("@");
        assert("@"@ =~= seq!['@']);
    }
    name
}

} // verus!
