//! Minutes in the device's own notation: `3h51m`, `45m`.
use vstd::prelude::*;

verus! {

/// The decimal digit of `d`.
pub open spec fn digit(d: int) -> char {
    (48 + d) as char
}

/// The decimal digits of `n`.
pub open spec fn decimal(n: nat) -> Seq<char>
    decreases n,
{
    if n < 10 {
        seq![digit(n as int)]
    } else {
        decimal(n / 10).push(digit((n % 10) as int))
    }
}

/// The decimal notation of `v`.
pub open spec fn integer(v: int) -> Seq<char> {
    if v < 0 {
        seq!['-'] + decimal((-v) as nat)
    } else {
        decimal(v as nat)
    }
}

/// The decimal notation of `v`, a lone digit led by a zero.
pub open spec fn two_digits(v: int) -> Seq<char> {
    if 0 <= v < 10 {
        seq!['0'] + decimal(v as nat)
    } else {
        integer(v)
    }
}

/// Whole hours in `m` minutes, towards zero.
pub open spec fn hours(m: int) -> int {
    if m >= 0 {
        m / 60
    } else {
        -((-m) / 60)
    }
}

/// Minutes left over from whole hours, with the sign of `m`.
pub open spec fn minutes(m: int) -> int {
    if m >= 0 {
        m % 60
    } else {
        -((-m) % 60)
    }
}

/// Hours, `h`, two digits of minutes, `m`.
pub open spec fn clock(m: int) -> Seq<char> {
    integer(hours(m)) + seq!['h'] + two_digits(minutes(m)) + seq!['m']
}

fn push_digit(s: &mut String, d: u32)
    requires
        d < 10,
    ensures
        final(s)@ == old(s)@.push(digit(d as int)),
{
    proof {
        reveal_strlit("0");
        reveal_strlit("1");
        reveal_strlit("2");
        reveal_strlit("3");
        reveal_strlit("4");
        reveal_strlit("5");
        reveal_strlit("6");
        reveal_strlit("7");
        reveal_strlit("8");
        reveal_strlit("9");
    }
    let c: &str = match d {
        0 => "0",
        1 => "1",
        2 => "2",
        3 => "3",
        4 => "4",
        5 => "5",
        6 => "6",
        7 => "7",
        8 => "8",
        _ => "9",
    };
    assert(c@ =~= seq![digit(d as int)]);
    s.append(c);
}

fn push_decimal(s: &mut String, n: u32)
    ensures
        final(s)@ == old(s)@ + decimal(n as nat),
    decreases n,
{
    if n >= 10 {
        push_decimal(s, n / 10);
    }
    push_digit(s, n % 10);
}

fn push_integer(s: &mut String, v: i32)
    ensures
        final(s)@ == old(s)@ + integer(v as int),
{
    if v < 0 {
        proof {
            reveal_strlit("-");
        }
        assert("-"@ =~= seq!['-']);
        s.append("-");
        push_decimal(s, (-(v as i64)) as u32);
    } else {
        push_decimal(s, v as u32);
    }
}

fn push_two_digits(s: &mut String, v: i32)
    ensures
        final(s)@ == old(s)@ + two_digits(v as int),
{
    if 0 <= v && v < 10 {
        push_digit(s, 0);
        push_decimal(s, v as u32);
    } else {
        push_integer(s, v);
    }
}

fn split(m: i32) -> (r: (i32, i32))
    ensures
        r.0 == hours(m as int),
        r.1 == minutes(m as int),
{
    if m >= 0 {
        ((m as u32 / 60) as i32, (m as u32 % 60) as i32)
    } else {
        let n: u32 = (-(m as i64)) as u32;
        (-((n / 60) as i32), -((n % 60) as i32))
    }
}

fn push_clock(s: &mut String, m: i32)
    ensures
        final(s)@ == old(s)@ + clock(m as int),
{
    let (h, mm) = split(m);
    proof {
        reveal_strlit("h");
        reveal_strlit("m");
    }
    assert("h"@ =~= seq!['h']);
    assert("m"@ =~= seq!['m']);
    push_integer(s, h);
    s.append("h");
    push_two_digits(s, mm);
    s.append("m");
}

/// A cycle length as hours and minutes: `3h51m`.
pub fn fmt_rt(m: i32) -> (r: String)
    ensures
        r@ == clock(m as int),
{
    let mut s = String::new();
    push_clock(&mut s, m);
    s
}

/// The notation of a stretch of minutes: hours are left out where there are none.
pub open spec fn stretch(m: int) -> Seq<char> {
    if hours(m) > 0 {
        clock(m)
    } else {
        integer(minutes(m)).push('m')
    }
}

/// A stretch of minutes: `1h05m`, or `45m` below the hour.
pub fn fmt_minutes(total: i32) -> (r: String)
    ensures
        r@ == stretch(total as int),
{
    let mut s = String::new();
    let (h, mm) = split(total);
    if h > 0 {
        push_clock(&mut s, total);
    } else {
        push_integer(&mut s, mm);
        proof {
            reveal_strlit("m");
        }
        assert("m"@ =~= seq!['m']);
        s.append("m");
    }
    s
}

/// A mean in whole minutes, halves rounded up.
pub open spec fn rounded_mean(total: int, days: int) -> int {
    (2 * total + days) / (2 * days)
}

/// The mean of a total over some days, in whole minutes, halves rounded up, and
/// no larger than an `i32` holds.
pub fn mean_minutes(total: u128, days: u64) -> (r: i32)
    requires
        days > 0,
        2 * total + days <= u128::MAX,
    ensures
        r == if rounded_mean(total as int, days as int) <= i32::MAX {
            rounded_mean(total as int, days as int)
        } else {
            i32::MAX as int
        },
{
    let mean: u128 = (2 * total + days as u128) / (2 * days as u128);
    if mean <= i32::MAX as u128 {
        mean as i32
    } else {
        i32::MAX
    }
}

/// A mean is the nearest whole number of minutes, and of two that are equally
/// near the larger: it is less than half a minute a day too small and at most half
/// a minute too large.
pub proof fn law_mean_is_nearest(total: int, days: int)
    requires
        total >= 0,
        days > 0,
    ensures
        -days < 2 * (rounded_mean(total, days) * days - total) <= days,
{
    let mean = rounded_mean(total, days);
    vstd::arithmetic::div_mod::lemma_fundamental_div_mod(2 * total + days, 2 * days);
    vstd::arithmetic::div_mod::lemma_mod_bound(2 * total + days, 2 * days);
    assert(2 * days * mean == 2 * (mean * days)) by (nonlinear_arith);
}

/// The number that some digits stand for.
pub open spec fn value_of(s: Seq<char>) -> int
    decreases s.len(),
{
    if s.len() == 0 {
        0
    } else {
        10 * value_of(s.drop_last()) + (s.last() as int - '0' as int)
    }
}

/// A number's digits read back as the number, are digits, and do not start with
/// a zero unless the number is one.
pub proof fn law_decimal_reads_back(n: nat)
    ensures
        value_of(decimal(n)) == n,
        decimal(n).len() > 0,
        forall|i: int| 0 <= i < decimal(n).len() ==> '0' <= #[trigger] decimal(n)[i] <= '9',
        n > 0 ==> decimal(n)[0] != '0',
        n < 10 ==> decimal(n).len() == 1,
    decreases n,
{
    let s = decimal(n);
    if n < 10 {
        assert(s.drop_last() =~= seq![]);
        assert(value_of(s.drop_last()) == 0);
    } else {
        law_decimal_reads_back(n / 10);
        assert(s.drop_last() =~= decimal(n / 10));
        assert(s[0] == decimal(n / 10)[0]);
        assert forall|i: int| 0 <= i < s.len() implies '0' <= #[trigger] s[i] <= '9' by {
            if i < s.len() - 1 {
                assert(s[i] == decimal(n / 10)[i]);
            }
        }
    }
}

/// A negative number is a minus sign and its size.
pub proof fn law_integer_has_its_sign(v: int)
    ensures
        v >= 0 ==> integer(v) == decimal(v as nat),
        v < 0 ==> integer(v)[0] == '-' && integer(v).skip(1) == decimal((-v) as nat),
{
    if v < 0 {
        assert(integer(v).skip(1) =~= decimal((-v) as nat));
    }
}

/// Hours and minutes make up the whole, less than an hour of it in minutes, and
/// neither against its sign.
pub proof fn law_hours_and_minutes_make_up_the_whole(m: int)
    ensures
        60 * hours(m) + minutes(m) == m,
        -60 < minutes(m) < 60,
        m >= 0 ==> hours(m) >= 0 && minutes(m) >= 0,
        m <= 0 ==> hours(m) <= 0 && minutes(m) <= 0,
{
}

/// A clock time reads back: hours, an `h`, two digits of minutes, an `m`.
pub proof fn law_clock_reads_back(m: int)
    requires
        m >= 0,
    ensures
        ({
            let s = clock(m);
            let n = s.len() as int;
            &&& n >= 5
            &&& s[n - 4] == 'h' && s[n - 1] == 'm'
            &&& 60 * value_of(s.take(n - 4)) + value_of(s.subrange(n - 3, n - 1)) == m
            &&& value_of(s.subrange(n - 3, n - 1)) < 60
        }),
{
    let s = clock(m);
    let n = s.len() as int;
    let (h, mm) = (hours(m), minutes(m));
    law_decimal_reads_back(h as nat);
    law_decimal_reads_back(mm as nat);
    law_hours_and_minutes_make_up_the_whole(m);
    let two = two_digits(mm);
    if mm < 10 {
        assert(two.drop_last() =~= seq!['0']);
        assert(seq!['0'].drop_last() =~= seq![]);
        reveal_with_fuel(value_of, 3);
        assert(two =~= seq!['0', digit(mm)]);
    } else {
        let d = decimal(mm as nat);
        assert(decimal((mm / 10) as nat) =~= seq![digit(mm / 10)]);
        assert(d =~= seq![digit(mm / 10), digit(mm % 10)]);
    }
    assert(two.len() == 2 && value_of(two) == mm);
    assert(s.take(n - 4) =~= decimal(h as nat));
    assert(s.subrange(n - 3, n - 1) =~= two);
}

/// A stretch of minutes reads back: below the hour it is its number and an `m`,
/// from the hour on it is a clock time.
pub proof fn law_stretch_reads_back(m: int)
    requires
        m >= 0,
    ensures
        m >= 60 ==> stretch(m) == clock(m),
        m < 60 ==> ({
            let s = stretch(m);
            s.last() == 'm' && value_of(s.drop_last()) == m && s.drop_last() == decimal(m as nat)
        }),
{
    if m < 60 {
        law_decimal_reads_back(m as nat);
        assert(stretch(m).drop_last() =~= decimal(m as nat));
    }
}

} // verus!
