//! Sizes and durations in words.

use crate::text::{decimal, digit_char, to_decimal};
use vstd::prelude::*;
use vstd::string::*;

verus! {

/// `n / d` rounded to the nearest whole number, a tie to the even one.
pub open spec fn nearest(n: nat, d: nat) -> nat {
    if 2 * (n % d) > d || (2 * (n % d) == d && (n / d) % 2 == 1) {
        n / d + 1
    } else {
        n / d
    }
}

/// How many low bits of `n` are more than the 53 that a double holds.
pub open spec fn excess_bits(n: nat) -> nat
    decreases n,
{
    if n < 0x20_0000_0000_0000 {
        0
    } else {
        1 + excess_bits(n / 2)
    }
}

/// Two to the power of `n`.
pub open spec fn two_to(n: nat) -> nat
    decreases n,
{
    if n == 0 {
        1
    } else {
        2 * two_to((n - 1) as nat)
    }
}

/// `n` to the precision of a double: 53 significant bits, a tie to even.
pub open spec fn as_double(n: nat) -> nat {
    let unit = two_to(excess_bits(n));
    nearest(n, unit) * unit
}

/// The size of the largest unit that fits into `n`, up to petabytes.
pub open spec fn unit_size(n: nat) -> nat {
    if n < 0x400 {
        1
    } else if n < 0x10_0000 {
        0x400
    } else if n < 0x4000_0000 {
        0x10_0000
    } else if n < 0x100_0000_0000 {
        0x4000_0000
    } else if n < 0x4_0000_0000_0000 {
        0x100_0000_0000
    } else {
        0x4_0000_0000_0000
    }
}

/// The name of a unit.
pub open spec fn unit_name(unit: nat) -> Seq<char> {
    if unit == 1 {
        " B"@
    } else if unit == 0x400 {
        " KB"@
    } else if unit == 0x10_0000 {
        " MB"@
    } else if unit == 0x4000_0000 {
        " GB"@
    } else if unit == 0x100_0000_0000 {
        " TB"@
    } else {
        " PB"@
    }
}

/// A size in its largest unit: whole bytes below one kilobyte, whole units
/// from a hundred on, and tenths of a unit in between. Sizes beyond the
/// precision of a double are brought to it first.
pub open spec fn size_text(size: nat) -> Seq<char> {
    let n = as_double(size);
    let unit = unit_size(n);
    if size < 1024 {
        decimal(size) + " B"@
    } else if n >= 100 * unit {
        decimal(nearest(n, unit)) + unit_name(unit)
    } else {
        let tenths = nearest(10 * n, unit);
        decimal(tenths / 10).push('.').push(digit_char((tenths % 10) as int)) + unit_name(unit)
    }
}

fn nearest_to(n: u128, d: u128) -> (r: u128)
    requires
        0 < d <= 0x1_0000_0000_0000_0000,
        n <= 0x10_0000_0000_0000_0000,
    ensures
        r == nearest(n as nat, d as nat),
        r <= n + 1,
        r * d <= n + d,
{
    let q = n / d;
    let m = n % d;
    assert(q * d + m == n && q <= n && m < d) by (nonlinear_arith)
        requires
            q == n / d,
            m == n % d,
            d > 0,
    ;
    assert((q + 1) * d == q * d + d) by (nonlinear_arith);
    if 2 * m > d || (2 * m == d && q % 2 == 1) {
        q + 1
    } else {
        q
    }
}

proof fn lemma_excess(n: nat, k: nat)
    requires
        n < 0x20_0000_0000_0000 * two_to(k),
    ensures
        excess_bits(n) <= k,
    decreases k,
{
    if k > 0 && n >= 0x20_0000_0000_0000 {
        lemma_excess(n / 2, (k - 1) as nat);
    }
}

fn double_of(n: u64) -> (r: u128)
    ensures
        r == as_double(n as nat),
        r <= 0x2_0000_0000_0000_0000,
{
    let mut rest: u64 = n;
    let mut unit: u128 = 1;
    let ghost mut k: nat = 0;
    proof {
        reveal_with_fuel(two_to, 12);
        lemma_excess(n as nat, 11);
    }
    while rest >= 0x20_0000_0000_0000
        invariant
            unit == two_to(k),
            excess_bits(n as nat) == k + excess_bits(rest as nat),
            excess_bits(n as nat) <= 11,
            unit <= 2048,
            k <= 11,
        decreases rest,
    {
        proof {
            assert(excess_bits(rest as nat) == 1 + excess_bits((rest / 2) as nat));
            assert(k + 1 <= 11);
            reveal_with_fuel(two_to, 12);
            assert(two_to(k + 1) == 2 * two_to(k));
            lemma_two_to_bound(k + 1);
            k = k + 1;
        }
        rest = rest / 2;
        unit = unit * 2;
    }
    let r = nearest_to(n as u128, unit);
    r * unit
}

proof fn lemma_two_to_bound(k: nat)
    requires
        k <= 11,
    ensures
        two_to(k) <= 2048,
{
    reveal_with_fuel(two_to, 13);
}

/// Sizes up to the precision of a double are shown as they are.
pub proof fn law_small_size_exact(n: nat)
    requires
        n < 0x20_0000_0000_0000,
    ensures
        as_double(n) == n,
{
    assert(excess_bits(n) == 0 && two_to(0) == 1);
    assert(n % 1 == 0 && n / 1 == n);
    assert(nearest(n, 1) == n);
    assert(n * 1 == n) by (nonlinear_arith);
}

fn unit_of(n: u128) -> (r: u128)
    ensures
        r == unit_size(n as nat),
        1 <= r <= 0x4_0000_0000_0000,
{
    if n < 0x400 {
        1
    } else if n < 0x10_0000 {
        0x400
    } else if n < 0x4000_0000 {
        0x10_0000
    } else if n < 0x100_0000_0000 {
        0x4000_0000
    } else if n < 0x4_0000_0000_0000 {
        0x100_0000_0000
    } else {
        0x4_0000_0000_0000
    }
}

fn name_of(unit: u128) -> (r: &'static str)
    ensures
        r@ == unit_name(unit as nat),
{
    if unit == 1 {
        " B"
    } else if unit == 0x400 {
        " KB"
    } else if unit == 0x10_0000 {
        " MB"
    } else if unit == 0x4000_0000 {
        " GB"
    } else if unit == 0x100_0000_0000 {
        " TB"
    } else {
        " PB"
    }
}

/// A size in its largest unit.
pub fn format_size(size: u64) -> (r: String)
    ensures
        r@ == size_text(size as nat),
{
    if size < 1024 {
        let mut s = to_decimal(size);
        s.append(" B");
        return s;
    }
    let n = double_of(size);
    let unit = unit_of(n);
    if n >= 100 * unit {
        let whole = nearest_to(n, unit);
        assert(whole <= n + unit) by (nonlinear_arith)
            requires
                whole * unit <= n + unit,
                unit >= 1,
                whole >= 0,
        ;
        assert(whole <= 0xffff_ffff_ffff_ffff) by (nonlinear_arith)
            requires
                whole * unit <= n + unit,
                n <= 0x2_0000_0000_0000_0000,
                0x4_0000_0000_0000 >= unit >= 1,
                unit >= 0x400 || n < 0x400,
        ;
        let mut s = to_decimal(whole as u64);
        s.append(name_of(unit));
        return s;
    }
    let tenths = nearest_to(10 * n, unit);
    assert(tenths <= 1001) by (nonlinear_arith)
        requires
            tenths * unit <= 10 * n + unit,
            n < 100 * unit,
            unit >= 1,
    ;
    let mut s = to_decimal((tenths / 10) as u64);
    s.push('.');
    s.push(crate::text::digit((tenths % 10) as u8));
    s.append(name_of(unit));
    s
}

/// A duration in its two largest units: days and hours from two days on.
pub open spec fn eta_text(s: nat) -> Seq<char> {
    if s >= 172800 {
        decimal(s / 86400) + "d "@ + decimal((s % 86400) / 3600) + "h"@
    } else if s >= 3600 {
        decimal(s / 3600) + "h "@ + decimal((s % 3600) / 60) + "m"@
    } else if s >= 60 {
        decimal(s / 60) + "m "@ + decimal(s % 60) + "s"@
    } else {
        decimal(s) + "s"@
    }
}

fn two_units(a: u64, a_name: &str, b: u64, b_name: &str) -> (r: String)
    ensures
        r@ == decimal(a as nat) + a_name@ + decimal(b as nat) + b_name@,
{
    let mut s = to_decimal(a);
    s.append(a_name);
    s.append(to_decimal(b).as_str());
    s.append(b_name);
    s
}

/// A number of seconds in its two largest units.
pub fn format_eta(seconds: u64) -> (r: String)
    ensures
        r@ == eta_text(seconds as nat),
{
    let s = seconds;
    if s >= 172800 {
        two_units(s / 86400, "d ", (s % 86400) / 3600, "h")
    } else if s >= 3600 {
        two_units(s / 3600, "h ", (s % 3600) / 60, "m")
    } else if s >= 60 {
        two_units(s / 60, "m ", s % 60, "s")
    } else {
        let mut r = to_decimal(s);
        r.append("s");
        r
    }
}

/// `s` with a comma before each group of three characters, counted from the
/// end.
pub open spec fn grouped(s: Seq<char>) -> Seq<char>
    decreases s.len(),
{
    if s.len() <= 3 {
        s
    } else {
        grouped(s.take(s.len() - 3)).push(',') + s.skip(s.len() - 3)
    }
}

fn group_text(v: &Vec<char>, end: usize) -> (r: String)
    requires
        end <= v@.len(),
    ensures
        r@ == grouped(v@.take(end as int)),
    decreases end,
{
    if end <= 3 {
        return crate::text::text_of(v, 0, end);
    }
    let mut s = group_text(v, end - 3);
    s.push(',');
    s.append(crate::text::text_of(v, end - 3, end).as_str());
    assert(v@.take(end as int).take(end - 3) =~= v@.take(end - 3));
    assert(v@.take(end as int).skip(end - 3) =~= v@.subrange(end - 3, end as int));
    s
}

/// `n` in decimal, with a comma before each group of three digits.
pub fn group_digits(n: u64) -> (r: String)
    ensures
        r@ == grouped(decimal(n as nat)),
{
    let v = crate::text::chars_of(to_decimal(n).as_str());
    assert(v@.take(v@.len() as int) =~= v@);
    group_text(&v, v.len())
}

/// A size in bytes, and in its largest unit where that is another.
pub fn exact_size(bytes: u64) -> (r: String)
    ensures
        r@ == exact_size_text(bytes as nat),
{
    if bytes < 1024 {
        let mut s = to_decimal(bytes);
        s.append(" bytes");
        return s;
    }
    let mut s = format_size(bytes);
    s.append(" (");
    s.append(group_digits(bytes).as_str());
    s.append(" bytes)");
    s
}

/// A size in its largest unit and in bytes, where the two differ.
pub open spec fn exact_size_text(size: nat) -> Seq<char> {
    if size < 1024 {
        decimal(size) + " bytes"@
    } else {
        size_text(size) + " ("@ + grouped(decimal(size)) + " bytes)"@
    }
}

/// Rounding goes to the closest whole number, and from the middle between two
/// to the even one.
pub proof fn law_nearest(n: nat, d: nat)
    requires
        d > 0,
    ensures
        2 * (nearest(n, d) * d) <= 2 * n + d,
        2 * (nearest(n, d) * d) >= 2 * n - d,
        2 * (nearest(n, d) * d) == 2 * n + d || 2 * (nearest(n, d) * d) == 2 * n - d ==> nearest(
            n,
            d,
        ) % 2 == 0,
{
    let q = n / d;
    let m = n % d;
    assert(q * d + m == n && m < d) by (nonlinear_arith)
        requires
            q == n / d,
            m == n % d,
            d > 0,
    ;
    assert((q + 1) * d == q * d + d) by (nonlinear_arith);
}

proof fn lemma_excess_range(n: nat)
    ensures
        n < 0x20_0000_0000_0000 * two_to(excess_bits(n)),
        excess_bits(n) > 0 ==> n >= 0x10_0000_0000_0000 * two_to(excess_bits(n)),
        two_to(excess_bits(n)) > 0,
    decreases n,
{
    if n >= 0x20_0000_0000_0000 {
        lemma_excess_range(n / 2);
    }
}

/// A size is brought to the precision of a double: to the closest number of 53
/// significant bits, and from the middle between two to the even one.
pub proof fn law_double_close(n: nat)
    ensures
        ({
            let unit = two_to(excess_bits(n));
            &&& unit > 0
            &&& n < 0x20_0000_0000_0000 * unit
            &&& unit > 1 ==> n >= 0x10_0000_0000_0000 * unit
            &&& as_double(n) == nearest(n, unit) * unit
            &&& 2 * as_double(n) <= 2 * n + unit
            &&& 2 * as_double(n) >= 2 * n - unit
        }),
{
    lemma_excess_range(n);
    law_nearest(n, two_to(excess_bits(n)));
    assert(two_to(0) == 1);
}

/// The unit of a size is the largest that fits into it: each is 1024 times the
/// one before it, and a size holds less than 1024 of its unit, unless it is
/// the largest one.
pub proof fn law_unit_fits(n: nat)
    requires
        n > 0,
    ensures
        unit_size(n) <= n,
        n < 1024 * unit_size(n) || unit_size(n) == 1024 * 1024 * 1024 * 1024 * 1024,
        unit_size(n) > 1 ==> unit_size(n / 1024) * 1024 == unit_size(n) || n >= 1024 * 1024 * 1024
            * 1024 * 1024 * 1024,
{
}

/// The names of the units, from the smallest to the largest.
pub proof fn law_unit_names()
    ensures
        unit_name(1) == " B"@,
        unit_name(1024) == " KB"@,
        unit_name(1024 * 1024) == " MB"@,
        unit_name(1024 * 1024 * 1024) == " GB"@,
        unit_name(1024 * 1024 * 1024 * 1024) == " TB"@,
        unit_name(1024 * 1024 * 1024 * 1024 * 1024) == " PB"@,
{
}

/// How a size is written. Below 1024 all bytes are shown. From there the size,
/// to the precision of a double, is a number of its unit: of whole ones from a
/// hundred on, and with one decimal before that, in each case the closest there
/// is.
pub proof fn law_size_text(size: nat)
    ensures
        ({
            let n = as_double(size);
            let unit = unit_size(n);
            let whole = nearest(n, unit);
            let tenths = nearest(10 * n, unit);
            &&& size < 1024 ==> size_text(size) == decimal(size) + " B"@
            &&& 1024 <= size && n >= 100 * unit ==> size_text(size) == decimal(whole) + unit_name(
                unit,
            )
            &&& 1024 <= size && n < 100 * unit ==> size_text(size) == decimal(tenths / 10) + seq!['.']
                + decimal(tenths % 10) + unit_name(unit)
            &&& size < 0x20_0000_0000_0000 ==> n == size
        }),
{
    if size < 0x20_0000_0000_0000 {
        law_small_size_exact(size);
    }
    let n = as_double(size);
    let unit = unit_size(n);
    let tenths = nearest(10 * n, unit);
    if 1024 <= size && n < 100 * unit {
        assert(size_text(size) =~= decimal(tenths / 10) + seq!['.'] + decimal(tenths % 10)
            + unit_name(unit));
    }
}

/// How a duration is written: from its days, hours, minutes and seconds, the
/// two largest of them that are not nought, and days only from two on.
pub proof fn law_eta_text(days: nat, hours: nat, minutes: nat, seconds: nat)
    requires
        minutes < 60,
        seconds < 60,
    ensures
        days >= 2 && hours < 24 ==> eta_text(
            86400 * days + 3600 * hours + 60 * minutes + seconds,
        ) == decimal(days) + "d "@ + decimal(hours) + "h"@,
        1 <= hours < 48 ==> eta_text(3600 * hours + 60 * minutes + seconds) == decimal(hours)
            + "h "@ + decimal(minutes) + "m"@,
        minutes >= 1 ==> eta_text(60 * minutes + seconds) == decimal(minutes) + "m "@ + decimal(
            seconds,
        ) + "s"@,
        eta_text(seconds) == decimal(seconds) + "s"@,
{
}

/// Digits are grouped in threes from the end: a comma goes before each further
/// three, and up to three stand alone.
pub proof fn law_grouped(head: Seq<char>, group: Seq<char>)
    requires
        group.len() == 3,
    ensures
        head.len() > 0 ==> grouped(head + group) == grouped(head) + seq![','] + group,
        grouped(group) == group,
        head.len() <= 3 ==> grouped(head) == head,
{
    let s = head + group;
    if head.len() > 0 {
        assert(s.take(s.len() - 3) =~= head);
        assert(s.skip(s.len() - 3) =~= group);
        assert(grouped(s) =~= grouped(head) + seq![','] + group);
    }
}

/// A size in full tells all its bytes, and from 1024 on its size in the
/// largest unit before them.
pub proof fn law_exact_size(size: nat)
    ensures
        size < 1024 ==> exact_size_text(size) == decimal(size) + " bytes"@,
        size >= 1024 ==> exact_size_text(size) == size_text(size) + (" ("@ + grouped(decimal(size))
            + " bytes)"@),
{
    if size >= 1024 {
        assert(exact_size_text(size) =~= size_text(size) + (" ("@ + grouped(decimal(size))
            + " bytes)"@));
    }
}

} // verus!
