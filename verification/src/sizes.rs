//! Writing durations and sizes for the user.

use crate::decimal::{decimal, decimal2, decimal2_text, decimal_text};
use crate::text::concat3;
use vstd::arithmetic::div_mod::{lemma_div_denominator, lemma_fundamental_div_mod};
use vstd::arithmetic::power2::{lemma2_to64, lemma2_to64_rest, lemma_pow2_unfold, pow2};
use vstd::prelude::*;
use vstd::string::*;

verus! {

/// A duration in hours, minutes and seconds; the hours are left out where there are none.
pub open spec fn duration_text(seconds: nat) -> Seq<char> {
    let h = seconds / 3600;
    let m = (seconds % 3600) / 60;
    let s = seconds % 60;
    if h > 0 {
        decimal(h) + ":"@ + decimal2(m) + ":"@ + decimal2(s)
    } else {
        decimal(m) + ":"@ + decimal2(s)
    }
}

/// Writes a duration in hours, minutes and seconds.
pub fn format_duration(seconds: u64) -> (text: String)
    ensures
        text@ == duration_text(seconds as nat),
{
    let h: u64 = seconds / 3600;
    let m: u64 = (seconds % 3600) / 60;
    let s: u64 = seconds % 60;
    if h > 0 {
        let mut text: String = concat3(decimal_text(h).as_str(), ":", decimal2_text(m).as_str());
        text.append(":");
        text.append(decimal2_text(s).as_str());
        text
    } else {
        concat3(decimal_text(m).as_str(), ":", decimal2_text(s).as_str())
    }
}

/// The hours, minutes and seconds that are written add up to the duration, and there are less than
/// sixty minutes and seconds.
pub proof fn lemma_duration_adds_up(seconds: nat)
    ensures
        3600 * (seconds / 3600) + 60 * ((seconds % 3600) / 60) + seconds % 60 == seconds,
        (seconds % 3600) / 60 < 60,
        seconds % 60 < 60,
{
}

/// The quotient `n / d`, rounded to the next whole number, and to the even one of two that are
/// equally near.
pub open spec fn rounded(n: nat, d: nat) -> nat {
    let q = n / d;
    let r = n % d;
    if 2 * r < d || (2 * r == d && q % 2 == 0) {
        q
    } else {
        q + 1
    }
}

/// The distance between neighbours of `n` among the numbers with 53 significant bits.
pub open spec fn spacing(n: nat) -> nat
    decreases n,
{
    if n < 0x20_0000_0000_0000 {
        1
    } else {
        2 * spacing(n / 2)
    }
}

/// The number with 53 significant bits that is next to `n`.
pub open spec fn nearest(n: nat) -> nat {
    rounded(n, spacing(n)) * spacing(n)
}

/// The largest unit that a size is written in: bytes, or their multiples by 1024.
pub open spec fn unit_of(bytes: nat) -> (nat, Seq<char>) {
    if bytes < 0x400 {
        (1, "B"@)
    } else if bytes < 0x10_0000 {
        (0x400, "KB"@)
    } else if bytes < 0x4000_0000 {
        (0x10_0000, "MB"@)
    } else {
        (0x4000_0000, "GB"@)
    }
}

/// A size in a unit that suits it: bytes as they are, other units with one decimal.
pub open spec fn size_text(bytes: nat) -> Seq<char> {
    let (unit, name) = unit_of(bytes);
    if unit == 1 {
        decimal(bytes) + " "@ + name
    } else {
        let tenths = rounded(10 * nearest(bytes), unit);
        decimal(tenths / 10) + "."@ + decimal(tenths % 10) + " "@ + name
    }
}

/// Divides and rounds to the next whole number.
fn divide_rounded(n: u128, d: u128) -> (q: u128)
    requires
        0 < d <= 0x1_0000_0000_0000_0000,
    ensures
        q == rounded(n as nat, d as nat),
{
    let q: u128 = n / d;
    let r: u128 = n % d;
    if 2 * r < d || (2 * r == d && q % 2 == 0) {
        q
    } else {
        proof {
            lemma_fundamental_div_mod(n as int, d as int);
            if q == u128::MAX {
                assert(d * q >= q) by (nonlinear_arith)
                    requires
                        d >= 1,
                        q >= 0,
                ;
                if d > 1 {
                    assert(d * q >= 2 * q) by (nonlinear_arith)
                        requires
                            d >= 2,
                            q >= 0,
                    ;
                }
            }
        }
        q + 1
    }
}

/// Finds the distance between neighbours of `n` among the numbers with 53 significant bits.
fn find_spacing(n: u64) -> (s: u64)
    ensures
        s == spacing(n as nat),
        0 < s <= 0x1000,
{
    let mut s: u64 = 1;
    while n / s >= 0x20_0000_0000_0000
        invariant
            0 < s <= 0x1000,
            s * spacing((n / s) as nat) == spacing(n as nat),
        decreases n / s,
    {
        proof {
            lemma_fundamental_div_mod(n as int, s as int);
            let q = (n / s) as int;
            assert(s < 0x800) by (nonlinear_arith)
                requires
                    s * q <= n,
                    q >= 0x20_0000_0000_0000,
                    n <= 0xffff_ffff_ffff_ffff,
            ;
            lemma_div_denominator(n as int, s as int, 2);
            assert(n as int / (s * 2) == q / 2);
            assert(s * (2 * spacing((q / 2) as nat)) == (2 * s) * spacing((q / 2) as nat))
                by (nonlinear_arith);
        }
        s = s * 2;
    }
    let ghost last = spacing((n / s) as nat);
    assert(s * last == s) by (nonlinear_arith)
        requires
            last == 1,
    ;
    s
}

/// Writes a size in a unit that suits it.
pub fn format_size(bytes: u64) -> (text: String)
    ensures
        text@ == size_text(bytes as nat),
{
    if bytes < 0x400 {
        return concat3(decimal_text(bytes).as_str(), " ", "B");
    }
    let (unit, name): (u64, &str) = if bytes < 0x10_0000 {
        (0x400, "KB")
    } else if bytes < 0x4000_0000 {
        (0x10_0000, "MB")
    } else {
        (0x4000_0000, "GB")
    };
    let s: u64 = find_spacing(bytes);
    let q: u128 = divide_rounded(bytes as u128, s as u128);
    proof {
        lemma_fundamental_div_mod(bytes as int, s as int);
        assert(q * s <= bytes + s) by (nonlinear_arith)
            requires
                q <= bytes as int / s as int + 1,
                s as int * (bytes as int / s as int) <= bytes,
                s > 0,
        ;
        assert(q * s >= 0) by (nonlinear_arith)
            requires
                q >= 0,
                s >= 0,
        ;
    }
    let near: u128 = q * s as u128;
    let tenths: u128 = divide_rounded(10 * near, unit as u128);
    proof {
        lemma_fundamental_div_mod(10 * near as int, unit as int);
    }
    let whole: u64 = (tenths / 10) as u64;
    let rest: u64 = (tenths % 10) as u64;
    let mut text: String = concat3(
        decimal_text(whole).as_str(),
        ".",
        decimal_text(rest).as_str(),
    );
    text.append(" ");
    text.append(name);
    text
}

proof fn lemma_rounded_is_near(n: nat, d: nat)
    requires
        d > 0,
    ensures
        2 * (rounded(n, d) * d - n) <= d,
        2 * (n - rounded(n, d) * d) <= d,
{
    lemma_fundamental_div_mod(n as int, d as int);
    let q = n / d;
    assert(q * d == d * q) by (nonlinear_arith);
    assert((q + 1) * d == d * q + d) by (nonlinear_arith);
}

/// A size of less than eight pebibytes that is not written in bytes is off by at most half of the
/// last digit.
pub proof fn lemma_written_size_is_near(bytes: nat)
    requires
        0x400 <= bytes < 0x20_0000_0000_0000,
    ensures
        ({
            let (unit, name) = unit_of(bytes);
            let tenths = rounded(10 * nearest(bytes), unit);
            &&& size_text(bytes) == decimal(tenths / 10) + "."@ + decimal(tenths % 10) + " "@ + name
            &&& 2 * (tenths * unit - 10 * bytes) <= unit
            &&& 2 * (10 * bytes - tenths * unit) <= unit
        }),
{
    assert(spacing(bytes) == 1);
    assert(nearest(bytes) == bytes);
    lemma_rounded_is_near(10 * bytes, unit_of(bytes).0);
}

/// A duration is written as its hours, minutes and seconds, with two digits for all but the first
/// of them; the hours are left out where there are none, and the minutes never.
pub proof fn lemma_duration_is_written(hours: nat, minutes: nat, seconds: nat)
    requires
        minutes < 60,
        seconds < 60,
    ensures
        ({
            let text = duration_text(3600 * hours + 60 * minutes + seconds);
            &&& hours == 0 ==> text == decimal(minutes) + seq![':'] + decimal2(seconds)
            &&& hours > 0 ==> text == decimal(hours) + seq![':'] + decimal2(minutes) + seq![':']
                + decimal2(seconds)
        }),
{
    let all = 3600 * hours + 60 * minutes + seconds;
    assert(all / 3600 == hours);
    assert(all % 3600 == 60 * minutes + seconds);
    assert((60 * minutes + seconds) / 60 == minutes);
    assert(all % 60 == seconds);
    reveal_strlit(":");
    assert(":"@ =~= seq![':']);
}

/// Whether `q` is the whole number next to `n / d`, and the even one of two that are equally near.
pub open spec fn is_next_to(q: nat, n: nat, d: nat) -> bool {
    let over = 2 * (q * d - n);
    -d < over < d || ((over == d || over == -d) && q % 2 == 0)
}

/// A quotient is rounded to the whole number next to it.
pub proof fn lemma_rounded_is_next(q: nat, n: nat, d: nat)
    requires
        d > 0,
        is_next_to(q, n, d),
    ensures
        rounded(n, d) == q,
{
    lemma_fundamental_div_mod(n as int, d as int);
    let down = (n / d) as int;
    let r = (n % d) as int;
    let more = q - down;
    assert(d * down == down * d) by (nonlinear_arith);
    assert(q * d - n == more * d - r) by (nonlinear_arith)
        requires
            n == d * down + r,
            more == q - down,
    ;
    if more >= 2 {
        assert(more * d - r > d) by (nonlinear_arith)
            requires
                more >= 2,
                d > 0,
                r < d,
        ;
    } else if more <= -1 {
        assert(more * d - r <= -d) by (nonlinear_arith)
            requires
                more <= -1,
                d > 0,
                r >= 0,
        ;
    } else {
        assert(more * d == if more == 1 {
            d as int
        } else {
            0
        }) by (nonlinear_arith)
            requires
                more == 0 || more == 1,
        ;
    }
}

/// The neighbours of a number below two to the power of 53 are one apart; those of a number that
/// needs `k` bits more are two to the power of `k` apart.
pub proof fn lemma_neighbours_apart(n: nat, k: nat)
    ensures
        n < pow2(53) ==> spacing(n) == 1,
        pow2(52 + k) <= n < pow2(53 + k) ==> spacing(n) == pow2(k),
    decreases k,
{
    lemma2_to64();
    lemma2_to64_rest();
    if k > 0 && pow2(52 + k) <= n < pow2(53 + k) {
        lemma_pow2_unfold(53 + k);
        lemma_pow2_unfold(52 + k);
        lemma_pow2_unfold(k);
        lemma_pow2_grows(53, 52 + k);
        lemma_neighbours_apart(n / 2, (k - 1) as nat);
    }
}

/// Two to a higher power is no less.
proof fn lemma_pow2_grows(low: nat, high: nat)
    requires
        low <= high,
    ensures
        pow2(low) <= pow2(high),
    decreases high - low,
{
    if low < high {
        lemma_pow2_unfold(high);
        lemma_pow2_grows(low, (high - 1) as nat);
    }
}

/// A number below two to the power of 53 has 53 significant bits already. Of another the next
/// multiple of two to the power of `k` is taken, where it needs `k` bits more than that.
pub proof fn lemma_nearest_is_next(n: nat, k: nat, q: nat)
    requires
        is_next_to(q, n, pow2(k)),
        pow2(52 + k) <= n < pow2(53 + k),
    ensures
        nearest(n) == q * pow2(k),
{
    lemma_neighbours_apart(n, k);
    vstd::arithmetic::power2::lemma_pow2_pos(k);
    lemma_rounded_is_next(q, n, pow2(k));
}

/// Sizes below two to the power of 53 are taken as they are.
pub proof fn lemma_small_sizes_are_exact(n: nat)
    requires
        n < pow2(53),
    ensures
        nearest(n) == n,
{
    lemma_neighbours_apart(n, 0);
    assert(is_next_to(n, n, 1));
    lemma_rounded_is_next(n, n, 1);
}

/// A size from 1024 on is written in the largest unit that it fills, up to gigabytes, with the
/// tenths that are next to it.
pub proof fn lemma_size_is_written(bytes: nat, unit: nat, name: Seq<char>, tenths: nat)
    requires
        bytes >= 1024,
        bytes < 1024 * 1024 ==> unit == 1024 && name == seq!['K', 'B'],
        1024 * 1024 <= bytes < 1024 * 1024 * 1024 ==> unit == 1024 * 1024 && name == seq!['M', 'B'],
        bytes >= 1024 * 1024 * 1024 ==> unit == 1024 * 1024 * 1024 && name == seq!['G', 'B'],
        is_next_to(tenths, 10 * nearest(bytes), unit),
    ensures
        size_text(bytes) == decimal(tenths / 10) + seq!['.'] + decimal(tenths % 10) + seq![' ']
            + name,
{
    reveal_strlit("KB");
    reveal_strlit("MB");
    reveal_strlit("GB");
    reveal_strlit(".");
    reveal_strlit(" ");
    assert("KB"@ =~= seq!['K', 'B']);
    assert("MB"@ =~= seq!['M', 'B']);
    assert("GB"@ =~= seq!['G', 'B']);
    assert("."@ =~= seq!['.']);
    assert(" "@ =~= seq![' ']);
    lemma_rounded_is_next(tenths, 10 * nearest(bytes), unit);
}

/// A size below 1024 is written in bytes, as it is.
pub proof fn lemma_bytes_are_written(bytes: nat)
    requires
        bytes < 1024,
    ensures
        size_text(bytes) == decimal(bytes) + seq![' ', 'B'],
{
    reveal_strlit("B");
    reveal_strlit(" ");
    assert(decimal(bytes) + " "@ + "B"@ =~= decimal(bytes) + seq![' ', 'B']);
}

} // verus!
