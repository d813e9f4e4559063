//! Human-readable sizes and modification times, as shown in a listing.

use vstd::prelude::*;
use crate::text::{decimal, digit, digit_char, push_char, push_decimal, push_zero_padded, zero_padded};

verus! {

// ---------------------------------------------------------------------------
// Sizes
// ---------------------------------------------------------------------------

/// `num / den` rounded to the nearest integer, ties to the even neighbour.
pub open spec fn div_round_half_even(num: nat, den: nat) -> nat
    recommends
        den > 0,
{
    let q = num / den;
    let r = num % den;
    if 2 * r > den || (2 * r == den && q % 2 == 1) {
        q + 1
    } else {
        q
    }
}

/// The distance between neighbouring `f64` values around `n`: one below 2^53,
/// doubling with each further binary digit of `n`.
pub open spec fn float_spacing(n: nat) -> nat
    decreases n,
{
    if n < 0x20_0000_0000_0000 {
        1
    } else {
        2 * float_spacing(n / 2)
    }
}

/// The integer `n` converted to the nearest `f64` (ties to even), which is again
/// an integer.
pub open spec fn nearest_f64(n: nat) -> nat {
    div_round_half_even(n, float_spacing(n)) * float_spacing(n)
}

/// A count of tenths written with one decimal place, such as "12.3".
pub open spec fn tenths_text(t: nat) -> Seq<char> {
    decimal(t / 10) + seq!['.', digit_char(t % 10)]
}

/// How a size in bytes is shown: whole bytes below 1024, otherwise the
/// quotient by 1024, 1024^2 or 1024^3 with one decimal place (rounded half to
/// even) and the unit KB, MB or GB.  In the GB range the size is first taken
/// as the nearest `f64`.
pub open spec fn size_text(size: nat) -> Seq<char> {
    if size < 1024 {
        decimal(size) + seq!['B']
    } else if size < 0x10_0000 {
        tenths_text(div_round_half_even(size * 10, 1024)) + seq!['K', 'B']
    } else if size < 0x4000_0000 {
        tenths_text(div_round_half_even(size * 10, 0x10_0000)) + seq!['M', 'B']
    } else {
        tenths_text(div_round_half_even(nearest_f64(size) * 10, 0x4000_0000)) + seq!['G', 'B']
    }
}

fn div_round_half_even_u128(num: u128, den: u128) -> (q: u128)
    requires
        den > 0,
        num / den < u128::MAX,
    ensures
        q == div_round_half_even(num as nat, den as nat),
        q <= num / den + 1,
{
    let q = num / den;
    let r = num % den;
    if r > den - r || (r == den - r && q % 2 == 1) {
        q + 1
    } else {
        q
    }
}

/// The `f64` nearest to `n`, as an integer.
fn nearest_f64_u128(n: u64) -> (r: u128)
    ensures
        r == nearest_f64(n as nat),
        r < 0x2_0000_0000_0000_0000u128,
{
    let mut m: u64 = n;
    let mut p: u128 = 1;
    while m >= 0x20_0000_0000_0000u64
        invariant
            p > 0,
            m as nat == n as nat / p as nat,
            float_spacing(n as nat) == p * float_spacing(m as nat),
            p * m <= n,
            p == 1 || p * 0x10_0000_0000_0000 <= n,
        decreases m,
    {
        proof {
            vstd::arithmetic::div_mod::lemma_div_denominator(n as int, p as int, 2);
            assert(p * 2 <= p * m) by (nonlinear_arith)
                requires m >= 2, p > 0;
            assert(p * 2 * (m / 2) <= p * m) by (nonlinear_arith)
                requires p > 0, m >= 0;
            let fs = float_spacing((m / 2) as nat);
            assert(float_spacing(m as nat) == 2 * fs);
            assert(p * 2 * fs == p * (2 * fs)) by (nonlinear_arith);
            assert(p * 2 * 0x10_0000_0000_0000 <= p * m) by (nonlinear_arith)
                requires m >= 0x20_0000_0000_0000, p > 0;
        }
        m = m / 2;
        p = p * 2;
    }
    proof {
        assert(float_spacing(m as nat) == 1);
        let fm = float_spacing(m as nat);
        let fnn = float_spacing(n as nat);
        assert(fnn == p) by (nonlinear_arith)
            requires fnn == p * fm, fm == 1;
        assert(n as nat / p as nat <= n as nat);
    }
    let q = div_round_half_even_u128(n as u128, p);
    proof {
        assert(q <= n as nat / p as nat + 1);
        assert(q * p <= (n as nat / p as nat) * p + p) by (nonlinear_arith)
            requires q <= n as nat / p as nat + 1, p > 0;
        assert((n as nat / p as nat) * p <= n) by (nonlinear_arith)
            requires p > 0;
        assert(p < 0x1000) by (nonlinear_arith)
            requires p == 1 || p * 0x10_0000_0000_0000 <= n, n < 0x1_0000_0000_0000_0000int;
        assert(q <= 0x20_0000_0000_0000);
        assert(q * p < 0x2_0000_0000_0000_0000) by (nonlinear_arith)
            requires q <= 0x20_0000_0000_0000, p < 0x1000, p > 0;
        assert(q == div_round_half_even(n as nat, float_spacing(n as nat)));
    }
    q * p
}

/// Appends a count of tenths with one decimal place.
fn push_tenths(s: &mut String, t: u64)
    ensures
        final(s)@ == old(s)@ + tenths_text(t as nat),
{
    push_decimal(s, t / 10);
    push_char(s, '.');
    push_char(s, digit(t % 10));
}

/// The size of a file as shown in a listing: "512B", "1.5KB", "20.0MB", "3.2GB".
pub fn format_size(size: u64) -> (text: String)
    ensures
        text@ == size_text(size as nat),
{
    let mut s = String::new();
    if size < 1024 {
        push_decimal(&mut s, size);
        push_char(&mut s, 'B');
    } else if size < 0x10_0000 {
        let t = div_round_half_even_u128(size as u128 * 10, 1024);
        push_tenths(&mut s, t as u64);
        push_char(&mut s, 'K');
        push_char(&mut s, 'B');
    } else if size < 0x4000_0000 {
        let t = div_round_half_even_u128(size as u128 * 10, 0x10_0000);
        push_tenths(&mut s, t as u64);
        push_char(&mut s, 'M');
        push_char(&mut s, 'B');
    } else {
        let r = nearest_f64_u128(size);
        let t = div_round_half_even_u128(r * 10, 0x4000_0000);
        push_tenths(&mut s, t as u64);
        push_char(&mut s, 'G');
        push_char(&mut s, 'B');
    }
    s
}

// ---------------------------------------------------------------------------
// Times
// ---------------------------------------------------------------------------

/// How a count of seconds since the Unix epoch is shown, "YYYY-MM-DD hh:mm",
/// counting years of 365 days and months of 30 days.
pub open spec fn timestamp_text(secs: nat) -> Seq<char> {
    let years = 1970 + secs / 31_536_000;
    let months = (secs % 31_536_000) / 2_592_000 + 1;
    let days = (secs % 2_592_000) / 86_400 + 1;
    let hours = (secs % 86_400) / 3_600;
    let minutes = (secs % 3_600) / 60;
    zero_padded(years, 4) + seq!['-'] + zero_padded(months, 2) + seq!['-'] + zero_padded(days, 2)
        + seq![' '] + zero_padded(hours, 2) + seq![':'] + zero_padded(minutes, 2)
}

/// The text shown for a time that lies before the epoch.
pub open spec fn unknown_text() -> Seq<char> {
    seq!['U', 'n', 'k', 'n', 'o', 'w', 'n']
}

/// How a modification time is shown: the timestamp for whole seconds since the
/// epoch, or "Unknown" for a time before the epoch (`None`).
pub open spec fn time_text(since_epoch: Option<u64>) -> Seq<char> {
    match since_epoch {
        Some(secs) => timestamp_text(secs as nat),
        None => unknown_text(),
    }
}

/// The modification time of a file as shown in a listing, from its whole
/// seconds since the Unix epoch (`None` when the time lies before the epoch).
pub fn format_time(since_epoch: Option<u64>) -> (text: String)
    ensures
        text@ == time_text(since_epoch),
{
    let mut s = String::new();
    match since_epoch {
        Some(secs) => {
            let years = 1970 + secs / 31_536_000;
            let months = (secs % 31_536_000) / 2_592_000 + 1;
            let days = (secs % 2_592_000) / 86_400 + 1;
            let hours = (secs % 86_400) / 3_600;
            let minutes = (secs % 3_600) / 60;
            push_zero_padded(&mut s, years, 4);
            push_char(&mut s, '-');
            push_zero_padded(&mut s, months, 2);
            push_char(&mut s, '-');
            push_zero_padded(&mut s, days, 2);
            push_char(&mut s, ' ');
            push_zero_padded(&mut s, hours, 2);
            push_char(&mut s, ':');
            push_zero_padded(&mut s, minutes, 2);
        },
        None => {
            push_char(&mut s, 'U');
            push_char(&mut s, 'n');
            push_char(&mut s, 'k');
            push_char(&mut s, 'n');
            push_char(&mut s, 'o');
            push_char(&mut s, 'w');
            push_char(&mut s, 'n');
        },
    }
    s
}

} // verus!
