//! Frequency value + radio-style digit editor (10 digits, up to 9.999 GHz).

use vstd::prelude::*;
use crate::text::{dec_chars, dec_padded, dec_str, pad_left, push_all, push_str, string_of, strip_end, strip_end_of};

verus! {

pub const MAX_HZ: u64 = 9_999_999_999;

pub open spec fn pow10(n: nat) -> nat
    decreases n,
{
    if n == 0 {
        1
    } else {
        10 * pow10((n - 1) as nat)
    }
}

/// Decimal digit `i` (0 = units) of `v`.
pub open spec fn digit_at(v: nat, i: nat) -> nat {
    (v / pow10(i)) % 10
}

pub proof fn lemma_pow10_pos(n: nat)
    ensures
        pow10(n) >= 1,
    decreases n,
{
    if n > 0 {
        lemma_pow10_pos((n - 1) as nat);
    }
}

proof fn lemma_pow10_mono(a: nat, b: nat)
    requires
        a <= b,
    ensures
        pow10(a) <= pow10(b),
    decreases b,
{
    if a < b {
        lemma_pow10_mono(a, (b - 1) as nat);
        lemma_pow10_pos((b - 1) as nat);
    }
}

/// `10^n` for `n < 20`.
pub fn pow10_u64(n: u32) -> (r: u64)
    requires
        n < 20,
    ensures
        r == pow10(n as nat),
{
    let mut r: u64 = 1;
    let mut i: u32 = 0;
    while i < n
        invariant
            i <= n < 20,
            r == pow10(i as nat),
        decreases n - i,
    {
        proof {
            lemma_pow10_mono((i + 1) as nat, 19);
            reveal_with_fuel(pow10, 20);
            assert(pow10(19) == 10_000_000_000_000_000_000);
        }
        r = r * 10;
        i += 1;
    }
    r
}

/// Radio-style frequency input: a cursor sits on one decimal digit,
/// up/down increments that digit's weight, typing replaces it.
#[derive(Clone, Copy, Debug)]
pub struct FreqInput {
    pub hz: u64,
    /// Digit index under the cursor. 0 = 1 Hz, 3 = 1 kHz, 6 = 1 MHz, 9 = 1 GHz.
    pub cursor: u32,
}

/// The editor's own invariant: a 10-digit frequency, cursor on one of them.
pub open spec fn freq_wf(f: FreqInput) -> bool {
    f.hz <= MAX_HZ && f.cursor <= 9
}

pub open spec fn spec_up(f: FreqInput) -> FreqInput {
    let w = pow10(f.cursor as nat);
    if f.hz + w <= MAX_HZ {
        FreqInput { hz: (f.hz + w) as u64, cursor: f.cursor }
    } else {
        f
    }
}

pub open spec fn spec_down(f: FreqInput) -> FreqInput {
    let w = pow10(f.cursor as nat);
    FreqInput { hz: if f.hz >= w { (f.hz - w) as u64 } else { 0 }, cursor: f.cursor }
}

pub open spec fn spec_type_digit(f: FreqInput, d: u8) -> FreqInput {
    let w = pow10(f.cursor as nat);
    FreqInput {
        hz: (f.hz - digit_at(f.hz as nat, f.cursor as nat) * w + d * w) as u64,
        cursor: if f.cursor > 0 { (f.cursor - 1) as u32 } else { 0 },
    }
}

impl FreqInput {
    pub fn new(hz: u64) -> (f: Self)
        ensures
            f.hz == (if hz <= MAX_HZ { hz } else { MAX_HZ }),
            f.cursor == 3,
            freq_wf(f),
    {
        Self {
            hz: if hz <= MAX_HZ {
                hz
            } else {
                MAX_HZ
            },
            cursor: 3,  // kHz digit: a sane default step for tuning
        }
    }

    fn weight(&self) -> (w: u64)
        requires
            self.cursor < 20,
        ensures
            w == pow10(self.cursor as nat),
    {
        pow10_u64(self.cursor)
    }

    pub fn up(&mut self)
        requires
            old(self).cursor < 20,
            old(self).hz + pow10(old(self).cursor as nat) <= u64::MAX,
        ensures
            *final(self) == spec_up(*old(self)),
    {
        let w = self.weight();
        if self.hz + w <= MAX_HZ {
            self.hz += w;
        }
    }

    pub fn down(&mut self)
        requires
            old(self).cursor < 20,
        ensures
            *final(self) == spec_down(*old(self)),
    {
        let w = self.weight();
        self.hz = self.hz.saturating_sub(w);
    }

    pub fn left(&mut self)
        ensures
            final(self).hz == old(self).hz,
            final(self).cursor == if old(self).cursor < 9 {
                (old(self).cursor + 1) as u32
            } else {
                old(self).cursor
            },
    {
        if self.cursor < 9 {
            self.cursor += 1;
        }
    }

    pub fn right(&mut self)
        ensures
            final(self).hz == old(self).hz,
            final(self).cursor == if old(self).cursor > 0 {
                (old(self).cursor - 1) as u32
            } else {
                old(self).cursor
            },
    {
        if self.cursor > 0 {
            self.cursor -= 1;
        }
    }

    /// Type a digit at the cursor, then advance the cursor to the right
    /// (like keying a frequency into a radio head unit).
    pub fn type_digit(&mut self, d: u8)
        requires
            old(self).cursor < 20,
            old(self).hz - digit_at(old(self).hz as nat, old(self).cursor as nat) * pow10(
                old(self).cursor as nat,
            ) + d * pow10(old(self).cursor as nat) <= u64::MAX,
        ensures
            *final(self) == spec_type_digit(*old(self), d),
    {
        let w = self.weight();
        proof {
            lemma_pow10_pos(self.cursor as nat);
        }
        let cur = (self.hz / w) % 10;
        proof {
            assert(cur * w <= self.hz) by (nonlinear_arith)
                requires
                    cur == (self.hz / w) % 10,
                    w >= 1,
            {
                assert((self.hz / w) % 10 <= self.hz / w);
                assert((self.hz / w) * w <= self.hz);
            }
        }
        self.hz = self.hz - cur * w + (d as u64) * w;
        if self.cursor > 0 {
            self.cursor -= 1;
        }
    }

    /// The 10 digits, most significant first.
    pub fn digits(&self) -> (out: [u8; 10])
        ensures
            forall|i: int| 0 <= i < 10 ==> out[i] == digit_at(self.hz as nat, (9 - i) as nat),
    {
        let mut out = [0u8; 10];
        let mut i: u32 = 0;
        while i < 10
            invariant
                i <= 10,
                forall|k: int| 0 <= k < i ==> out[9 - k] == #[trigger] digit_at(self.hz as nat, k as nat),
            decreases 10 - i,
        {
            let w = pow10_u64(i);
            proof {
                lemma_pow10_pos(i as nat);
            }
            out[(9 - i) as usize] = ((self.hz / w) % 10) as u8;
            i += 1;
        }
        assert forall|k: int| 0 <= k < 10 implies out[k] == digit_at(self.hz as nat, (9 - k) as nat) by {
            assert(out[9 - (9 - k)] == digit_at(self.hz as nat, (9 - k) as nat));
        }
        out
    }
}

/// Value of the low `n` digits of `v`, re-assembled.
pub open spec fn digits_value(v: nat, n: nat) -> nat
    decreases n,
{
    if n == 0 {
        0
    } else {
        digits_value(v, (n - 1) as nat) + digit_at(v, (n - 1) as nat) * pow10((n - 1) as nat)
    }
}

proof fn lemma_digits_value_mod(v: nat, n: nat)
    ensures
        digits_value(v, n) == v % pow10(n),
    decreases n,
{
    lemma_pow10_pos(n);
    if n == 0 {
    } else {
        lemma_digits_value_mod(v, (n - 1) as nat);
        lemma_pow10_pos((n - 1) as nat);
        let p = pow10((n - 1) as nat) as int;
        let vi = v as int;
        vstd::arithmetic::div_mod::lemma_mod_breakdown(vi, p, 10);
        assert(p * 10 == pow10(n));
        assert(vi % (p * 10) == p * ((vi / p) % 10) + vi % p);
        assert(digit_at(v, (n - 1) as nat) == (vi / p) % 10);
        assert(digit_at(v, (n - 1) as nat) * pow10((n - 1) as nat) == p * ((vi / p) % 10)) by (nonlinear_arith)
            requires
                digit_at(v, (n - 1) as nat) == (vi / p) % 10,
                pow10((n - 1) as nat) == p,
        ;
    }
}

/// The ten displayed digits re-assemble to the frequency.
pub proof fn lemma_digits_roundtrip(f: FreqInput)
    requires
        f.hz <= MAX_HZ,
    ensures
        digits_value(f.hz as nat, 10) == f.hz,
{
    lemma_digits_value_mod(f.hz as nat, 10);
    reveal_with_fuel(pow10, 11);
    assert(pow10(10) == 10_000_000_000);
}

/// Stepping a digit down undoes stepping it up (when the step fit).
pub proof fn lemma_down_undoes_up(f: FreqInput)
    requires
        f.hz + pow10(f.cursor as nat) <= MAX_HZ,
    ensures
        spec_down(spec_up(f)) == f,
{
}

/// Up/down keep the editor within 0..=MAX_HZ.
pub proof fn lemma_steps_keep_range(f: FreqInput)
    requires
        freq_wf(f),
    ensures
        freq_wf(spec_up(f)),
        freq_wf(spec_down(f)),
{
}

// ------------------------------------------------------------- formatting

/// Digits of `s` with a `.` before every group of three from the right.
pub open spec fn grouped(s: Seq<char>, n: nat) -> Seq<char>
    decreases n,
{
    if n == 0 || n > s.len() {
        seq![]
    } else {
        let i = (n - 1) as int;
        grouped(s, (n - 1) as nat) + (if i > 0 && (s.len() - i) % 3 == 0 {
            seq!['.']
        } else {
            seq![]
        }) + seq![s[i]]
    }
}

pub open spec fn spec_fmt_hz(hz: u64) -> Seq<char> {
    grouped(dec_str(hz as nat), dec_str(hz as nat).len())
}

/// "145.800.000" style grouping (Hz).
pub fn fmt_hz(hz: u64) -> (s: String)
    ensures
        s@ == spec_fmt_hz(hz),
{
    let b = dec_chars(hz);
    let mut out: Vec<char> = Vec::new();
    let mut i: usize = 0;
    while i < b.len()
        invariant
            i <= b@.len(),
            out@ == grouped(b@, i as nat),
        decreases b.len() - i,
    {
        if i > 0 && (b.len() - i) % 3 == 0 {
            out.push('.');
        }
        out.push(b[i]);
        assert(grouped(b@, (i + 1) as nat) == grouped(b@, i as nat) + (if i > 0 && (b@.len() - i)
            % 3 == 0 {
            seq!['.']
        } else {
            seq![]
        }) + seq![b@[i as int]]);
        i += 1;
    }
    string_of(&out)
}

pub open spec fn spec_fmt_mhz(hz: u64) -> Seq<char> {
    dec_str((hz / 1_000_000) as nat) + seq!['.'] + pad_left(dec_str((hz % 1_000_000) as nat), 6, '0')
}

/// "145.800000" MHz with six decimals (what airspyhf_rx and friends want).
pub fn fmt_mhz(hz: u64) -> (s: String)
    ensures
        s@ == spec_fmt_mhz(hz),
{
    let mut out = dec_chars(hz / 1_000_000);
    out.push('.');
    let frac = dec_padded(hz % 1_000_000, 6);
    push_all(&mut out, &frac);
    assert(out@ == spec_fmt_mhz(hz));
    string_of(&out)
}

/// `int.frac` with `digits` fraction digits, trailing zeros and a bare
/// point trimmed.
pub open spec fn trimmed_decimal(int_part: nat, frac: nat, digits: nat) -> Seq<char> {
    strip_end(strip_end(dec_str(int_part) + seq!['.'] + pad_left(dec_str(frac), digits, '0'), '0'), '.')
}

/// `2^n`.
pub open spec fn two_pow(n: nat) -> nat
    decreases n,
{
    if n == 0 { 1 } else { 2 * two_pow((n - 1) as nat) }
}

/// `floor(log2 n)` (0 for n < 2).
pub open spec fn log2_floor(n: nat) -> nat
    decreases n,
{
    if n < 2 { 0 } else { 1 + log2_floor(n / 2) }
}

/// `a / b` rounded to the nearest integer, ties to even.
pub open spec fn round_even(a: nat, b: nat) -> nat {
    let q = a / b;
    let r = a % b;
    if 2 * r > b || (2 * r == b && q % 2 == 1) { q + 1 } else { q }
}

/// The value of `n as f64` (nearest double, ties to even), exactly.
pub open spec fn f64_of(n: nat) -> nat {
    let e = log2_floor(n);
    if e <= 52 { n } else { round_even(n, two_pow((e - 52) as nat)) * two_pow((e - 52) as nat) }
}

/// Binary places of the double nearest `x / 10^6` (for `x >= 0`): its
/// value is `mhz_mantissa(x) / 2^mhz_places(x)`.
pub open spec fn mhz_places(x: nat) -> nat {
    (52 - log2_floor(x / 1_000_000)) as nat
}

pub open spec fn mhz_mantissa(x: nat) -> nat {
    round_even(x * two_pow(mhz_places(x)), 1_000_000)
}

/// `hz as f64 / 1e6` printed with four decimals (`{:.4}`: the double's
/// exact value rounded, ties to even), as a count of 0.0001 MHz.
pub open spec fn mhz_ten_thousandths(hz: u64) -> nat {
    let x = f64_of(hz as nat);
    round_even(mhz_mantissa(x) * 10_000, two_pow(mhz_places(x)))
}

/// Short human form: MHz as the double `hz / 1e6` printed to four
/// decimals, kHz to three (exact there), trailing zeros trimmed.
pub open spec fn spec_fmt_short(hz: u64) -> Seq<char> {
    if hz >= 1_000_000 {
        let units = mhz_ten_thousandths(hz);
        trimmed_decimal((units / 10_000) as nat, (units % 10_000) as nat, 4) + " MHz"@
    } else if hz >= 1_000 {
        trimmed_decimal((hz / 1000) as nat, (hz % 1000) as nat, 3) + " kHz"@
    } else {
        dec_str(hz as nat) + " Hz"@
    }
}

fn round_even_of(a: u128, b: u128) -> (r: u128)
    requires
        b > 0,
        a < u128::MAX,
    ensures
        r == round_even(a as nat, b as nat),
{
    let q = a / b;
    let r = a % b;
    proof {
        assert(q * b <= a) by (nonlinear_arith)
            requires
                q == a / b,
                b > 0,
        ;
        assert(q < u128::MAX);
    }
    if r > b - r || (r == b - r && q % 2 == 1) {
        q + 1
    } else {
        q
    }
}

proof fn lemma_round_even_bounds(a: nat, b: nat)
    requires
        b > 0,
    ensures
        a / b <= round_even(a, b) <= a / b + 1,
        round_even(a, b) * b <= a + b,
        a < round_even(a, b) * b + b,
{
    let q = a / b;
    assert(q * b <= a && a < q * b + b) by (nonlinear_arith)
        requires
            q == a / b,
            b > 0,
    ;
    assert((q + 1) * b == q * b + b) by (nonlinear_arith);
}

fn pow2_u128(n: u32) -> (p: u128)
    requires
        n <= 64,
    ensures
        p == two_pow(n as nat),
        p <= 0x1_0000_0000_0000_0000,
{
    proof {
        lemma_two_pow_64();
    }
    let mut p: u128 = 1;
    let mut i: u32 = 0;
    while i < n
        invariant
            i <= n <= 64,
            p == two_pow(i as nat),
            two_pow(64) == 0x1_0000_0000_0000_0000,
        decreases n - i,
    {
        proof {
            lemma_two_pow_mono((i + 1) as nat, 64);
        }
        p = p * 2;
        i += 1;
    }
    proof {
        lemma_two_pow_mono(n as nat, 64);
    }
    p
}

proof fn lemma_two_pow_64()
    ensures
        two_pow(64) == 0x1_0000_0000_0000_0000,
        two_pow(53) == 0x20_0000_0000_0000,
        two_pow(52) == 0x10_0000_0000_0000,
        two_pow(46) == 0x4000_0000_0000,
{
    reveal_with_fuel(two_pow, 65);
}

proof fn lemma_two_pow_mono(a: nat, b: nat)
    requires
        a <= b,
    ensures
        1 <= two_pow(a) <= two_pow(b),
    decreases b,
{
    if a < b {
        lemma_two_pow_mono(a, (b - 1) as nat);
    } else if a > 0 {
        lemma_two_pow_mono((a - 1) as nat, (a - 1) as nat);
    }
}

proof fn lemma_log2_lt(n: nat, k: nat)
    requires
        k >= 1,
        n < two_pow(k),
    ensures
        log2_floor(n) < k,
    decreases n,
{
    if n >= 2 {
        assert(k >= 2) by {
            if k == 1 {
                assert(two_pow(1) == 2) by {
                    reveal_with_fuel(two_pow, 2);
                }
            }
        }
        assert(two_pow(k) == 2 * two_pow((k - 1) as nat));
        lemma_log2_lt(n / 2, (k - 1) as nat);
    }
}

fn log2_floor_of(n: u128) -> (e: u32)
    requires
        n <= 0x2_0000_0000_0000_0000,
    ensures
        e == log2_floor(n as nat),
        e <= 65,
{
    proof {
        lemma_two_pow_64();
        assert(two_pow(66) == 4 * two_pow(64)) by {
            reveal_with_fuel(two_pow, 3);
        }
        lemma_log2_lt(n as nat, 66);
    }
    let mut v = n;
    let mut e: u32 = 0;
    while v >= 2
        invariant
            e + log2_floor(v as nat) == log2_floor(n as nat),
            log2_floor(n as nat) < 66,
        decreases v,
    {
        v = v / 2;
        e += 1;
    }
    e
}

/// [`mhz_ten_thousandths`], computed exactly in 128-bit integers.
fn mhz_units(hz: u64) -> (u: u64)
    ensures
        u == mhz_ten_thousandths(hz),
{
    proof {
        lemma_two_pow_64();
    }
    let h = hz as u128;
    proof {
        lemma_log2_lt(h as nat, 64);
    }
    let e = log2_floor_of(h);
    let x: u128 = if e <= 52 {
        h
    } else {
        let p = pow2_u128(e - 52);
        proof {
            lemma_two_pow_mono((e - 52) as nat, 11);
            assert(two_pow(11) == 2048) by {
                reveal_with_fuel(two_pow, 12);
            }
            lemma_round_even_bounds(h as nat, p as nat);
            let r = round_even(h as nat, p as nat);
            assert(r * p <= h + p);
        }
        let r = round_even_of(h, p);
        r * p
    };
    assert(x == f64_of(hz as nat));
    assert(x <= 0x1_0000_0000_0000_0000 + 2048);
    let q = x / 1_000_000;
    proof {
        lemma_log2_lt(q as nat, 46);
    }
    let e2 = log2_floor_of(q);
    let t = 52 - e2;
    let pt = pow2_u128(t);
    proof {
        lemma_two_pow_mono(t as nat, 52);
        assert(x * pt <= (0x1_0000_0000_0000_0000 + 2048) * 0x10_0000_0000_0000) by (nonlinear_arith)
            requires
                x <= 0x1_0000_0000_0000_0000 + 2048,
                pt <= 0x10_0000_0000_0000,
        ;
    }
    let num = x * pt;
    proof {
        lemma_round_even_bounds(num as nat, 1_000_000);
    }
    let n = round_even_of(num, 1_000_000);
    assert(n == mhz_mantissa(x as nat));
    proof {
        assert(n * 10_000 < 0x1_0000_0000_0000_0000_0000_0000_0000) by (nonlinear_arith)
            requires
                n <= num / 1_000_000 + 1,
                num <= (0x1_0000_0000_0000_0000 + 2048) * 0x10_0000_0000_0000,
        ;
        lemma_round_even_bounds((n * 10_000) as nat, pt as nat);
    }
    let n4 = round_even_of(n * 10_000, pt);
    proof {
        let a = n * 10_000;
        assert(n4 * pt <= a + pt);
        assert(n * 1_000_000 <= num + 1_000_000);
        assert(n4 * 100 <= x + 1_000_100) by (nonlinear_arith)
            requires
                n4 * pt <= n * 10_000 + pt,
                n * 1_000_000 <= x * pt + 1_000_000,
                pt >= 1,
        {
            assert(n4 * pt * 100 <= n * 1_000_000 + 100 * pt);
            assert(n4 * pt * 100 <= x * pt + 1_000_000 + 100 * pt);
            assert(n4 * pt * 100 <= (x + 1_000_100) * pt);
        }
    }
    n4 as u64
}

fn trimmed_decimal_of(int_part: u64, frac: u64, digits: usize) -> (r: Vec<char>)
    ensures
        r@ == trimmed_decimal(int_part as nat, frac as nat, digits as nat),
{
    let mut out = dec_chars(int_part);
    out.push('.');
    let f = dec_padded(frac, digits);
    push_all(&mut out, &f);
    assert(out@ == dec_str(int_part as nat) + seq!['.'] + pad_left(dec_str(frac as nat), digits as nat, '0'));
    strip_end_of(&mut out, '0');
    strip_end_of(&mut out, '.');
    out
}

/// Short human form: "145.8 MHz", "7.646 kHz" style, trimmed.
pub fn fmt_short(hz: u64) -> (s: String)
    ensures
        s@ == spec_fmt_short(hz),
{
    let mut out: Vec<char>;
    if hz >= 1_000_000 {
        let units = mhz_units(hz);
        out = trimmed_decimal_of(units / 10_000, units % 10_000, 4);
        push_str(&mut out, " MHz");
    } else if hz >= 1_000 {
        out = trimmed_decimal_of(hz / 1000, hz % 1000, 3);
        push_str(&mut out, " kHz");
    } else {
        out = dec_chars(hz);
        push_str(&mut out, " Hz");
    }
    string_of(&out)
}

} // verus!
