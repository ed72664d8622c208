//! POCSAG encoder: BCH(31,21) + even parity codewords, batch framing,
//! alpha & numeric messages. Spec-correct enough that multimon-ng decodes it.

use vstd::prelude::*;

verus! {

pub const SYNC: u32 = 0x7CD2_15D8;

pub const IDLE: u32 = 0x7A89_C197;

/// x^10+x^9+x^8+x^6+x^5+x^3+1
pub const GEN: u32 = 0x769;

// ------------------------------------------------------------ BCH algebra

/// One long-division step at bit `i` (10..=30): clear bit `i` by xoring in
/// the generator aligned under it.
pub open spec fn bch_step(rem: u32, i: u32) -> u32 {
    if rem & (1u32 << i) != 0 {
        rem ^ (0x769u32 << (((i - 10) as u32)))
    } else {
        rem
    }
}

/// Division steps for bits `i` down to 10.
pub open spec fn bch_rem_from(rem: u32, i: int) -> u32
    decreases i,
{
    if i < 10 || i > 30 {
        rem
    } else {
        bch_rem_from(bch_step(rem, i as u32), i - 1)
    }
}

/// Remainder of a 31-bit word modulo the BCH generator (bits 30..10 divided).
pub open spec fn bch_rem(x: u32) -> u32 {
    bch_rem_from(x, 30)
}

/// Number of set bits among the low `n` bits of `w`.
pub open spec fn ones(w: u32, n: nat) -> nat
    decreases n,
{
    if n == 0 {
        0
    } else {
        ones(w, (n - 1) as nat) + ((w >> ((n - 1) as u32)) & 1) as nat
    }
}

pub open spec fn parity(w: u32) -> u32 {
    (ones(w, 32) % 2) as u32
}

/// BCH(31,21) codeword with even parity for 21 information bits.
pub open spec fn spec_codeword(data21: u32) -> u32 {
    let full31 = (data21 << 10u32) | (bch_rem(data21 << 10u32) & 0x3FF);
    let word = full31 << 1u32;
    word | parity(word)
}

/// BCH syndrome (low 10 bits) plus the parity bit at bit 10.
pub open spec fn spec_syndrome(w: u32) -> u32 {
    (bch_rem(w >> 1u32) & 0x3FF) | (parity(w) << 10u32)
}

proof fn lemma_step_xor(a: u32, b: u32, i: u32)
    requires
        10 <= i <= 30,
    ensures
        bch_step(a ^ b, i) == bch_step(a, i) ^ bch_step(b, i),
{
    assert(10 <= i <= 30 ==> ((if (a ^ b) & (1u32 << i) != 0 {
        (a ^ b) ^ (0x769u32 << ((i - 10) as u32))
    } else {
        a ^ b
    }) == ((if a & (1u32 << i) != 0 {
        a ^ (0x769u32 << ((i - 10) as u32))
    } else {
        a
    }) ^ (if b & (1u32 << i) != 0 {
        b ^ (0x769u32 << ((i - 10) as u32))
    } else {
        b
    })))) by (bit_vector);
}

/// Division is linear over GF(2).
proof fn lemma_rem_from_xor(a: u32, b: u32, i: int)
    ensures
        bch_rem_from(a ^ b, i) == bch_rem_from(a, i) ^ bch_rem_from(b, i),
    decreases i,
{
    if 10 <= i <= 30 {
        lemma_step_xor(a, b, i as u32);
        lemma_rem_from_xor(bch_step(a, i as u32), bch_step(b, i as u32), i - 1);
    }
}

proof fn lemma_step_small(x: u32, i: u32)
    requires
        10 <= i <= 30,
        x < 0x400,
    ensures
        bch_step(x, i) == x,
{
    assert(10 <= i <= 30 && x < 0x400 ==> x & (1u32 << i) == 0) by (bit_vector);
}

/// Words below 2^10 are their own remainder.
proof fn lemma_rem_from_small(x: u32, i: int)
    requires
        x < 0x400,
    ensures
        bch_rem_from(x, i) == x,
    decreases i,
{
    if 10 <= i <= 30 {
        lemma_step_small(x, i as u32);
        lemma_rem_from_small(x, i - 1);
    }
}

proof fn lemma_step_shrinks(x: u32, i: u32)
    requires
        10 <= i <= 30,
        x < (1u32 << (i + 1)),
    ensures
        bch_step(x, i) < (1u32 << i),
{
    assert(10 <= i <= 30 && x < (1u32 << ((i + 1) as u32)) ==> (if x & (1u32 << i) != 0 {
        x ^ (0x769u32 << ((i - 10) as u32))
    } else {
        x
    }) < (1u32 << i)) by (bit_vector);
}

/// The remainder of a word below 2^(i+1) is below 2^10.
proof fn lemma_rem_from_reduces(x: u32, i: int)
    requires
        9 <= i <= 30,
        x < (1u32 << ((i + 1) as u32)),
    ensures
        bch_rem_from(x, i) < 0x400,
    decreases i,
{
    if i == 9 {
        assert((1u32 << 10u32) == 0x400) by (bit_vector);
    } else {
        lemma_step_shrinks(x, i as u32);
        assert((i - 1 + 1) as u32 == i as u32);
        lemma_rem_from_reduces(bch_step(x, i as u32), i - 1);
    }
}

proof fn lemma_ones_or_one(w: u32, n: nat)
    requires
        w & 1 == 0,
        1 <= n <= 32,
    ensures
        ones(w | 1, n) == ones(w, n) + 1,
    decreases n,
{
    if n == 1 {
        assert(w & 1 == 0 ==> ((w | 1) >> 0u32) & 1 == 1 && (w >> 0u32) & 1 == 0) by (bit_vector);
        assert(ones(w | 1, 0) == 0 && ones(w, 0) == 0);
    } else {
        lemma_ones_or_one(w, (n - 1) as nat);
        let k = (n - 1) as u32;
        assert(1 <= k < 32 ==> ((w | 1) >> k) & 1 == (w >> k) & 1) by (bit_vector);
    }
}

proof fn lemma_ones_flip(w: u32, k: u32, n: nat)
    requires
        k < 32,
        n <= 32,
    ensures
        k < n ==> (ones(w ^ (1u32 << k), n) + ones(w, n)) % 2 == 1,
        k >= n ==> ones(w ^ (1u32 << k), n) == ones(w, n),
    decreases n,
{
    if n > 0 {
        lemma_ones_flip(w, k, (n - 1) as nat);
        let j = (n - 1) as u32;
        assert(j < 32 && k < 32 && j != k ==> ((w ^ (1u32 << k)) >> j) & 1 == (w >> j) & 1)
            by (bit_vector);
        assert(j < 32 && k < 32 && j == k ==> (((w ^ (1u32 << k)) >> j) & 1) + ((w >> j) & 1) == 1)
            by (bit_vector);
        assert(((w ^ (1u32 << k)) >> j) & 1 <= 1 && (w >> j) & 1 <= 1) by (bit_vector);
    }
}

/// Small facts of 32-bit words used by the codeword proofs.
proof fn lemma_word_facts(x: u32, y: u32)
    by (bit_vector)
    ensures
        x < 0x400 ==> x & 0x3FF == x,
        x | 0 == x,
        x ^ x == 0,
        x ^ y == 0 ==> x == y,
        (0u32 & 0x3FF) == 0,
        (0u32 << 10u32) == 0,
{
}

/// Every codeword the encoder emits has a zero syndrome.
pub proof fn lemma_codeword_valid(data21: u32)
    requires
        data21 < 0x20_0000,
    ensures
        spec_syndrome(spec_codeword(data21)) == 0,
{
    let x = data21 << 10u32;
    assert(data21 < 0x20_0000 ==> data21 << 10u32 < (1u32 << 31u32)) by (bit_vector);
    assert((30 + 1) as u32 == 31u32);
    lemma_rem_from_reduces(x, 30);
    let r = bch_rem(x);
    lemma_word_facts(r, r);
    let full31 = x | r;
    assert(data21 < 0x20_0000 && r < 0x400 ==> (data21 << 10u32) | r == (data21 << 10u32) ^ r)
        by (bit_vector);
    let word = full31 << 1u32;
    let p = parity(word);
    assert(p == 0 || p == 1);
    let w = word | p;
    assert(full31 < (1u32 << 31u32) ==> (full31 << 1u32) & 1 == 0) by (bit_vector);
    assert(full31 < (1u32 << 31u32) && p <= 1 ==> ((full31 << 1u32) | p) >> 1u32 == full31)
        by (bit_vector);
    assert(data21 < 0x20_0000 && r < 0x400 ==> (data21 << 10u32) ^ r < (1u32 << 31u32))
        by (bit_vector);
    lemma_rem_from_xor(x, r, 30);
    lemma_rem_from_small(r, 30);
    assert(full31 == x ^ r);
    assert(full31 < (1u32 << 31u32));
    assert(w >> 1u32 == full31);
    assert(bch_rem(full31) == r ^ r);
    assert(bch_rem(w >> 1u32) == 0);
    if p == 1 {
        lemma_ones_or_one(word, 32);
    } else {
        lemma_word_facts(word, word);
    }
    assert(parity(w) == 0);
    lemma_word_facts(0, 0);
}

/// A single flipped bit in a valid codeword is always detected.
pub proof fn lemma_single_error_detected(w: u32, k: u32)
    requires
        spec_syndrome(w) == 0,
        k < 32,
    ensures
        spec_syndrome(w ^ (1u32 << k)) != 0,
{
    let b = bch_rem(w >> 1u32) & 0x3FF;
    let pw = parity(w);
    assert(b | (pw << 10u32) == 0 ==> pw << 10u32 == 0) by (bit_vector);
    assert(pw <= 1);
    assert(pw <= 1 && pw << 10u32 == 0 ==> pw == 0) by (bit_vector);
    lemma_ones_flip(w, k, 32);
    let w2 = w ^ (1u32 << k);
    assert(parity(w2) == 1);
    let b2 = bch_rem(w2 >> 1u32) & 0x3FF;
    assert(b2 | (1u32 << 10u32) != 0) by (bit_vector);
}

/// A word with a zero syndrome is the codeword of its own 21 information
/// bits: together with [`lemma_codeword_valid`], the syndrome is zero
/// exactly on the encoder's codewords.
pub proof fn lemma_zero_syndrome_is_codeword(w: u32)
    requires
        spec_syndrome(w) == 0,
    ensures
        w == spec_codeword(w >> 11u32),
        w >> 11u32 < 0x20_0000,
{
    let d = w >> 11u32;
    let full = w >> 1u32;
    let x = d << 10u32;
    let r0 = full & 0x3FF;
    assert(d < 0x20_0000 && full < (1u32 << 31u32) && r0 < 0x400 && full == x ^ r0 && x ^ r0 == x | r0
        && x < (1u32 << 31u32)) by (bit_vector)
        requires
            d == w >> 11u32,
            full == w >> 1u32,
            x == d << 10u32,
            r0 == full & 0x3FF,
    ;
    assert((30 + 1) as u32 == 31u32);
    lemma_rem_from_reduces(full, 30);
    lemma_rem_from_reduces(x, 30);
    lemma_rem_from_xor(x, r0, 30);
    lemma_rem_from_small(r0, 30);
    let b = bch_rem(full);
    let pw = parity(w);
    assert(pw <= 1);
    assert((b & 0x3FF) | (pw << 10u32) == 0 && b < 0x400 && pw <= 1 ==> b == 0 && pw == 0) by (bit_vector);
    assert(b == 0 && pw == 0);
    let rx = bch_rem(x);
    assert(b == rx ^ r0);
    lemma_word_facts(rx, r0);
    let full31 = x | (rx & 0x3FF);
    assert(full31 == full);
    let word = full31 << 1u32;
    assert(word & 1 == 0 && (word | 1 == w || word == w) && (w & 1 == 0 ==> word == w) && (w & 1 != 0
        ==> word | 1 == w)) by (bit_vector)
        requires
            word == (w >> 1u32) << 1u32,
    ;
    if w & 1 == 0 {
        assert(word == w);
        assert(parity(word) == 0);
        lemma_word_facts(word, word);
    } else {
        lemma_ones_or_one(word, 32);
        assert(word | 1 == w);
        assert(parity(word) == 1);
    }
}

// ------------------------------------------------------------ exec codewords

fn bch_step_exec(rem: u32, i: u32) -> (r: u32)
    requires
        10 <= i <= 30,
    ensures
        r == bch_step(rem, i),
{
    if rem & (1u32 << i) != 0 {
        rem ^ (GEN << (i - 10))
    } else {
        rem
    }
}

fn bch_rem_exec(x: u32) -> (r: u32)
    ensures
        r == bch_rem(x),
{
    let mut rem = x;
    let mut i: u32 = 31;
    while i > 10
        invariant
            10 <= i <= 31,
            bch_rem(x) == bch_rem_from(rem, i - 1),
        decreases i,
    {
        i -= 1;
        rem = bch_step_exec(rem, i);
    }
    rem
}

fn ones_exec(w: u32) -> (r: u32)
    ensures
        r as nat == ones(w, 32),
{
    let mut c: u32 = 0;
    let mut k: u32 = 0;
    while k < 32
        invariant
            k <= 32,
            c as nat == ones(w, k as nat),
            c <= k,
        decreases 32 - k,
    {
        let b = (w >> k) & 1;
        assert((w >> k) & 1 <= 1) by (bit_vector);
        c += b;
        k += 1;
    }
    c
}

/// 21 information bits → 32-bit codeword (BCH check bits + even parity).
pub fn codeword(data21: u32) -> (w: u32)
    requires
        data21 < 0x20_0000,
    ensures
        w == spec_codeword(data21),
        spec_syndrome(w) == 0,
{
    proof {
        lemma_codeword_valid(data21);
    }
    let rem = bch_rem_exec(data21 << 10);
    let full31 = (data21 << 10) | (rem & 0x3FF);
    let word = full31 << 1;
    word | (ones_exec(word) % 2)
}

/// Zero iff `w` is a valid POCSAG codeword (BCH syndrome + parity).
pub fn syndrome(w: u32) -> (s: u32)
    ensures
        s == spec_syndrome(w),
{
    let rem = bch_rem_exec(w >> 1);
    (rem & 0x3FF) | ((ones_exec(w) % 2) << 10)
}

pub open spec fn spec_address_codeword(addr: u32, func: u8) -> u32 {
    spec_codeword((((addr >> 3u32) & 0x3_FFFF) << 2u32) | ((func & 3) as u32))
}

pub open spec fn spec_message_codeword(bits20: u32) -> u32 {
    spec_codeword((1u32 << 20u32) | (bits20 & 0xF_FFFF))
}

fn address_codeword(addr: u32, func: u8) -> (w: u32)
    ensures
        w == spec_address_codeword(addr, func),
{
    let d = ((addr >> 3) & 0x3_FFFF) << 2 | ((func & 3) as u32);
    assert((((addr >> 3u32) & 0x3_FFFF) << 2u32) | ((func & 3) as u32) < 0x20_0000) by (bit_vector);
    codeword(d)
}

fn message_codeword(bits20: u32) -> (w: u32)
    ensures
        w == spec_message_codeword(bits20),
{
    let d = 1u32 << 20 | (bits20 & 0xF_FFFF);
    assert((1u32 << 20u32) | (bits20 & 0xF_FFFF) < 0x20_0000) by (bit_vector);
    codeword(d)
}

// ------------------------------------------------------------------ payload

#[derive(Clone, Copy, PartialEq, Eq, Debug)]
pub enum Content<'a> {
    Alpha(&'a str),
    Numeric(&'a str),
    ToneOnly,
}

/// `n` bits of `v`, least significant first.
pub open spec fn lsb_bits(v: u32, n: nat) -> Seq<bool> {
    Seq::new(n, |i: int| (v >> (i as u32)) & 1 == 1)
}

/// The 4-bit BCD-ish code of a numeric-page char (`None`: not encodable).
pub open spec fn numeric_nibble(c: char) -> Option<u32> {
    if '0' <= c && c <= '9' {
        Some(((c as u32) - 48) as u32)
    } else if c == 'U' || c == 'u' {
        Some(0xB)
    } else if c == ' ' {
        Some(0xC)
    } else if c == '-' {
        Some(0xD)
    } else if c == ')' {
        Some(0xE)
    } else if c == '(' {
        Some(0xF)
    } else {
        None
    }
}

/// Air bits of an alpha page: 7-bit ASCII per char, LSB first.
pub open spec fn alpha_bits(s: Seq<char>) -> Seq<bool>
    decreases s.len(),
{
    if s.len() == 0 {
        seq![]
    } else {
        alpha_bits(s.drop_last()) + lsb_bits((s.last() as u32) & 0x7F, 7)
    }
}

/// Air bits of a numeric page: 4 bits per encodable char, LSB first.
pub open spec fn numeric_bits(s: Seq<char>) -> Seq<bool>
    decreases s.len(),
{
    if s.len() == 0 {
        seq![]
    } else {
        numeric_bits(s.drop_last()) + match numeric_nibble(s.last()) {
            Some(n) => lsb_bits(n, 4),
            None => seq![],
        }
    }
}

/// Packs up to 20 bits MSB-first into a 20-bit value (first bit → bit 19).
pub open spec fn pack20(b: Seq<bool>) -> u32
    decreases b.len(),
{
    if b.len() == 0 || b.len() > 20 {
        0
    } else {
        pack20(b.drop_last()) | (if b.last() {
            1u32 << ((20 - b.len()) as u32)
        } else {
            0u32
        })
    }
}

/// Number of 20-bit chunks needed for `n` bits.
pub open spec fn n_chunks(n: nat) -> nat {
    (n + 19) / 20
}

/// The 20-bit message chunks of a payload bit string.
pub open spec fn chunks20(b: Seq<bool>) -> Seq<u32> {
    Seq::new(
        n_chunks(b.len()),
        |k: int| pack20(b.subrange(20 * k, if 20 * k + 20 <= b.len() { 20 * k + 20 } else { b.len() as int })),
    )
}

fn push_lsb_bits(bits: &mut Vec<bool>, v: u32, n: u32)
    requires
        n <= 32,
    ensures
        final(bits)@ == old(bits)@ + lsb_bits(v, n as nat),
{
    let mut i: u32 = 0;
    while i < n
        invariant
            i <= n <= 32,
            bits@ == old(bits)@ + lsb_bits(v, i as nat),
        decreases n - i,
    {
        bits.push(v >> i & 1 == 1);
        assert(lsb_bits(v, (i + 1) as nat) == lsb_bits(v, i as nat).push((v >> i) & 1 == 1));
        i += 1;
    }
}

fn nibble_of(c: char) -> (r: Option<u32>)
    ensures
        r == numeric_nibble(c),
{
    if c >= '0' && c <= '9' {
        Some(c as u32 - 48)
    } else if c == 'U' || c == 'u' {
        Some(0xB)
    } else if c == ' ' {
        Some(0xC)
    } else if c == '-' {
        Some(0xD)
    } else if c == ')' {
        Some(0xE)
    } else if c == '(' {
        Some(0xF)
    } else {
        None
    }
}

pub open spec fn payload_bit_seq(content: Content) -> Seq<bool> {
    match content {
        Content::Alpha(t) => alpha_bits(t@),
        Content::Numeric(d) => numeric_bits(d@),
        Content::ToneOnly => seq![],
    }
}

fn payload_bits(content: Content) -> (bits: Vec<bool>)
    ensures
        bits@ == payload_bit_seq(content),
{
    let mut bits: Vec<bool> = Vec::new();
    match content {
        Content::Alpha(text) => {
            let cs = crate::text::chars_of(text);
            let mut i: usize = 0;
            while i < cs.len()
                invariant
                    i <= cs@.len(),
                    cs@ == text@,
                    bits@ == alpha_bits(cs@.take(i as int)),
                decreases cs.len() - i,
            {
                let c = cs[i];
                push_lsb_bits(&mut bits, (c as u32) & 0x7F, 7);
                assert(cs@.take(i + 1).drop_last() == cs@.take(i as int));
                i += 1;
            }
            assert(cs@.take(cs@.len() as int) == cs@);
        },
        Content::Numeric(digits) => {
            let cs = crate::text::chars_of(digits);
            let mut i: usize = 0;
            while i < cs.len()
                invariant
                    i <= cs@.len(),
                    cs@ == digits@,
                    bits@ == numeric_bits(cs@.take(i as int)),
                decreases cs.len() - i,
            {
                let c = cs[i];
                assert(cs@.take(i + 1).drop_last() == cs@.take(i as int));
                match nibble_of(c) {
                    Some(nib) => {
                        push_lsb_bits(&mut bits, nib, 4);
                    },
                    None => {
                        assert(bits@ == bits@ + Seq::<bool>::empty());
                    },
                }
                i += 1;
            }
            assert(cs@.take(cs@.len() as int) == cs@);
        },
        Content::ToneOnly => {},
    }
    bits
}

fn pack20_exec(bits: &Vec<bool>, a: usize, b: usize) -> (v: u32)
    requires
        a <= b <= bits@.len(),
        b - a <= 20,
    ensures
        v == pack20(bits@.subrange(a as int, b as int)),
{
    let mut v: u32 = 0;
    let mut i: usize = a;
    while i < b
        invariant
            a <= i <= b <= bits@.len(),
            b - a <= 20,
            v == pack20(bits@.subrange(a as int, i as int)),
        decreases b - i,
    {
        assert(bits@.subrange(a as int, i + 1).drop_last() == bits@.subrange(a as int, i as int));
        if bits[i] {
            v = v | (1u32 << ((19 - (i - a)) as u32));
        } else {
            assert(v | 0u32 == v) by (bit_vector);
        }
        i += 1;
    }
    v
}

/// Message payload → 20-bit chunks (MSB-first fill; chars LSB-first).
pub fn payload_chunks(content: Content) -> (out: Vec<u32>)
    ensures
        out@ == chunks20(payload_bit_seq(content)),
        out@.len() <= usize::MAX / 20 + 1,
{
    let bits = payload_bits(content);
    let n: usize = bits.len() / 20 + if bits.len() % 20 != 0 {
        1
    } else {
        0
    };
    assert(n == n_chunks(bits@.len()));
    let mut out: Vec<u32> = Vec::new();
    let mut k: usize = 0;
    while k < n
        invariant
            k <= n,
            n == n_chunks(bits@.len()),
            out@.len() == k,
            forall|m: int| 0 <= m < k ==> #[trigger] out@[m] == chunks20(bits@)[m],
            bits@.len() <= usize::MAX,
        decreases n - k,
    {
        assert(20 * k <= bits@.len()) by (nonlinear_arith)
            requires
                k < n,
                n == bits@.len() / 20 + if bits@.len() % 20 != 0 { 1int } else { 0int },
        ;
        assert(bits@.len() == bits.len());
        let a = 20 * k;
        let b = if bits.len() - a >= 20 {
            a + 20
        } else {
            bits.len()
        };
        let v = pack20_exec(&bits, a, b);
        out.push(v);
        k += 1;
    }
    assert(out@ == chunks20(bits@));
    out
}

// ------------------------------------------------------- reading it back

/// The 20 data bits of a message codeword (bits 30..11).
pub open spec fn message_data(w: u32) -> u32 {
    (w >> 11u32) & 0xF_FFFF
}

/// A 20-bit chunk as bits, most significant first.
pub open spec fn unpack20(w: u32) -> Seq<bool> {
    Seq::new(20, |i: int| (w >> ((19 - i) as u32)) & 1 == 1)
}

/// Chunks unpacked in order.
pub open spec fn unpack_all(ws: Seq<u32>) -> Seq<bool>
    decreases ws.len(),
{
    if ws.len() == 0 {
        seq![]
    } else {
        unpack_all(ws.drop_last()) + unpack20(ws.last())
    }
}

/// The bits padded with zeros to whole 20-bit chunks.
pub open spec fn padded20(b: Seq<bool>) -> Seq<bool> {
    b + Seq::new((20 * n_chunks(b.len()) - b.len()) as nat, |i: int| false)
}

/// Seven bits, least significant first, as a number.
pub open spec fn lsb7(b: Seq<bool>) -> nat {
    let v = |i: int, w: nat| -> nat { if b[i] { w } else { 0 } };
    v(0, 1) + v(1, 2) + v(2, 4) + v(3, 8) + v(4, 16) + v(5, 32) + v(6, 64)
}

/// An alpha page read from its bits: `n` characters of seven bits each.
pub open spec fn alpha_text(bits: Seq<bool>, n: nat) -> Seq<char> {
    Seq::new(n, |k: int| (lsb7(bits.subrange(7 * k, 7 * k + 7)) as char))
}

proof fn lemma_message_data(x: u32)
    ensures
        message_data(spec_message_codeword(x)) == x & 0xF_FFFF,
{
    let d = (1u32 << 20u32) | (x & 0xF_FFFF);
    let r = bch_rem(d << 10u32);
    let word = ((d << 10u32) | (r & 0x3FF)) << 1u32;
    let p = parity(word);
    assert(p <= 1);
    assert((((((1u32 << 20u32) | (x & 0xF_FFFF)) << 10u32) | (r & 0x3FF)) << 1u32 | p) >> 11u32 & 0xF_FFFF
        == x & 0xF_FFFF) by (bit_vector)
        requires
            p <= 1,
    ;
}

proof fn lemma_or_bit(x: u32, k: u32, j: u32)
    requires
        k < 32,
        j < 32,
    ensures
        ((x | (1u32 << k)) >> j) & 1 == 1 <==> ((x >> j) & 1 == 1 || j == k),
{
    assert(((x | (1u32 << k)) >> j) & 1 == 1 <==> ((x >> j) & 1 == 1 || j == k)) by (bit_vector)
        requires
            k < 32,
            j < 32,
    ;
}

#[verifier::rlimit(40)]
#[verifier::spinoff_prover]
proof fn lemma_pack20(b: Seq<bool>)
    requires
        b.len() <= 20,
    ensures
        forall|j: u32| j < 20 ==> ((#[trigger] (pack20(b) >> j) & 1 == 1) == (19 - j < b.len() && b[19 - j])),
    decreases b.len(),
{
    if b.len() > 0 {
        let d = b.drop_last();
        lemma_pack20(d);
        let pd = pack20(d);
        let k = (20 - b.len()) as u32;
        assert(pack20(b) == pd | (if b.last() { 1u32 << k } else { 0u32 }));
        assert(pd | 0u32 == pd) by (bit_vector);
        assert forall|j: u32| j < 20 implies ((#[trigger] (pack20(b) >> j) & 1 == 1) == (19 - j < b.len() && b[19
            - j])) by {
            assert(((pd >> j) & 1 == 1) == (19 - j < d.len() && d[19 - j]));
            if b.last() {
                lemma_or_bit(pd, k, j);
            }
            if 19 - j < d.len() {
                assert(b[19 - j] == d[19 - j]);
            }
        }
    } else {
        assert forall|j: u32| j < 20 implies ((#[trigger] (pack20(b) >> j) & 1 == 1) == (19 - j < b.len() && b[19
            - j])) by {
            assert((0u32 >> j) & 1 == 0) by (bit_vector);
        }
    }
}

proof fn lemma_pack20_small(b: Seq<bool>)
    ensures
        pack20(b) < 0x10_0000,
    decreases b.len(),
{
    if b.len() > 0 && b.len() <= 20 {
        let d = b.drop_last();
        lemma_pack20_small(d);
        let pd = pack20(d);
        let k = (20 - b.len()) as u32;
        assert(pack20(b) == pd | (if b.last() { 1u32 << k } else { 0u32 }));
        assert(pd < 0x10_0000 && k < 20 ==> (pd | (1u32 << k)) < 0x10_0000 && (pd | 0u32) < 0x10_0000)
            by (bit_vector);
    }
}

proof fn lemma_unpack_pack(b: Seq<bool>)
    requires
        b.len() <= 20,
    ensures
        unpack20(pack20(b)) == b + Seq::new((20 - b.len()) as nat, |i: int| false),
{
    lemma_pack20(b);
    let z = b + Seq::new((20 - b.len()) as nat, |i: int| false);
    assert forall|i: int| 0 <= i < 20 implies unpack20(pack20(b))[i] == z[i] by {
        let j = (19 - i) as u32;
        assert(((pack20(b) >> j) & 1 == 1) == (19 - j < b.len() && b[19 - j]));
    }
    assert(unpack20(pack20(b)) =~= z);
}

#[verifier::rlimit(40)]
#[verifier::spinoff_prover]
proof fn lemma_unpack_chunks_prefix(b: Seq<bool>, k: int)
    requires
        0 <= k <= n_chunks(b.len()),
    ensures
        unpack_all(chunks20(b).take(k)) == padded20(b).take(20 * k),
    decreases k,
{
    let c = chunks20(b);
    let q = padded20(b);
    if k == 0 {
        assert(c.take(0) =~= Seq::<u32>::empty());
        assert(q.take(0) =~= Seq::<bool>::empty());
    } else {
        let j = k - 1;
        lemma_unpack_chunks_prefix(b, j);
        assert(c.take(k).drop_last() =~= c.take(j));
        assert(c.take(k).last() == c[j]);
        let hi = if 20 * j + 20 <= b.len() { 20 * j + 20 } else { b.len() as int };
        let piece = b.subrange(20 * j, hi);
        lemma_unpack_pack(piece);
        assert(q.subrange(20 * j, 20 * j + 20) =~= piece + Seq::new((20 - piece.len()) as nat, |i: int| false));
        assert(q.take(20 * k) =~= q.take(20 * j) + q.subrange(20 * j, 20 * j + 20));
    }
}

/// Unpacking the chunks gives back the bits, padded to whole chunks.
proof fn lemma_unpack_chunks(b: Seq<bool>)
    ensures
        unpack_all(chunks20(b)) == padded20(b),
{
    let n = n_chunks(b.len()) as int;
    lemma_unpack_chunks_prefix(b, n);
    assert(chunks20(b).take(n) =~= chunks20(b));
    assert(padded20(b).take(20 * n) =~= padded20(b));
}

#[verifier::rlimit(40)]
#[verifier::spinoff_prover]
proof fn lemma_alpha_bits_chunk(s: Seq<char>, k: int)
    requires
        0 <= k < s.len(),
    ensures
        alpha_bits(s).len() == 7 * s.len(),
        alpha_bits(s).subrange(7 * k, 7 * k + 7) == lsb_bits((s[k] as u32) & 0x7F, 7),
    decreases s.len(),
{
    let d = s.drop_last();
    let n = s.len() as int;
    if k < n - 1 {
        lemma_alpha_bits_chunk(d, k);
        assert(alpha_bits(s).subrange(7 * k, 7 * k + 7) =~= alpha_bits(d).subrange(7 * k, 7 * k + 7));
        assert(d[k] == s[k]);
    } else {
        if n > 1 {
            lemma_alpha_bits_chunk(d, 0);
        } else {
            assert(alpha_bits(d) =~= Seq::<bool>::empty());
        }
        assert(alpha_bits(s).subrange(7 * k, 7 * k + 7) =~= lsb_bits((s[k] as u32) & 0x7F, 7));
    }
}

proof fn lemma_lsb7(v: u32)
    ensures
        lsb7(lsb_bits(v, 7)) == v & 0x7F,
{
    let b = lsb_bits(v, 7);
    assert(b[0] == ((v >> 0u32) & 1 == 1) && b[1] == ((v >> 1u32) & 1 == 1) && b[2] == ((v >> 2u32) & 1 == 1)
        && b[3] == ((v >> 3u32) & 1 == 1) && b[4] == ((v >> 4u32) & 1 == 1) && b[5] == ((v >> 5u32) & 1 == 1)
        && b[6] == ((v >> 6u32) & 1 == 1));
    assert((if (v >> 0u32) & 1 == 1 { 1u32 } else { 0u32 }) + (if (v >> 1u32) & 1 == 1 { 2u32 } else { 0u32 }) + (
    if (v >> 2u32) & 1 == 1 {
        4u32
    } else {
        0u32
    }) + (if (v >> 3u32) & 1 == 1 { 8u32 } else { 0u32 }) + (if (v >> 4u32) & 1 == 1 { 16u32 } else { 0u32 }) + (
    if (v >> 5u32) & 1 == 1 {
        32u32
    } else {
        0u32
    }) + (if (v >> 6u32) & 1 == 1 { 64u32 } else { 0u32 }) == v & 0x7F) by (bit_vector);
}

/// The data bits of the message codewords made from a bit string's
/// chunks are those chunks.
proof fn lemma_chunk_data(a: Seq<bool>)
    ensures
        chunks20(a).map_values(|c: u32| spec_message_codeword(c)).map_values(|w: u32| message_data(w)) == chunks20(a),
{
    let ch = chunks20(a);
    let data = ch.map_values(|c: u32| spec_message_codeword(c)).map_values(|w: u32| message_data(w));
    assert(data =~= ch) by {
        assert forall|k: int| 0 <= k < ch.len() implies data[k] == ch[k] by {
            lemma_message_data(ch[k]);
            let hi = if 20 * k + 20 <= a.len() { 20 * k + 20 } else { a.len() as int };
            lemma_pack20_small(a.subrange(20 * k, hi));
            let x = ch[k];
            assert(x & 0xF_FFFF == x) by (bit_vector)
                requires
                    x < 0x10_0000,
            ;
        }
    }
}

/// Four bits, least significant first, as a number.
pub open spec fn lsb4(b: Seq<bool>) -> nat {
    (if b[0] { 1nat } else { 0 }) + (if b[1] { 2nat } else { 0 }) + (if b[2] { 4nat } else { 0 }) + (if b[3] {
        8nat
    } else {
        0
    })
}

/// A numeric page read from its bits: `n` digits of four bits each.
pub open spec fn digit_text(bits: Seq<bool>, n: nat) -> Seq<char> {
    Seq::new(n, |k: int| ((lsb4(bits.subrange(4 * k, 4 * k + 4)) + 48) as char))
}

proof fn lemma_lsb4(v: u32)
    by (bit_vector)
    requires
        v < 16,
    ensures
        (if (v >> 0u32) & 1 == 1 { 1u32 } else { 0u32 }) + (if (v >> 1u32) & 1 == 1 { 2u32 } else { 0u32 }) + (
        if (v >> 2u32) & 1 == 1 {
            4u32
        } else {
            0u32
        }) + (if (v >> 3u32) & 1 == 1 { 8u32 } else { 0u32 }) == v,
{
}

pub open spec fn is_digit_char(c: char) -> bool {
    '0' <= c && c <= '9'
}

proof fn lemma_numeric_bits_chunk(s: Seq<char>, k: int)
    requires
        0 <= k < s.len(),
        forall|i: int| 0 <= i < s.len() ==> is_digit_char(#[trigger] s[i]),
    ensures
        numeric_bits(s).len() == 4 * s.len(),
        lsb4(numeric_bits(s).subrange(4 * k, 4 * k + 4)) == (s[k] as u32) - 48,
    decreases s.len(),
{
    let d = s.drop_last();
    let n = s.len() as int;
    assert forall|i: int| 0 <= i < d.len() implies is_digit_char(#[trigger] d[i]) by {
        assert(d[i] == s[i]);
    }
    if k < n - 1 {
        lemma_numeric_bits_chunk(d, k);
        assert(numeric_bits(s).subrange(4 * k, 4 * k + 4) =~= numeric_bits(d).subrange(4 * k, 4 * k + 4));
        assert(d[k] == s[k]);
    } else {
        if n > 1 {
            lemma_numeric_bits_chunk(d, 0);
        } else {
            assert(numeric_bits(d) =~= Seq::<bool>::empty());
        }
        assert(is_digit_char(s[k]));
        let v = ((s[k] as u32) - 48) as u32;
        assert(numeric_nibble(s.last()) == Some(v));
        let b = lsb_bits(v, 4);
        assert(numeric_bits(s).subrange(4 * k, 4 * k + 4) =~= b);
        assert(b[0] == ((v >> 0u32) & 1 == 1) && b[1] == ((v >> 1u32) & 1 == 1) && b[2] == ((v >> 2u32) & 1 == 1)
            && b[3] == ((v >> 3u32) & 1 == 1));
        lemma_lsb4(v);
    }
}

/// A numeric page reads back from its message codewords: their data bits,
/// unpacked in order and read four at a time least significant first,
/// are the page's digits, each sent as its own value.
#[verifier::rlimit(40)]
#[verifier::spinoff_prover]
pub proof fn lemma_numeric_reads_back(s: Seq<char>)
    requires
        forall|i: int| 0 <= i < s.len() ==> is_digit_char(#[trigger] s[i]),
    ensures
        digit_text(
            unpack_all(
                chunks20(numeric_bits(s)).map_values(|c: u32| spec_message_codeword(c)).map_values(
                    |w: u32| message_data(w),
                ),
            ),
            s.len(),
        ) == s,
{
    let a = numeric_bits(s);
    lemma_chunk_data(a);
    lemma_unpack_chunks(a);
    let q = padded20(a);
    if s.len() > 0 {
        lemma_numeric_bits_chunk(s, 0);
    } else {
        assert(a =~= Seq::<bool>::empty());
    }
    assert forall|k: int| 0 <= k < s.len() implies #[trigger] digit_text(q, s.len())[k] == s[k] by {
        lemma_numeric_bits_chunk(s, k);
        assert(q.subrange(4 * k, 4 * k + 4) =~= a.subrange(4 * k, 4 * k + 4));
        assert(is_digit_char(s[k]));
    }
    assert(digit_text(q, s.len()) =~= s);
}

/// An alpha page reads back from its message codewords: their data bits,
/// unpacked in order and read seven at a time least significant first,
/// give every character's seven-bit code.
#[verifier::rlimit(40)]
#[verifier::spinoff_prover]
pub proof fn lemma_alpha_reads_back(s: Seq<char>)
    ensures
        alpha_text(
            unpack_all(
                chunks20(alpha_bits(s)).map_values(|c: u32| spec_message_codeword(c)).map_values(
                    |w: u32| message_data(w),
                ),
            ),
            s.len(),
        ) == s.map_values(|c: char| (((c as u32) & 0x7F) as nat) as char),
{
    let a = alpha_bits(s);
    lemma_chunk_data(a);
    lemma_unpack_chunks(a);
    let q = padded20(a);
    if s.len() > 0 {
        lemma_alpha_bits_chunk(s, 0);
    } else {
        assert(a =~= Seq::<bool>::empty());
    }
    assert forall|k: int| 0 <= k < s.len() implies #[trigger] alpha_text(q, s.len())[k] == (((s[k] as u32)
        & 0x7F) as nat) as char by {
        lemma_alpha_bits_chunk(s, k);
        assert(q.subrange(7 * k, 7 * k + 7) =~= a.subrange(7 * k, 7 * k + 7));
        let x = s[k] as u32;
        let v = x & 0x7F;
        lemma_lsb7(v);
        assert((x & 0x7F) & 0x7F == x & 0x7F) by (bit_vector);
        assert(alpha_text(q, s.len())[k] == (lsb7(q.subrange(7 * k, 7 * k + 7)) as char));
    }
    assert(alpha_text(q, s.len()) =~= s.map_values(|c: char| (((c as u32) & 0x7F) as nat) as char));
}

// ------------------------------------------------------------- transmission

/// `n` copies of the idle codeword.
pub open spec fn idles(n: nat) -> Seq<u32> {
    Seq::new(n, |i: int| IDLE)
}

/// Slots needed to fill the last batch of `n` codewords.
pub open spec fn pad_to_batch(n: nat) -> nat {
    if n % 16 == 0 {
        0
    } else {
        (16 - n % 16) as nat
    }
}

/// Codeword stream: idles up to the address frame, address, message
/// codewords, idles to the end of the batch.
pub open spec fn tx_words(addr: u32, func: u8, content: Content) -> Seq<u32> {
    let lead = idles(((addr & 7) * 2) as nat) + seq![spec_address_codeword(addr, func)]
        + chunks20(payload_bit_seq(content)).map_values(|c: u32| spec_message_codeword(c));
    lead + idles(pad_to_batch(lead.len()))
}

/// A codeword as 32 air bits, MSB first.
pub open spec fn word_bits(w: u32) -> Seq<bool> {
    Seq::new(32, |i: int| (w >> ((31 - i) as u32)) & 1 == 1)
}

/// Codewords on air: a sync word opens every batch of 16.
pub open spec fn batch_bits(words: Seq<u32>) -> Seq<bool>
    decreases words.len(),
{
    if words.len() == 0 {
        seq![]
    } else {
        batch_bits(words.drop_last()) + (if (words.len() - 1) % 16 == 0 {
            word_bits(SYNC)
        } else {
            seq![]
        }) + word_bits(words.last())
    }
}

/// The 576-bit 1010… preamble.
pub open spec fn preamble() -> Seq<bool> {
    Seq::new(576, |i: int| i % 2 == 0)
}

pub open spec fn spec_transmission(addr: u32, func: u8, content: Content) -> Seq<bool> {
    preamble() + batch_bits(tx_words(addr, func, content))
}

/// The 21 data bits of an address codeword.
pub open spec fn addr_data(addr: u32, func: u8) -> u32 {
    (((addr >> 3u32) & 0x3_FFFF) << 2u32) | ((func & 3) as u32)
}

/// A codeword from 21 data bits, check bits and parity bit.
pub open spec fn word_of(data: u32, rem: u32, p: u32) -> u32 {
    (((data << 10u32) | (rem & 0x3FF)) << 1u32) | p
}

/// The bit facts of address words: the frame number, the data bits, and
/// how the address and function read back out of a codeword made from them.
proof fn lemma_address_bits(addr: u32, func: u8, rem: u32, p: u32)
    by (bit_vector)
    requires
        p <= 1,
    ensures
        addr & 7 <= 7,
        addr_data(addr, func) < 0x20_0000,
        forall|b: u32| #![auto] (1u32 << 20u32) | (b & 0xF_FFFF) < 0x20_0000,
        func <= 3 ==> func & 3 == func,
        word_of(addr_data(addr, func), rem, p) >> 31u32 == 0,
        (((word_of(addr_data(addr, func), rem, p) >> 13u32) & 0x3_FFFF) << 3u32) | (addr & 7) == addr & 0x1F_FFFF,
        (word_of(addr_data(addr, func), rem, p) >> 11u32) & 3 == ((func & 3) as u32),
{
}

/// The address codeword reads back the address (its top 18 bits, the
/// low 3 being the frame) and the function, and its top bit is 0.
pub proof fn lemma_address_word(addr: u32, func: u8)
    ensures
        ({
            let w = spec_address_codeword(addr, func);
            &&& w >> 31u32 == 0
            &&& (((w >> 13u32) & 0x3_FFFF) << 3u32) | (addr & 7) == addr & 0x1F_FFFF
            &&& (w >> 11u32) & 3 == ((func & 3) as u32)
            &&& func <= 3 ==> (w >> 11u32) & 3 == func as u32
        }),
{
    let data = addr_data(addr, func);
    let rem = bch_rem(data << 10u32);
    let word = ((data << 10u32) | (rem & 0x3FF)) << 1u32;
    let p = parity(word);
    assert(p <= 1);
    lemma_address_bits(addr, func, rem, p);
    assert(spec_address_codeword(addr, func) == word_of(data, rem, p));
}

/// Where codeword `i` of a batch stream starts: after `i` words and the
/// sync words of the batches up to and including its own.
pub open spec fn word_pos(i: int) -> int {
    32 * i + 32 * (i / 16 + 1)
}

proof fn lemma_batch_layout(words: Seq<u32>)
    ensures
        batch_bits(words).len() == 32 * words.len() + 32 * ((words.len() + 15) / 16),
        forall|i: int| 0 <= i < words.len() ==> batch_bits(words).subrange(word_pos(i), word_pos(i) + 32)
            == word_bits(#[trigger] words[i]),
        forall|j: int| 0 <= j < (words.len() + 15) / 16 ==> #[trigger] batch_bits(words).subrange(544 * j, 544 * j + 32)
            == word_bits(SYNC),
    decreases words.len(),
{
    let n = words.len();
    if n > 0 {
        let d = words.drop_last();
        lemma_batch_layout(d);
        let bd = batch_bits(d);
        let sy = if (n - 1) % 16 == 0 { word_bits(SYNC) } else { seq![] };
        let b = batch_bits(words);
        assert(b == bd + sy + word_bits(words.last()));
        let m = n - 1;
        assert(bd.len() == 32 * m + 32 * ((m + 15) / 16));
        if m % 16 == 0 {
            assert((m + 15) / 16 == m / 16);
            assert((n + 15) / 16 == m / 16 + 1);
            assert(word_pos(m) == bd.len() + 32);
        } else {
            assert((m + 15) / 16 == m / 16 + 1);
            assert((n + 15) / 16 == (m + 15) / 16);
            assert(word_pos(m) == bd.len());
        }
        assert forall|i: int| 0 <= i < n implies b.subrange(word_pos(i), word_pos(i) + 32) == word_bits(#[trigger] words[i]) by {
            if i < m {
                assert(words[i] == d[i]);
                assert(word_pos(i) + 32 <= word_pos(m)) by {
                    assert(i / 16 <= m / 16);
                }
                assert(word_pos(m) <= bd.len() + sy.len());
                assert(b.subrange(word_pos(i), word_pos(i) + 32) == bd.subrange(word_pos(i), word_pos(i) + 32));
            } else {
                assert(b.subrange(word_pos(i), word_pos(i) + 32) == word_bits(words.last()));
            }
        }
        assert forall|j: int| 0 <= j < (n + 15) / 16 implies #[trigger] b.subrange(544 * j, 544 * j + 32) == word_bits(SYNC) by {
            if j < (m + 15) / 16 {
                assert(544 * j + 32 <= bd.len());
                assert(b.subrange(544 * j, 544 * j + 32) == bd.subrange(544 * j, 544 * j + 32));
            } else {
                assert(m % 16 == 0);
                assert(j == m / 16);
                assert(544 * j == bd.len());
                assert(b.subrange(544 * j, 544 * j + 32) == sy);
            }
        }
    }
}

proof fn lemma_tx_words(addr: u32, func: u8, content: Content)
    ensures
        ({
            let w = tx_words(addr, func, content);
            &&& w.len() > 0 && w.len() % 16 == 0
            &&& addr & 7 <= 7
            &&& w[2 * (addr & 7)] == spec_address_codeword(addr, func)
            &&& forall|i: int| 0 <= i < w.len() ==> #[trigger] w[i] == IDLE || spec_syndrome(w[i]) == 0
        }),
{
    let f = (addr & 7) as int;
    let ch = chunks20(payload_bit_seq(content)).map_values(|c: u32| spec_message_codeword(c));
    let lead = idles((f * 2) as nat) + seq![spec_address_codeword(addr, func)] + ch;
    let w = tx_words(addr, func, content);
    assert(w == lead + idles(pad_to_batch(lead.len())));
    assert(w[2 * f] == spec_address_codeword(addr, func));
    lemma_address_bits(addr, func, 0, 0);
    lemma_codeword_valid((((addr >> 3u32) & 0x3_FFFF) << 2u32) | ((func & 3) as u32));
    assert forall|i: int| 0 <= i < w.len() implies #[trigger] w[i] == IDLE || spec_syndrome(w[i]) == 0 by {
        if 2 * f < i < lead.len() {
            let c = chunks20(payload_bit_seq(content))[i - 2 * f - 1];
            assert(w[i] == ch[i - 2 * f - 1]);
            assert((1u32 << 20u32) | (c & 0xF_FFFF) < 0x20_0000);
            lemma_codeword_valid((1u32 << 20u32) | (c & 0xF_FFFF));
        }
    }
}

/// The POCSAG transmission on air: the 576-bit 1010… preamble, then whole
/// batches of 544 bits, each opening with the sync word; the address
/// codeword sits in frame `addr & 7` of the first batch (bit 608 + 64·frame)
/// and reads back the address and function, and every codeword after the
/// preamble is an idle word or one with a zero syndrome.
#[verifier::rlimit(60)]
#[verifier::spinoff_prover]
pub proof fn lemma_transmission_layout(addr: u32, func: u8, content: Content)
    ensures
        ({
            let b = spec_transmission(addr, func, content);
            let w = tx_words(addr, func, content);
            let f = (addr & 7) as int;
            &&& b.take(576) == preamble()
            &&& b.len() > 576 && (b.len() - 576) % 544 == 0
            &&& forall|j: int| 0 <= j < (b.len() - 576) / 544 ==> #[trigger] b.subrange(576 + 544 * j, 576 + 544 * j + 32)
                == word_bits(SYNC)
            &&& b.subrange(608 + 64 * f, 640 + 64 * f) == word_bits(spec_address_codeword(addr, func))
            &&& spec_address_codeword(addr, func) >> 31u32 == 0
            &&& (((spec_address_codeword(addr, func) >> 13u32) & 0x3_FFFF) << 3u32) | (f as u32) == addr & 0x1F_FFFF
            &&& func <= 3 ==> (spec_address_codeword(addr, func) >> 11u32) & 3 == func as u32
            &&& forall|i: int| 0 <= i < w.len() ==> b.subrange(576 + word_pos(i), 576 + word_pos(i) + 32)
                == word_bits(#[trigger] w[i])
            &&& forall|i: int| 0 <= i < w.len() ==> #[trigger] w[i] == IDLE || spec_syndrome(w[i]) == 0
        }),
{
    let b = spec_transmission(addr, func, content);
    let w = tx_words(addr, func, content);
    let f = (addr & 7) as int;
    lemma_tx_words(addr, func, content);
    lemma_batch_layout(w);
    let bb = batch_bits(w);
    assert(b == preamble() + bb);
    let nb = (w.len() + 15) / 16;
    assert(nb * 16 == w.len());
    assert(bb.len() == 544 * nb);
    assert(b.take(576) == preamble());
    assert((b.len() - 576) / 544 == nb);
    assert forall|j: int| 0 <= j < (b.len() - 576) / 544 implies #[trigger] b.subrange(576 + 544 * j, 576 + 544 * j + 32)
        == word_bits(SYNC) by {
        assert(bb.subrange(544 * j, 544 * j + 32) == word_bits(SYNC));
        assert(b.subrange(576 + 544 * j, 576 + 544 * j + 32) == bb.subrange(544 * j, 544 * j + 32));
    }
    assert forall|i: int| 0 <= i < w.len() implies b.subrange(576 + word_pos(i), 576 + word_pos(i) + 32)
        == word_bits(#[trigger] w[i]) by {
        assert(bb.subrange(word_pos(i), word_pos(i) + 32) == word_bits(w[i]));
        assert(word_pos(i) + 32 <= bb.len()) by {
            assert(i / 16 < nb);
        }
        assert(b.subrange(576 + word_pos(i), 576 + word_pos(i) + 32) == bb.subrange(word_pos(i), word_pos(i) + 32));
    }
    assert(f <= 7);
    assert(word_pos(2 * f) == 64 * f + 32);
    assert(w[2 * f] == spec_address_codeword(addr, func));
    assert(b.subrange(576 + word_pos(2 * f), 576 + word_pos(2 * f) + 32) == word_bits(w[2 * f]));
    lemma_address_word(addr, func);
    assert((f as u32) == addr & 7);
}

fn push_word(bits: &mut Vec<bool>, w: u32)
    ensures
        final(bits)@ == old(bits)@ + word_bits(w),
{
    let mut i: u32 = 0;
    while i < 32
        invariant
            i <= 32,
            bits@ == old(bits)@ + word_bits(w).take(i as int),
        decreases 32 - i,
    {
        bits.push(w >> (31 - i) & 1 == 1);
        assert(word_bits(w).take(i + 1) == word_bits(w).take(i as int).push((w >> (31 - i) as u32)
            & 1 == 1));
        i += 1;
    }
    assert(word_bits(w).take(32) == word_bits(w));
}

/// Complete transmission: preamble + batches, as air bits (MSB first).
pub fn transmission_bits(addr: u32, func: u8, content: Content) -> (bits: Vec<bool>)
    ensures
        bits@ == spec_transmission(addr, func, content),
{
    let mut words: Vec<u32> = Vec::new();
    let frame = (addr & 7) as usize;
    proof {
        lemma_address_bits(addr, func, 0, 0);
    }
    let mut slot: usize = 0;
    while slot < frame * 2
        invariant
            frame <= 7,
            slot <= frame * 2,
            words@ == idles(slot as nat),
        decreases frame * 2 - slot,
    {
        words.push(IDLE);
        assert(idles((slot + 1) as nat) == idles(slot as nat).push(IDLE));
        slot += 1;
    }
    words.push(address_codeword(addr, func));
    slot += 1;
    let chunks = payload_chunks(content);
    let ghost head = words@;
    let mut k: usize = 0;
    while k < chunks.len()
        invariant
            k <= chunks@.len(),
            slot == words@.len(),
            slot <= 15 + k,
            chunks@.len() <= usize::MAX / 20 + 1,
            words@ == head + chunks@.take(k as int).map_values(|c: u32| spec_message_codeword(c)),
        decreases chunks.len() - k,
    {
        words.push(message_codeword(chunks[k]));
        assert(chunks@.take(k + 1).map_values(|c: u32| spec_message_codeword(c)) == chunks@.take(
            k as int,
        ).map_values(|c: u32| spec_message_codeword(c)).push(spec_message_codeword(chunks@[k as int])));
        slot += 1;
        k += 1;
    }
    assert(chunks@.take(chunks@.len() as int) == chunks@);
    let ghost lead = words@;
    assert(lead == idles(((addr & 7) * 2) as nat) + seq![spec_address_codeword(addr, func)]
        + chunks20(payload_bit_seq(content)).map_values(|c: u32| spec_message_codeword(c)));
    let mut pad: usize = 0;
    while slot % 16 != 0
        invariant
            slot == lead.len() + pad,
            pad <= 16,
            pad <= pad_to_batch(lead.len()),
            slot % 16 != 0 ==> pad < pad_to_batch(lead.len()),
            slot % 16 == 0 ==> pad == pad_to_batch(lead.len()),
            words@ == lead + idles(pad as nat),
            lead.len() <= usize::MAX / 20 + 17,
        decreases 16 - pad,
    {
        words.push(IDLE);
        assert(idles((pad + 1) as nat) == idles(pad as nat).push(IDLE));
        slot += 1;
        pad += 1;
    }
    assert(words@ == tx_words(addr, func, content));
    let mut bits: Vec<bool> = Vec::new();
    let mut i: usize = 0;
    while i < 576
        invariant
            i <= 576,
            bits@ == preamble().take(i as int),
        decreases 576 - i,
    {
        bits.push(i % 2 == 0);
        assert(preamble().take(i + 1) == preamble().take(i as int).push(i % 2 == 0));
        i += 1;
    }
    assert(preamble().take(576) == preamble());
    let mut j: usize = 0;
    while j < words.len()
        invariant
            j <= words@.len(),
            bits@ == preamble() + batch_bits(words@.take(j as int)),
        decreases words.len() - j,
    {
        assert(words@.take(j + 1).drop_last() == words@.take(j as int));
        if j % 16 == 0 {
            push_word(&mut bits, SYNC);
        }
        push_word(&mut bits, words[j]);
        j += 1;
    }
    assert(words@.take(words@.len() as int) == words@);
    bits
}

} // verus!
