//! AIS sentence encoder for the simulated fleet: position reports and
//! static vessel names as single-fragment `!AIVDM` sentences.

use vstd::prelude::*;
use crate::parse::ais::{
    ais_step, bits_val, decode_armored, field_i, field_u, last_char, lemma_pow2_32, lemma_pow2_mono, lemma_pow2_pos,
    parse_hex8, payload_bits, pow2, sentence_fields, six_bits, sixbit, field_str, six_char, spec_checksum_ok, spec_decode, text_from, with_position,
    xor_all, AisView, FragsView,
};
use crate::text::{
    all_digits, back_ws, chars_of, dec_val, find_char_from, is_ws, lemma_find_char_from, parse_uint, push_all, push_str,
    skip_ws, split_char, starts_with, string_of, trim, upper, upper_all, upper_seq, utf8, utf8_bytes,
};
use crate::device::{all_hex, hex_num, hex_val};

verus! {

/// The low `len` bits of `v`, most significant first.
pub open spec fn ubits(v: nat, len: nat) -> Seq<bool>
    decreases len,
{
    if len == 0 {
        seq![]
    } else {
        seq![(v / pow2((len - 1) as nat)) % 2 == 1] + ubits(v, (len - 1) as nat)
    }
}

fn pow2_of(n: u32) -> (r: u64)
    requires
        n < 32,
    ensures
        r == pow2(n as nat),
{
    let mut r: u64 = 1;
    let mut i: u32 = 0;
    while i < n
        invariant
            i <= n < 32,
            r == pow2(i as nat),
            r <= 0x8000_0000,
        decreases n - i,
    {
        proof {
            lemma_pow2_double_bound(i as nat);
        }
        r = r * 2;
        i += 1;
    }
    r
}

proof fn lemma_pow2_double_bound(i: nat)
    requires
        i < 31,
    ensures
        2 * pow2(i) <= 0x8000_0000,
{
    lemma_pow2_mono(i + 1, 31);
    lemma_pow2_32();
}

proof fn lemma_ubits_len(v: nat, len: nat)
    ensures
        ubits(v, len).len() == len,
    decreases len,
{
    if len > 0 {
        lemma_ubits_len(v, (len - 1) as nat);
    }
}

proof fn lemma_name_bits_len(bs: Seq<u8>)
    ensures
        name_bits(bs).len() == 6 * bs.len(),
    decreases bs.len(),
{
    if bs.len() > 0 {
        lemma_name_bits_len(bs.drop_last());
        lemma_ubits_len(if bs.last() == 64 { 0 } else { (bs.last() % 64) as nat }, 6);
    }
}

fn push_u(bits: &mut Vec<bool>, v: u32, len: u32)
    requires
        len <= 31,
    ensures
        final(bits)@ == old(bits)@ + ubits(v as nat, len as nat),
{
    let mut i: u32 = len;
    while i > 0
        invariant
            i <= len <= 31,
            bits@ + ubits(v as nat, i as nat) == old(bits)@ + ubits(v as nat, len as nat),
        decreases i,
    {
        let p = pow2_of(i - 1);
        proof {
            lemma_pow2_pos((i - 1) as nat);
        }
        let b = ((v as u64) / p) % 2 == 1;
        assert(bits@.push(b) + ubits(v as nat, (i - 1) as nat) == bits@ + ubits(v as nat, i as nat));
        bits.push(b);
        i -= 1;
    }
    assert(bits@ + Seq::<bool>::empty() == bits@);
}

/// The value of the (up to six) bits of the chunk at `s`, left-aligned
/// in six bits.
pub open spec fn chunk_val(bits: Seq<bool>, s: int, k: int) -> nat
    decreases k,
{
    if k <= 0 {
        0
    } else {
        chunk_val(bits, s, k - 1) + if s + k - 1 < bits.len() && bits[s + k - 1] {
            pow2((6 - k) as nat)
        } else {
            0
        }
    }
}

pub open spec fn armor_char(v: nat) -> char {
    if v + 48 > 87 {
        (v + 56) as char
    } else {
        (v + 48) as char
    }
}

/// 6-bit armoring: one char per six bits (a short last chunk padded).
pub open spec fn armor(bits: Seq<bool>) -> Seq<char> {
    Seq::new(((bits.len() + 5) / 6) as nat, |j: int| armor_char(chunk_val(bits, 6 * j, 6)))
}

proof fn lemma_chunk_bound(bits: Seq<bool>, s: int, k: int)
    requires
        0 <= k <= 6,
    ensures
        chunk_val(bits, s, k) < 64,
        chunk_val(bits, s, k) + pow2((6 - k) as nat) <= 64,
    decreases k,
{
    if k > 0 {
        lemma_chunk_bound(bits, s, k - 1);
        assert(pow2((6 - (k - 1)) as nat) == 2 * pow2((6 - k) as nat));
    } else {
        assert(pow2(6) == 64) by {
            reveal_with_fuel(pow2, 7);
        }
    }
}

fn armor_of(bits: &Vec<bool>) -> (r: Vec<char>)
    requires
        bits@.len() < 0x1000_0000,
    ensures
        r@ == armor(bits@),
{
    let mut out: Vec<char> = Vec::new();
    let n = bits.len();
    let mut s: usize = 0;
    let ghost total = ((n + 5) / 6) as nat;
    while s < n
        invariant
            n == bits@.len() < 0x1000_0000,
            s % 6 == 0,
            s <= n + 5,
            total == ((n + 5) / 6) as nat,
            out@.len() == s / 6,
            forall|j: int| 0 <= j < out@.len() ==> #[trigger] out@[j] == armor_char(chunk_val(bits@, 6 * j, 6)),
        decreases n + 6 - s,
    {
        let mut v: u32 = 0;
        let mut k: usize = 0;
        while k < 6
            invariant
                k <= 6,
                n == bits@.len() < 0x1000_0000,
                s < n,
                v == chunk_val(bits@, s as int, k as int),
            decreases 6 - k,
        {
            proof {
                lemma_chunk_bound(bits@, s as int, (k + 1) as int);
            }
            if s + k < n && bits[s + k] {
                let p = pow2_of((5 - k) as u32);
                v = v + p as u32;
            }
            k += 1;
        }
        proof {
            lemma_chunk_bound(bits@, s as int, 6);
        }
        let c: u32 = if v + 48 > 87 {
            v + 56
        } else {
            v + 48
        };
        out.push((c as u8) as char);
        s += 6;
    }
    assert(out@ == armor(bits@));
    out
}

pub open spec fn hex_up(d: nat) -> char {
    if d < 10 {
        (d + 48) as char
    } else {
        (d + 55) as char
    }
}

/// A payload wrapped as a single-fragment sentence on channel A, with its
/// checksum in two upper-case hex digits.
pub open spec fn sentence(payload: Seq<char>) -> Seq<char> {
    let body = "AIVDM,1,1,,A,"@ + payload + ",0"@;
    let sum = xor_all(utf8(body));
    "!"@ + body + seq!['*', hex_up((sum / 16) as nat), hex_up((sum % 16) as nat)]
}

fn sentence_of(payload: &Vec<char>) -> (r: String)
    ensures
        r@ == sentence(payload@),
{
    let mut body = chars_of("AIVDM,1,1,,A,");
    push_all(&mut body, payload);
    push_str(&mut body, ",0");
    let bytes = utf8_bytes(&body);
    let mut sum: u8 = 0;
    let mut i: usize = 0;
    while i < bytes.len()
        invariant
            i <= bytes@.len(),
            sum == xor_all(bytes@.take(i as int)),
        decreases bytes.len() - i,
    {
        assert(bytes@.take(i + 1).drop_last() == bytes@.take(i as int));
        sum = sum ^ bytes[i];
        i += 1;
    }
    assert(bytes@.take(bytes@.len() as int) == bytes@);
    let mut out = chars_of("!");
    push_all(&mut out, &body);
    out.push('*');
    let hi = sum / 16;
    let lo = sum % 16;
    out.push(if hi < 10 {
        (hi + 48) as char
    } else {
        (hi + 55) as char
    });
    out.push(if lo < 10 {
        (lo + 48) as char
    } else {
        (lo + 55) as char
    });
    string_of(&out)
}

/// The name field's bytes: the upper-cased name cut to 20 bytes, padded
/// with `@`.
pub open spec fn name_bytes(name: Seq<char>) -> Seq<u8> {
    let b = utf8(upper_seq(name));
    let t = if b.len() > 20 { b.take(20) } else { b };
    t + Seq::new((20 - t.len()) as nat, |i: int| 64u8)
}

pub open spec fn name_bits(bs: Seq<u8>) -> Seq<bool>
    decreases bs.len(),
{
    if bs.len() == 0 {
        seq![]
    } else {
        name_bits(bs.drop_last()) + ubits(if bs.last() == 64 { 0 } else { (bs.last() % 64) as nat }, 6)
    }
}

/// Type 24 part A (vessel name, single fragment).
pub open spec fn spec_name24(mmsi: u32, name: Seq<char>) -> Seq<char> {
    sentence(armor(ubits(24, 6) + ubits(0, 2) + ubits(mmsi as nat, 30) + ubits(0, 2) + name_bits(name_bytes(name))))
}

/// The name sentence's payload: the 160 message bits (type, repeat, MMSI,
/// part number, 20 six-bit name chars) armored, the last char padded.
pub open spec fn name24_payload(mmsi: u32, name: Seq<char>) -> Seq<char> {
    armor(ubits(24, 6) + ubits(0, 2) + ubits(mmsi as nat, 30) + ubits(0, 2) + name_bits(name_bytes(name)))
}

/// The layout of [`encode_name24`]'s sentence: `!AIVDM,1,1,,A,<p>,0*HH`
/// with a 27-char payload `p` and `HH` the XOR of the bytes between `!`
/// and `*` in two upper-case hex digits.
pub proof fn lemma_name24_layout(mmsi: u32, name: Seq<char>)
    ensures
        name24_payload(mmsi, name).len() == 27,
        spec_name24(mmsi, name) == sentence(name24_payload(mmsi, name)),
{
    let t = utf8(upper_seq(name));
    let tt = if t.len() > 20 { t.take(20) } else { t };
    assert(name_bytes(name).len() == 20);
    lemma_name_bits_len(name_bytes(name));
    lemma_ubits_len(24, 6);
    lemma_ubits_len(0, 2);
    lemma_ubits_len(mmsi as nat, 30);
}

pub fn encode_name24(mmsi: u32, name: &str) -> (s: String)
    ensures
        s@ == spec_name24(mmsi, name@),
{
    let mut b: Vec<bool> = Vec::new();
    push_u(&mut b, 24, 6);
    push_u(&mut b, 0, 2);
    push_u(&mut b, mmsi, 30);
    push_u(&mut b, 0, 2);
    let up = utf8_bytes(&upper_all(&chars_of(name)));
    let mut bytes: Vec<u8> = Vec::new();
    let mut i: usize = 0;
    while i < up.len() && i < 20
        invariant
            i <= up@.len(),
            i <= 20,
            bytes@ == up@.take(i as int),
        decreases 20 - i,
    {
        bytes.push(up[i]);
        assert(up@.take(i + 1) == up@.take(i as int).push(up@[i as int]));
        i += 1;
    }
    let ghost t = bytes@;
    assert(t == (if up@.len() > 20 { up@.take(20) } else { up@ }));
    while bytes.len() < 20
        invariant
            bytes@.len() <= 20,
            t.len() <= 20,
            bytes@ == t + Seq::new((bytes@.len() - t.len()) as nat, |k: int| 64u8),
            bytes@.len() >= t.len(),
        decreases 20 - bytes.len(),
    {
        let ghost before = bytes@;
        bytes.push(64);
        assert(bytes@ == t + Seq::new((bytes@.len() - t.len()) as nat, |k: int| 64u8));
    }
    assert(bytes@ == name_bytes(name@));
    let ghost head = b@;
    let mut j: usize = 0;
    while j < bytes.len()
        invariant
            j <= bytes@.len(),
            b@ == head + name_bits(bytes@.take(j as int)),
        decreases bytes.len() - j,
    {
        assert(bytes@.take(j + 1).drop_last() == bytes@.take(j as int));
        let c = bytes[j];
        let six: u32 = if c == 64 {
            0
        } else {
            (c % 64) as u32
        };
        push_u(&mut b, six, 6);
        j += 1;
    }
    assert(bytes@.take(bytes@.len() as int) == bytes@);
    proof {
        lemma_ubits_len(24, 6);
        lemma_ubits_len(0, 2);
        lemma_ubits_len(mmsi as nat, 30);
        lemma_name_bits_len(bytes@);
    }
    let a = armor_of(&b);
    sentence_of(&a)
}

/// Type 1 position report: position in 1/600 000 degree, speed and
/// course in tenths (the course taken modulo 360°).
/// The bits of a type 1 position report: position in 1/600 000 degree,
/// speed and course in tenths (the course taken modulo 360°).
pub open spec fn type1_bits(mmsi: u32, lat: i32, lon: i32, sog: u32, cog: u32) -> Seq<bool> {
    ubits(1, 6) + ubits(0, 2) + ubits(mmsi as nat, 30) + ubits(0, 4) + ubits(128, 8) + ubits(sog as nat, 10)
        + ubits(0, 1) + ubits((lon as u32) as nat, 28) + ubits((lat as u32) as nat, 27) + ubits(
        (cog % 3600) as nat,
        12,
    ) + ubits(511, 9) + ubits(60, 6) + ubits(0, 2) + ubits(0, 3) + ubits(0, 1) + ubits(0, 19)
}

/// A type 1 position report as a sentence.
pub open spec fn spec_type1(mmsi: u32, lat: i32, lon: i32, sog: u32, cog: u32) -> Seq<char> {
    sentence(armor(type1_bits(mmsi, lat, lon, sog, cog)))
}

pub fn encode_type1(mmsi: u32, lat: i32, lon: i32, sog: u32, cog: u32) -> (s: String)
    ensures
        s@ == spec_type1(mmsi, lat, lon, sog, cog),
{
    let mut b: Vec<bool> = Vec::new();
    push_u(&mut b, 1, 6);
    push_u(&mut b, 0, 2);
    push_u(&mut b, mmsi, 30);
    push_u(&mut b, 0, 4);
    push_u(&mut b, 128, 8);
    push_u(&mut b, sog, 10);
    push_u(&mut b, 0, 1);
    push_u(&mut b, lon as u32, 28);
    push_u(&mut b, lat as u32, 27);
    push_u(&mut b, cog % 3600, 12);
    push_u(&mut b, 511, 9);
    push_u(&mut b, 60, 6);
    push_u(&mut b, 0, 2);
    push_u(&mut b, 0, 3);
    push_u(&mut b, 0, 1);
    push_u(&mut b, 0, 19);
    proof {
        assert forall|v: nat, len: nat| #[trigger] ubits(v, len).len() == len by {
            lemma_ubits_len(v, len);
        }
    }
    let a = armor_of(&b);
    sentence_of(&a)
}

// ------------------------------------------------- reading a report back

proof fn lemma_bits_val_concat(a: Seq<bool>, b: Seq<bool>)
    ensures
        bits_val(a + b) == bits_val(a) * pow2(b.len()) + bits_val(b),
    decreases b.len(),
{
    if b.len() == 0 {
        assert(a + b =~= a);
        assert(pow2(0) == 1);
        assert(bits_val(b) == 0);
    } else {
        assert((a + b).drop_last() =~= a + b.drop_last());
        assert((a + b).last() == b.last());
        lemma_bits_val_concat(a, b.drop_last());
        let p = pow2(b.drop_last().len());
        let x = bits_val(a);
        let y = bits_val(b.drop_last());
        let e: nat = if b.last() { 1 } else { 0 };
        assert(pow2(b.len()) == 2 * p);
        assert(bits_val(a + b) == bits_val(a + b.drop_last()) * 2 + e);
        assert(bits_val(b) == y * 2 + e);
        assert(bits_val(a + b.drop_last()) == x * p + y);
        assert((x * p + y) * 2 + e == x * (2 * p) + (y * 2 + e)) by (nonlinear_arith);
    }
}

proof fn lemma_bits_val_ubits(v: nat, n: nat)
    ensures
        bits_val(ubits(v, n)) == v % pow2(n),
    decreases n,
{
    if n == 0 {
        assert(ubits(v, 0) =~= Seq::<bool>::empty());
    } else {
        let m = (n - 1) as nat;
        let head = seq![(v / pow2(m)) % 2 == 1];
        lemma_bits_val_concat(head, ubits(v, m));
        lemma_bits_val_ubits(v, m);
        lemma_ubits_len(v, m);
        lemma_pow2_pos(m);
        assert(bits_val(head) == (v / pow2(m)) % 2) by {
            assert(head.drop_last() =~= Seq::<bool>::empty());
            assert(bits_val(Seq::<bool>::empty()) == 0);
        }
        vstd::arithmetic::div_mod::lemma_mod_breakdown(v as int, pow2(m) as int, 2);
        assert(pow2(m) * 2 == pow2(n));
        assert(((v / pow2(m)) % 2) * pow2(m) == pow2(m) * ((v / pow2(m)) % 2)) by (nonlinear_arith);
    }
}

proof fn lemma_utf8_ascii(s: Seq<char>)
    requires
        forall|i: int| 0 <= i < s.len() ==> (#[trigger] s[i] as u32) < 0x80,
    ensures
        utf8(s) == Seq::new(s.len(), |i: int| (s[i] as u32) as u8),
    decreases s.len(),
{
    if s.len() > 0 {
        lemma_utf8_ascii(s.drop_last());
        assert((s.last() as u32) < 0x80);
        assert(utf8(s) =~= Seq::new(s.len(), |i: int| (s[i] as u32) as u8));
    } else {
        assert(utf8(s) =~= Seq::new(s.len(), |i: int| (s[i] as u32) as u8));
    }
}

proof fn lemma_armor_char(v: nat)
    requires
        v < 64,
    ensures
        (armor_char(v) as u32) < 0x80,
        sixbit((armor_char(v) as u32) as u8) == v,
        armor_char(v) != ',' && armor_char(v) != '*',
{
}

proof fn lemma_chunk_bits(bits: Seq<bool>, s: int)
    requires
        0 <= s,
        s + 6 <= bits.len(),
    ensures
        six_bits(chunk_val(bits, s, 6)) == bits.subrange(s, s + 6),
{
    reveal_with_fuel(pow2, 7);
    reveal_with_fuel(chunk_val, 7);
    let b = |i: int| -> int { if bits[s + i] { 1 } else { 0 } };
    let v = chunk_val(bits, s, 6);
    assert(v == 32 * b(0) + 16 * b(1) + 8 * b(2) + 4 * b(3) + 2 * b(4) + b(5));
    assert(six_bits(v) =~= bits.subrange(s, s + 6));
}

proof fn lemma_dearmor_prefix(bits: Seq<bool>, p: Seq<u8>, k: int)
    requires
        bits.len() % 6 == 0,
        p.len() == bits.len() / 6,
        0 <= k <= p.len(),
        forall|j: int| 0 <= j < p.len() ==> #[trigger] sixbit(p[j]) == chunk_val(bits, 6 * j, 6),
    ensures
        payload_bits(p.take(k)) == bits.take(6 * k),
    decreases k,
{
    if k == 0 {
        assert(p.take(0) =~= Seq::<u8>::empty());
        assert(bits.take(0) =~= Seq::<bool>::empty());
    } else {
        let j = k - 1;
        lemma_dearmor_prefix(bits, p, j);
        assert(p.take(k).drop_last() =~= p.take(j));
        assert(p.take(k).last() == p[j]);
        assert(sixbit(p[j]) == chunk_val(bits, 6 * j, 6));
        lemma_chunk_bits(bits, 6 * j);
        assert(bits.take(6 * k) =~= bits.take(6 * j) + bits.subrange(6 * j, 6 * j + 6));
    }
}

/// De-armoring gives back the bits that were armored, for whole six-bit
/// chunks.
#[verifier::spinoff_prover]
proof fn lemma_dearmor(bits: Seq<bool>)
    requires
        bits.len() % 6 == 0,
    ensures
        payload_bits(utf8(armor(bits))) == bits,
{
    let a = armor(bits);
    let n = bits.len() / 6;
    assert(a.len() == n);
    assert forall|j: int| 0 <= j < a.len() implies (#[trigger] a[j] as u32) < 0x80 by {
        lemma_chunk_bound(bits, 6 * j, 6);
        lemma_armor_char(chunk_val(bits, 6 * j, 6));
    }
    lemma_utf8_ascii(a);
    let p = utf8(a);
    assert forall|j: int| 0 <= j < p.len() implies #[trigger] sixbit(p[j]) == chunk_val(bits, 6 * j, 6) by {
        lemma_chunk_bound(bits, 6 * j, 6);
        lemma_armor_char(chunk_val(bits, 6 * j, 6));
        assert(p[j] == (a[j] as u32) as u8);
    }
    lemma_dearmor_prefix(bits, p, n as int);
    assert(p.take(n as int) =~= p);
    assert(bits.take(6 * n as int) =~= bits);
}

proof fn lemma_field(bits: Seq<bool>, s: int, n: nat, v: nat)
    requires
        0 <= s,
        n >= 1,
        s + n <= bits.len(),
        bits.subrange(s, s + n) == ubits(v, n),
    ensures
        field_u(bits, s, n as int) == v % pow2(n),
{
    lemma_bits_val_ubits(v, n);
}

#[verifier::rlimit(40)]
#[verifier::spinoff_prover]
proof fn lemma_type1_fields(mmsi: u32, lat: i32, lon: i32, sog: u32, cog: u32)
    ensures
        ({
            let b = type1_bits(mmsi, lat, lon, sog, cog);
            &&& b.len() == 168
            &&& field_u(b, 0, 6) == 1nat % pow2(6)
            &&& field_u(b, 8, 30) == (mmsi as nat) % pow2(30)
            &&& field_u(b, 50, 10) == (sog as nat) % pow2(10)
            &&& field_u(b, 61, 28) == ((lon as u32) as nat) % pow2(28)
            &&& field_u(b, 89, 27) == ((lat as u32) as nat) % pow2(27)
            &&& field_u(b, 116, 12) == ((cog % 3600) as nat) % pow2(12)
        }),
{
    let b = type1_bits(mmsi, lat, lon, sog, cog);
    assert forall|v: nat, len: nat| #[trigger] ubits(v, len).len() == len by {
        lemma_ubits_len(v, len);
    }
    assert(b.subrange(0, 6) =~= ubits(1, 6));
    lemma_field(b, 0, 6, 1);
    assert(b.subrange(8, 38) =~= ubits(mmsi as nat, 30));
    lemma_field(b, 8, 30, mmsi as nat);
    assert(b.subrange(50, 60) =~= ubits(sog as nat, 10));
    lemma_field(b, 50, 10, sog as nat);
    assert(b.subrange(61, 89) =~= ubits((lon as u32) as nat, 28));
    lemma_field(b, 61, 28, (lon as u32) as nat);
    assert(b.subrange(89, 116) =~= ubits((lat as u32) as nat, 27));
    lemma_field(b, 89, 27, (lat as u32) as nat);
    assert(b.subrange(116, 128) =~= ubits((cog % 3600) as nat, 12));
    lemma_field(b, 116, 12, (cog % 3600) as nat);
}

/// What a position report with these values reads back as: every field
/// as written, the position only when neither coordinate holds its "not
/// available" value.
pub open spec fn type1_view(mmsi: u32, lat: i32, lon: i32, sog: u32, cog: u32) -> AisView {
    let has_pos = lon != 0x6791AC0 && lat != 0x3412140;
    AisView {
        mmsi,
        msg_type: 1,
        lat: if has_pos { Some(lat) } else { None },
        lon: if has_pos { Some(lon) } else { None },
        sog: if sog != 1023 { Some(sog) } else { None },
        cog: Some(cog % 3600),
        name: None,
    }
}

/// The values a position report can carry.
pub open spec fn type1_in_range(mmsi: u32, lat: i32, lon: i32, sog: u32) -> bool {
    &&& mmsi < 0x4000_0000
    &&& -0x400_0000 <= lat < 0x400_0000
    &&& -0x800_0000 <= lon < 0x800_0000
    &&& sog < 1024
}

proof fn lemma_signed_field(x: i32, n: nat)
    requires
        (n == 27 && pow2(27) == 0x800_0000 && pow2(26) == 0x400_0000) || (n == 28 && pow2(28)
            == 0x1000_0000 && pow2(27) == 0x800_0000),
        -pow2((n - 1) as nat) <= x < pow2((n - 1) as nat),
    ensures
        ({
            let v = ((x as u32) as nat) % pow2(n);
            (if v >= pow2((n - 1) as nat) { v - pow2(n) } else { v as int }) == x
        }),
{
    let u = (x as u32) as int;
    assert(x >= 0 ==> (x as u32) as i64 == x as i64) by (bit_vector);
    assert(x < 0 ==> (x as u32) as i64 == x as i64 + 0x1_0000_0000i64) by (bit_vector);
    assert(u == (if x < 0 { x + 0x1_0000_0000 } else { x as int }));
    if n == 27 {
        assert(u % 0x800_0000 == (if x < 0 { x + 0x800_0000 } else { x as int }));
    } else {
        assert(u % 0x1000_0000 == (if x < 0 { x + 0x1000_0000 } else { x as int }));
    }
}

#[verifier::rlimit(40)]
#[verifier::spinoff_prover]
proof fn lemma_type1_decode(mmsi: u32, lat: i32, lon: i32, sog: u32, cog: u32)
    requires
        type1_in_range(mmsi, lat, lon, sog),
    ensures
        spec_decode(type1_bits(mmsi, lat, lon, sog, cog)) == Some(type1_view(mmsi, lat, lon, sog, cog)),
{
    let b = type1_bits(mmsi, lat, lon, sog, cog);
    lemma_type1_fields(mmsi, lat, lon, sog, cog);
    reveal_with_fuel(pow2, 31);
    assert(pow2(6) == 64 && pow2(10) == 1024 && pow2(12) == 4096);
    assert(pow2(26) == 0x400_0000 && pow2(27) == 0x800_0000 && pow2(28) == 0x1000_0000);
    assert(pow2(30) == 0x4000_0000);
    lemma_signed_field(lon, 28);
    lemma_signed_field(lat, 27);
    assert(field_i(b, 61, 28) == lon);
    assert(field_i(b, 89, 27) == lat);
    assert(field_u(b, 0, 6) == 1);
    vstd::arithmetic::div_mod::lemma_small_mod(mmsi as nat, pow2(30));
    assert(field_u(b, 8, 30) == mmsi);
    assert(field_u(b, 50, 10) == sog);
    assert(field_u(b, 116, 12) == cog % 3600);
    let m = AisView { mmsi, msg_type: 1, lat: None, lon: None, sog: None, cog: None, name: None };
    assert(with_position(b, m, 50, 61, 89, 116) == type1_view(mmsi, lat, lon, sog, cog));
}

/// Payload text that cannot be mistaken for a field or checksum separator.
pub open spec fn plain_payload(p: Seq<char>) -> bool {
    forall|i: int| 0 <= i < p.len() ==> #[trigger] p[i] != ',' && p[i] != '*'
}

proof fn lemma_find_at(s: Seq<char>, c: char, i: int, k: int)
    requires
        0 <= i <= k <= s.len(),
        k < s.len() ==> s[k] == c,
        forall|j: int| i <= j < k ==> s[j] != c,
    ensures
        find_char_from(s, c, i) == k,
{
    lemma_find_char_from(s, c, i);
}

#[verifier::rlimit(40)]
#[verifier::spinoff_prover]
proof fn lemma_split_body(p: Seq<char>)
    requires
        plain_payload(p),
    ensures
        split_char("AIVDM,1,1,,A,"@ + p + ",0"@, ',') == seq!["AIVDM"@, "1"@, "1"@, Seq::<char>::empty(), "A"@, p, "0"@],
{
    reveal_strlit("AIVDM,1,1,,A,");
    reveal_strlit(",0");
    reveal_strlit("AIVDM");
    reveal_strlit("1");
    reveal_strlit("A");
    reveal_strlit("0");
    let n = p.len() as int;
    let s0 = "AIVDM,1,1,,A,"@ + p + ",0"@;
    lemma_find_at(s0, ',', 0, 5);
    assert(s0.take(5) =~= "AIVDM"@);
    let s1 = s0.skip(6);
    assert(s1 =~= seq!['1', ',', '1', ',', ',', 'A', ','] + p + ",0"@);
    lemma_find_at(s1, ',', 0, 1);
    assert(s1.take(1) =~= "1"@);
    let s2 = s1.skip(2);
    assert(s2 =~= seq!['1', ',', ',', 'A', ','] + p + ",0"@);
    lemma_find_at(s2, ',', 0, 1);
    assert(s2.take(1) =~= "1"@);
    let s3 = s2.skip(2);
    assert(s3 =~= seq![',', 'A', ','] + p + ",0"@);
    lemma_find_at(s3, ',', 0, 0);
    assert(s3.take(0) =~= Seq::<char>::empty());
    let s4 = s3.skip(1);
    assert(s4 =~= seq!['A', ','] + p + ",0"@);
    lemma_find_at(s4, ',', 0, 1);
    assert(s4.take(1) =~= "A"@);
    let s5 = s4.skip(2);
    assert(s5 =~= p + ",0"@);
    lemma_find_at(s5, ',', 0, n);
    assert(s5.take(n) =~= p);
    let s6 = s5.skip(n + 1);
    assert(s6 =~= "0"@);
    lemma_find_at(s6, ',', 0, 1);
    assert(split_char(s6, ',') == seq![s6]);
    assert(split_char(s5, ',') =~= seq![p, "0"@]);
    assert(split_char(s4, ',') =~= seq!["A"@, p, "0"@]);
    assert(split_char(s3, ',') =~= seq![Seq::<char>::empty(), "A"@, p, "0"@]);
    assert(split_char(s2, ',') =~= seq!["1"@, Seq::<char>::empty(), "A"@, p, "0"@]);
    assert(split_char(s1, ',') =~= seq!["1"@, "1"@, Seq::<char>::empty(), "A"@, p, "0"@]);
}

proof fn lemma_hex_up(d: nat)
    requires
        d < 16,
    ensures
        hex_val(hex_up(d)) == Some(d),
        !is_ws(hex_up(d)),
        hex_up(d) != '*',
{
}

/// A line that starts and ends with a visible character is its own trim.
proof fn lemma_trim_same(l: Seq<char>)
    requires
        l.len() > 0,
        !is_ws(l[0]),
        !is_ws(l.last()),
    ensures
        trim(l) == l,
{
    assert(skip_ws(l, 0) == 0);
    assert(l.skip(0) =~= l);
    assert(back_ws(l, l.len() as int) == l.len());
    assert(l.take(l.len() as int) =~= l);
}

/// The two hex digits of a checksum read back as the checksum.
#[verifier::spinoff_prover]
proof fn lemma_hex_pair(sum: u8)
    ensures
        parse_hex8(trim(seq![hex_up((sum / 16) as nat), hex_up((sum % 16) as nat)])) == Some(sum),
{
    let h = seq![hex_up((sum / 16) as nat), hex_up((sum % 16) as nat)];
    lemma_hex_up((sum / 16) as nat);
    lemma_hex_up((sum % 16) as nat);
    lemma_trim_same(h);
    assert(h.drop_last() =~= seq![hex_up((sum / 16) as nat)]);
    assert(seq![hex_up((sum / 16) as nat)].drop_last() =~= Seq::<char>::empty());
    assert(hex_num(Seq::<char>::empty()) == 0);
    assert(hex_num(seq![hex_up((sum / 16) as nat)]) == (sum / 16) as nat);
    assert(hex_num(h) == sum);
    assert(all_hex(h));
}

/// A sentence as the encoder frames it passes the parser's checks, and its
/// fields are the ones written.
#[verifier::rlimit(40)]
#[verifier::spinoff_prover]
proof fn lemma_sentence_fields(p: Seq<char>)
    requires
        plain_payload(p),
    ensures
        sentence_fields(sentence(p)) == Some(seq!["AIVDM"@, "1"@, "1"@, Seq::<char>::empty(), "A"@, p, "0"@]),
{
    reveal_strlit("AIVDM,1,1,,A,");
    reveal_strlit(",0");
    reveal_strlit("!");
    reveal_strlit("!AIVDM");
    reveal_strlit("!AIVDO");
    let body = "AIVDM,1,1,,A,"@ + p + ",0"@;
    let sum = xor_all(utf8(body));
    let h1 = hex_up((sum / 16) as nat);
    let h2 = hex_up((sum % 16) as nat);
    lemma_hex_up((sum / 16) as nat);
    lemma_hex_up((sum % 16) as nat);
    let l = sentence(p);
    let tail = seq!['*', h1, h2];
    assert(l =~= seq!['!'] + body + tail);
    lemma_trim_same(l);
    assert(starts_with(l, "!AIVDM"@)) by {
        assert(l.subrange(0, 6) =~= "!AIVDM"@);
    }
    // the checksum's star is the last one
    let b1 = l.skip(1);
    assert(b1 =~= body + tail);
    assert(b1.drop_last() =~= body + seq!['*', h1]);
    assert((body + seq!['*', h1]).drop_last() =~= body.push('*'));
    assert(last_char(body.push('*'), '*') == body.len());
    assert((body + seq!['*', h1]).last() == h1);
    assert(last_char(body + seq!['*', h1], '*') == body.len());
    assert(b1.last() == h2);
    assert(last_char(b1, '*') == body.len());
    assert(l.drop_last() =~= seq!['!'] + body + seq!['*', h1]);
    assert((seq!['!'] + body + seq!['*', h1]).drop_last() =~= (seq!['!'] + body).push('*'));
    assert(last_char((seq!['!'] + body).push('*'), '*') == body.len() + 1);
    assert((seq!['!'] + body + seq!['*', h1]).last() == h1);
    assert(last_char(seq!['!'] + body + seq!['*', h1], '*') == body.len() + 1);
    assert(l.last() == h2);
    assert(last_char(l, '*') == body.len() + 1);
    assert(b1.skip(body.len() as int + 1) =~= seq![h1, h2]);
    lemma_hex_pair(sum);
    assert(b1.take(body.len() as int) =~= body);
    assert(spec_checksum_ok(l));
    assert(l.subrange(1, body.len() as int + 1) =~= body);
    lemma_split_body(p);
}

/// An encoder sentence goes through the parser in one step and decodes
/// its payload, the pending fragments untouched.
#[verifier::spinoff_prover]
proof fn lemma_sentence_step(st: FragsView, p: Seq<char>)
    requires
        plain_payload(p),
    ensures
        ais_step(st, sentence(p)) == (st, decode_armored(p)),
{
    lemma_sentence_fields(p);
    reveal_strlit("1");
    let one = "1"@;
    assert(one.len() == 1 && one[0] == '1');
    assert(one.drop_last() =~= Seq::<char>::empty());
    assert(dec_val(Seq::<char>::empty()) == 0);
    assert(one.last() == '1');
    assert(dec_val(one) == 1);
    assert(all_digits(one));
    assert(parse_uint(one, usize::MAX as nat) == Some(1nat));
}

/// A simulated position report reads back as written: fed to the AIS
/// parser, the encoder's sentence decodes at once to the MMSI, position,
/// speed and course it was made from, and leaves any pending fragments
/// as they were.
#[verifier::spinoff_prover]
pub proof fn lemma_type1_reads_back(st: FragsView, mmsi: u32, lat: i32, lon: i32, sog: u32, cog: u32)
    requires
        type1_in_range(mmsi, lat, lon, sog),
    ensures
        ais_step(st, spec_type1(mmsi, lat, lon, sog, cog)) == (st, Some(type1_view(mmsi, lat, lon, sog, cog))),
{
    let b = type1_bits(mmsi, lat, lon, sog, cog);
    lemma_type1_fields(mmsi, lat, lon, sog, cog);
    let a = armor(b);
    assert(plain_payload(a)) by {
        assert forall|i: int| 0 <= i < a.len() implies #[trigger] a[i] != ',' && a[i] != '*' by {
            lemma_chunk_bound(b, 6 * i, 6);
            lemma_armor_char(chunk_val(b, 6 * i, 6));
        }
    }
    lemma_sentence_step(st, a);
    lemma_dearmor(b);
    lemma_type1_decode(mmsi, lat, lon, sog, cog);
}

/// The bits padded with zeros to a whole number of six-bit chunks.
pub open spec fn padded(bits: Seq<bool>) -> Seq<bool> {
    bits + Seq::new(((6 - bits.len() % 6) % 6) as nat, |i: int| false)
}

proof fn lemma_chunk_padded(bits: Seq<bool>, s: int, k: int)
    requires
        0 <= s,
        0 <= k <= 6,
    ensures
        chunk_val(bits, s, k) == chunk_val(padded(bits), s, k),
    decreases k,
{
    if k > 0 {
        lemma_chunk_padded(bits, s, k - 1);
        let q = padded(bits);
        let i = s + k - 1;
        if i < bits.len() {
            assert(q[i] == bits[i]);
        } else if i < q.len() {
            assert(!q[i]);
        }
    }
}

/// De-armoring gives back the armored bits, padded with zeros to whole
/// six-bit chunks.
#[verifier::spinoff_prover]
proof fn lemma_dearmor_padded(bits: Seq<bool>)
    ensures
        payload_bits(utf8(armor(bits))) == padded(bits),
{
    let q = padded(bits);
    assert(q.len() % 6 == 0);
    assert(armor(bits) =~= armor(q)) by {
        assert((q.len() + 5) / 6 == (bits.len() + 5) / 6);
        assert forall|j: int| 0 <= j < armor(q).len() implies armor(bits)[j] == armor(q)[j] by {
            lemma_chunk_padded(bits, 6 * j, 6);
        }
    }
    lemma_dearmor(q);
}

/// The six-bit code a name byte is sent as (`@` is the padding, code 0).
pub open spec fn name_code(b: u8) -> nat {
    if b == 64 {
        0
    } else {
        (b % 64) as nat
    }
}

proof fn lemma_name_bits_chunk(bs: Seq<u8>, k: int)
    requires
        0 <= k < bs.len(),
    ensures
        name_bits(bs).len() == 6 * bs.len(),
        name_bits(bs).subrange(6 * k, 6 * k + 6) == ubits(name_code(bs[k]), 6),
    decreases bs.len(),
{
    lemma_name_bits_len(bs);
    lemma_name_bits_len(bs.drop_last());
    let last = ubits(name_code(bs.last()), 6);
    lemma_ubits_len(name_code(bs.last()), 6);
    let n = bs.len() as int;
    if k < n - 1 {
        lemma_name_bits_chunk(bs.drop_last(), k);
        assert(name_bits(bs).subrange(6 * k, 6 * k + 6) =~= name_bits(bs.drop_last()).subrange(6 * k, 6 * k + 6));
    } else {
        assert(name_bits(bs).subrange(6 * k, 6 * k + 6) =~= last);
    }
}

/// Characters a vessel name can carry: once upper-cased, six-bit ASCII
/// other than the `@` that ends a name.
pub open spec fn six_bit_text(c: char) -> bool {
    32 <= (upper(c) as u32) <= 95 && upper(c) != '@'
}

/// What a simulated vessel name reads back as: the upper-cased name,
/// trimmed, or no name when that is blank.
pub open spec fn name24_view(mmsi: u32, name: Seq<char>) -> AisView {
    let t = trim(upper_seq(name));
    AisView {
        mmsi,
        msg_type: 24,
        lat: None,
        lon: None,
        sog: None,
        cog: None,
        name: if t.len() > 0 { Some(t) } else { None },
    }
}

pub open spec fn name24_bits(mmsi: u32, name: Seq<char>) -> Seq<bool> {
    ubits(24, 6) + ubits(0, 2) + ubits(mmsi as nat, 30) + ubits(0, 2) + name_bits(name_bytes(name))
}

#[verifier::spinoff_prover]
proof fn lemma_name_text(mmsi: u32, name: Seq<char>, k: int)
    requires
        name.len() <= 20,
        forall|i: int| 0 <= i < name.len() ==> #[trigger] six_bit_text(name[i]),
        0 <= k <= name.len(),
    ensures
        text_from(padded(name24_bits(mmsi, name)), 40 + 6 * k, 160) == upper_seq(name).skip(k),
    decreases name.len() - k,
{
    let q = padded(name24_bits(mmsi, name));
    let up = upper_seq(name);
    let nb = name_bytes(name);
    assert forall|i: int| 0 <= i < up.len() implies (#[trigger] up[i] as u32) < 0x80 by {
        assert(six_bit_text(name[i]));
    }
    lemma_utf8_ascii(up);
    assert(utf8(up).len() == name.len());
    assert(nb.len() == 20);
    assert forall|v: nat, len: nat| #[trigger] ubits(v, len).len() == len by {
        lemma_ubits_len(v, len);
    }
    lemma_name_bits_len(nb);
    let b = name24_bits(mmsi, name);
    assert(b.len() == 160);
    if k < 20 {
        lemma_name_bits_chunk(nb, k);
        assert(q.subrange(40 + 6 * k, 46 + 6 * k) =~= name_bits(nb).subrange(6 * k, 6 * k + 6));
        lemma_field(q, 40 + 6 * k, 6, name_code(nb[k]));
        assert(pow2(6) == 64) by {
            reveal_with_fuel(pow2, 7);
        }
        assert(name_code(nb[k]) < 64);
        vstd::arithmetic::div_mod::lemma_small_mod(name_code(nb[k]), 64);
        assert(field_u(q, 40 + 6 * k, 6) == name_code(nb[k]));
    }
    if k < name.len() {
        assert(nb[k] == (up[k] as u32) as u8);
        assert(six_bit_text(name[k]));
        assert(six_char(name_code(nb[k])) == up[k]);
        lemma_name_text(mmsi, name, k + 1);
        assert(text_from(q, 40 + 6 * k, 160) == seq![up[k]] + text_from(q, 40 + 6 * (k + 1), 160));
        assert(up.skip(k) =~= seq![up[k]] + up.skip(k + 1));
    } else if k < 20 {
        assert(nb[k] == 64u8);
        assert(six_char(name_code(nb[k])) == '@');
        assert(text_from(q, 40 + 6 * k, 160) == Seq::<char>::empty());
        assert(up.skip(k) =~= Seq::<char>::empty());
    } else {
        assert(up.skip(k) =~= Seq::<char>::empty());
    }
}

#[verifier::rlimit(40)]
#[verifier::spinoff_prover]
proof fn lemma_name24_decode(mmsi: u32, name: Seq<char>)
    requires
        mmsi < 0x4000_0000,
        name.len() <= 20,
        forall|i: int| 0 <= i < name.len() ==> #[trigger] six_bit_text(name[i]),
    ensures
        spec_decode(padded(name24_bits(mmsi, name))) == Some(name24_view(mmsi, name)),
{
    let b = name24_bits(mmsi, name);
    let q = padded(b);
    let nb = name_bytes(name);
    let up = upper_seq(name);
    assert forall|i: int| 0 <= i < up.len() implies (#[trigger] up[i] as u32) < 0x80 by {
        assert(six_bit_text(name[i]));
    }
    lemma_utf8_ascii(up);
    assert(nb.len() == 20);
    assert forall|v: nat, len: nat| #[trigger] ubits(v, len).len() == len by {
        lemma_ubits_len(v, len);
    }
    lemma_name_bits_len(nb);
    assert(b.len() == 160);
    assert(q.len() == 162);
    assert(q.subrange(0, 6) =~= ubits(24, 6));
    lemma_field(q, 0, 6, 24);
    assert(q.subrange(8, 38) =~= ubits(mmsi as nat, 30));
    lemma_field(q, 8, 30, mmsi as nat);
    assert(q.subrange(38, 40) =~= ubits(0, 2));
    lemma_field(q, 38, 2, 0);
    reveal_with_fuel(pow2, 31);
    assert(pow2(6) == 64 && pow2(30) == 0x4000_0000);
    vstd::arithmetic::div_mod::lemma_small_mod(mmsi as nat, pow2(30));
    assert(field_u(q, 0, 6) == 24);
    assert(field_u(q, 8, 30) == mmsi);
    assert(field_u(q, 38, 2) == 0);
    lemma_name_text(mmsi, name, 0);
    assert(up.skip(0) =~= up);
    assert(field_str(q, 40, 120) == trim(up));
}

/// A simulated vessel name reads back as written: fed to the AIS parser,
/// the encoder's sentence for a name of at most twenty six-bit characters
/// decodes at once to the MMSI and the upper-cased, trimmed name (no name
/// when that is blank), and leaves any pending fragments as they were.
#[verifier::spinoff_prover]
pub proof fn lemma_name24_reads_back(st: FragsView, mmsi: u32, name: Seq<char>)
    requires
        mmsi < 0x4000_0000,
        name.len() <= 20,
        forall|i: int| 0 <= i < name.len() ==> #[trigger] six_bit_text(name[i]),
    ensures
        ais_step(st, spec_name24(mmsi, name)) == (st, Some(name24_view(mmsi, name))),
{
    let b = name24_bits(mmsi, name);
    assert(spec_name24(mmsi, name) == sentence(armor(b)));
    let a = armor(b);
    assert(plain_payload(a)) by {
        assert forall|i: int| 0 <= i < a.len() implies #[trigger] a[i] != ',' && a[i] != '*' by {
            lemma_chunk_bound(b, 6 * i, 6);
            lemma_armor_char(chunk_val(b, 6 * i, 6));
        }
    }
    lemma_sentence_step(st, a);
    lemma_dearmor_padded(b);
    lemma_name24_decode(mmsi, name);
}

} // verus!
