//! AIS (marine AIVDM/NMEA) decoder: position reports (types 1/2/3/18) and
//! vessel names (5, 24A), with multi-fragment reassembly.
//!
//! Positions, speed and course are kept in the units the message carries:
//! latitude and longitude in 1/600 000 degree (1/10 000 minute), speed
//! over ground in tenths of a knot, course over ground in tenths of a
//! degree.

use vstd::prelude::*;
use crate::device::{parse_hex16, parse_hex_u16};
use crate::text::{
    chars_of, parse_uint, parse_uint_str, slice, split_char, split_on, starts_with,
    starts_with_str, string_of, trim, trim_of, utf8, utf8_bytes, views, push_all,
};

verus! {

pub open spec fn pow2(n: nat) -> nat
    decreases n,
{
    if n == 0 {
        1
    } else {
        2 * pow2((n - 1) as nat)
    }
}

/// A run of bits read most significant first.
pub open spec fn bits_val(b: Seq<bool>) -> nat
    decreases b.len(),
{
    if b.len() == 0 {
        0
    } else {
        bits_val(b.drop_last()) * 2 + if b.last() {
            1nat
        } else {
            0nat
        }
    }
}

proof fn lemma_bits_val_bound(b: Seq<bool>)
    ensures
        bits_val(b) < pow2(b.len()),
    decreases b.len(),
{
    if b.len() > 0 {
        lemma_bits_val_bound(b.drop_last());
    }
}

/// The unsigned field of `len` bits at `start`, cut short at the end of
/// the message (and 0 when it starts past the end).
pub open spec fn field_u(bits: Seq<bool>, start: int, len: int) -> nat {
    let end = if start + len < bits.len() { start + len } else { bits.len() as int };
    if 0 <= start < end {
        bits_val(bits.subrange(start, end))
    } else {
        0
    }
}

/// The same field read as a two's complement number of `len` bits.
pub open spec fn field_i(bits: Seq<bool>, start: int, len: int) -> int {
    let v = field_u(bits, start, len);
    if v >= pow2((len - 1) as nat) {
        v - pow2(len as nat)
    } else {
        v as int
    }
}

fn take_u(bits: &Vec<bool>, start: usize, len: usize) -> (r: u32)
    requires
        len <= 32,
        start + len <= usize::MAX,
    ensures
        r == field_u(bits@, start as int, len as int),
        r < pow2(len as nat),
{
    let end: usize = if start + len < bits.len() {
        start + len
    } else {
        bits.len()
    };
    if start >= end {
        proof {
            lemma_pow2_pos(len as nat);
        }
        return 0;
    }
    let ghost b = bits@.subrange(start as int, end as int);
    let mut v: u64 = 0;
    let mut i: usize = start;
    proof {
        lemma_pow2_mono(0, 32);
    }
    while i < end
        invariant
            start <= i <= end <= bits@.len(),
            end - start <= len <= 32,
            b == bits@.subrange(start as int, end as int),
            v == bits_val(b.take(i - start)),
            v < pow2((i - start) as nat),
            pow2((i - start) as nat) <= pow2(32),
        decreases end - i,
    {
        assert(b.take(i - start + 1).drop_last() == b.take(i - start));
        assert(b.take(i - start + 1).last() == bits@[i as int]);
        proof {
            lemma_pow2_mono((i - start + 1) as nat, 32);
            lemma_pow2_32();
        }
        v = v * 2 + if bits[i] {
            1
        } else {
            0
        };
        i += 1;
    }
    assert(b.take(end - start) == b);
    proof {
        lemma_pow2_mono((end - start) as nat, len as nat);
        lemma_pow2_mono(len as nat, 32);
        lemma_pow2_32();
    }
    v as u32
}

proof fn lemma_pow2_add(a: nat, b: nat)
    ensures
        pow2(a + b) == pow2(a) * pow2(b),
    decreases b,
{
    if b == 0 {
        assert(a + b == a);
        assert(pow2(0) == 1);
    } else {
        let c = (b - 1) as nat;
        lemma_pow2_add(a, c);
        let n = a + b;
        assert(((n - 1) as nat) == a + c);
        assert(pow2(n) == 2 * pow2(a + c));
        assert(pow2(b) == 2 * pow2(c));
        assert(pow2(a) * (2 * pow2(c)) == 2 * (pow2(a) * pow2(c))) by (nonlinear_arith);
    }
}

pub proof fn lemma_pow2_32()
    ensures
        pow2(31) == 0x8000_0000,
        pow2(32) == 0x1_0000_0000,
{
    assert(pow2(8) == 256) by {
        reveal_with_fuel(pow2, 9);
    }
    lemma_pow2_add(8, 8);
    assert(pow2(16) == 65536);
    lemma_pow2_add(16, 16);
    assert(pow2(32) == 0x1_0000_0000);
    assert(pow2(32) == 2 * pow2(31));
}

pub proof fn lemma_pow2_pos(n: nat)
    ensures
        pow2(n) >= 1,
    decreases n,
{
    if n > 0 {
        lemma_pow2_pos((n - 1) as nat);
    }
}

pub proof fn lemma_pow2_mono(a: nat, b: nat)
    requires
        a <= b,
    ensures
        pow2(a) <= pow2(b),
    decreases b,
{
    if a < b {
        lemma_pow2_mono(a, (b - 1) as nat);
        lemma_pow2_pos((b - 1) as nat);
    }
}

fn pow2_u64(n: u32) -> (r: u64)
    requires
        n <= 31,
    ensures
        r == pow2(n as nat),
{
    let mut r: u64 = 1;
    let mut i: u32 = 0;
    while i < n
        invariant
            i <= n <= 31,
            r == pow2(i as nat),
        decreases n - i,
    {
        proof {
            lemma_pow2_mono((i + 1) as nat, 31);
            lemma_pow2_32();
        }
        r = r * 2;
        i += 1;
    }
    r
}

fn take_i(bits: &Vec<bool>, start: usize, len: usize) -> (r: i32)
    requires
        1 <= len <= 31,
        start + len <= usize::MAX,
    ensures
        r == field_i(bits@, start as int, len as int),
{
    let v = take_u(bits, start, len);
    let half = pow2_u64((len - 1) as u32);
    let full = pow2_u64(len as u32);
    proof {
        lemma_pow2_mono(len as nat, 31);
        lemma_pow2_32();
    }
    if v as u64 >= half {
        (v as i64 - full as i64) as i32
    } else {
        v as i32
    }
}


// --------------------------------------------------------------- armoring

/// The 6-bit value an armored payload byte stands for (ITU-R M.1371).
pub open spec fn sixbit(c: u8) -> nat {
    let v: int = if c >= 48 { c - 48 } else { c + 208 };
    let w: int = if v > 40 { v - 8 } else { v };
    (w % 64) as nat
}

pub open spec fn six_bits(v: nat) -> Seq<bool> {
    seq![
        (v / 32) % 2 == 1,
        (v / 16) % 2 == 1,
        (v / 8) % 2 == 1,
        (v / 4) % 2 == 1,
        (v / 2) % 2 == 1,
        v % 2 == 1,
    ]
}

/// 6-bit de-armoring of a payload.
pub open spec fn payload_bits(p: Seq<u8>) -> Seq<bool>
    decreases p.len(),
{
    if p.len() == 0 {
        seq![]
    } else {
        payload_bits(p.drop_last()) + six_bits(sixbit(p.last()))
    }
}

fn sixbit_of(c: u8) -> (x: u8)
    ensures
        x == sixbit(c),
{
    let v: u8 = c.wrapping_sub(48);
    assert(v == (if c >= 48 { c - 48 } else { c + 208 }));
    let w: u8 = if v > 40 {
        v - 8
    } else {
        v
    };
    w % 64
}

fn push_six(r: &mut Vec<bool>, x: u8)
    ensures
        final(r)@ == old(r)@ + six_bits(x as nat),
{
    r.push((x / 32) % 2 == 1);
    r.push((x / 16) % 2 == 1);
    r.push((x / 8) % 2 == 1);
    r.push((x / 4) % 2 == 1);
    r.push((x / 2) % 2 == 1);
    r.push(x % 2 == 1);
    assert(r@ == old(r)@ + six_bits(x as nat));
}

fn payload_bits_of(p: &Vec<u8>) -> (r: Vec<bool>)
    ensures
        r@ == payload_bits(p@),
{
    let mut r: Vec<bool> = Vec::new();
    let mut i: usize = 0;
    while i < p.len()
        invariant
            i <= p@.len(),
            r@ == payload_bits(p@.take(i as int)),
        decreases p.len() - i,
    {
        assert(p@.take(i + 1).drop_last() == p@.take(i as int));
        let x = sixbit_of(p[i]);
        push_six(&mut r, x);
        i += 1;
    }
    assert(p@.take(p@.len() as int) == p@);
    r
}

/// 6-bit ASCII.
pub open spec fn six_char(v: nat) -> char {
    if v < 32 {
        (v + 64) as char
    } else {
        v as char
    }
}

/// The 6-bit text from `i` up to `end`, stopping at the first `@`.
pub open spec fn text_from(bits: Seq<bool>, i: int, end: int) -> Seq<char>
    decreases end - i,
{
    if i < 0 || i + 6 > end {
        seq![]
    } else if six_char(field_u(bits, i, 6)) == '@' {
        seq![]
    } else {
        seq![six_char(field_u(bits, i, 6))] + text_from(bits, i + 6, end)
    }
}

/// A text field of `len` bits at `start`, trimmed.
pub open spec fn field_str(bits: Seq<bool>, start: int, len: int) -> Seq<char> {
    let end = if start + len < bits.len() { start + len } else { bits.len() as int };
    trim(text_from(bits, start, end))
}

fn take_str(bits: &Vec<bool>, start: usize, len: usize) -> (r: Vec<char>)
    requires
        start + len <= usize::MAX,
    ensures
        r@ == field_str(bits@, start as int, len as int),
{
    let end: usize = if start + len < bits.len() {
        start + len
    } else {
        bits.len()
    };
    let mut out: Vec<char> = Vec::new();
    let mut i: usize = start;
    while i <= end && end - i >= 6
        invariant
            start <= i,
            end <= bits@.len(),
            end == (if start + len < bits@.len() { start + len } else { bits@.len() as int }),
            out@ + text_from(bits@, i as int, end as int) == text_from(bits@, start as int, end as int),
        decreases end - i,
    {
        let c = take_u(bits, i, 6);
        proof {
            lemma_pow2_32();
            assert(pow2(6) == 64) by {
                reveal_with_fuel(pow2, 7);
            }
        }
        let ch: char = if c < 32 {
            ((c + 64) as u8) as char
        } else {
            (c as u8) as char
        };
        assert(ch == six_char(c as nat));
        if ch == '@' {
            assert(out@ + Seq::<char>::empty() == out@);
            return trim_of(&out);
        }
        assert(out@.push(ch) + text_from(bits@, i + 6, end as int) == out@ + (seq![ch] + text_from(bits@, i + 6, end as int)));
        out.push(ch);
        i += 6;
    }
    assert(out@ + Seq::<char>::empty() == out@);
    trim_of(&out)
}

// --------------------------------------------------------------- messages

/// A decoded report: position in 1/600 000 degree, speed over ground and
/// course over ground in tenths.
#[derive(Clone, Debug, PartialEq)]
pub struct AisMsg {
    pub mmsi: u32,
    pub msg_type: u8,
    pub lat: Option<i32>,
    pub lon: Option<i32>,
    pub sog: Option<u32>,
    pub cog: Option<u32>,
    pub name: Option<String>,
}

pub struct AisView {
    pub mmsi: u32,
    pub msg_type: u8,
    pub lat: Option<i32>,
    pub lon: Option<i32>,
    pub sog: Option<u32>,
    pub cog: Option<u32>,
    pub name: Option<Seq<char>>,
}

impl View for AisMsg {
    type V = AisView;

    open spec fn view(&self) -> AisView {
        AisView {
            mmsi: self.mmsi,
            msg_type: self.msg_type,
            lat: self.lat,
            lon: self.lon,
            sog: self.sog,
            cog: self.cog,
            name: match self.name {
                Some(n) => Some(n@),
                None => None,
            },
        }
    }
}

/// Speed, position and course of a position report (a position only when
/// neither coordinate holds its "not available" value).
pub open spec fn with_position(bits: Seq<bool>, m: AisView, sog_at: int, lon_at: int, lat_at: int, cog_at: int) -> AisView {
    let sog = field_u(bits, sog_at, 10);
    let lon = field_i(bits, lon_at, 28);
    let lat = field_i(bits, lat_at, 27);
    let cog = field_u(bits, cog_at, 12);
    let has_pos = lon != 0x6791AC0 && lat != 0x3412140;
    AisView {
        sog: if sog != 1023 { Some(sog as u32) } else { None },
        lon: if has_pos { Some(lon as i32) } else { None },
        lat: if has_pos { Some(lat as i32) } else { None },
        cog: if cog != 3600 { Some(cog as u32) } else { None },
        ..m
    }
}

pub open spec fn with_name(m: AisView, name: Seq<char>) -> AisView {
    if name.len() > 0 {
        AisView { name: Some(name), ..m }
    } else {
        m
    }
}

/// What a de-armored payload says: type and MMSI always; position reports
/// (1-3 class A, 18 class B) add speed, position and course; static data
/// (5) and part A of type 24 add the vessel name.
pub open spec fn spec_decode(bits: Seq<bool>) -> Option<AisView> {
    if bits.len() < 38 {
        None
    } else {
        let t = field_u(bits, 0, 6) as u8;
        let m = AisView {
            mmsi: field_u(bits, 8, 30) as u32,
            msg_type: t,
            lat: None,
            lon: None,
            sog: None,
            cog: None,
            name: None,
        };
        Some(
            if 1 <= t <= 3 {
                with_position(bits, m, 50, 61, 89, 116)
            } else if t == 18 {
                with_position(bits, m, 46, 57, 85, 112)
            } else if t == 5 {
                if bits.len() >= 232 {
                    with_name(m, field_str(bits, 112, 120))
                } else {
                    m
                }
            } else if t == 24 && field_u(bits, 38, 2) == 0 && bits.len() >= 160 {
                with_name(m, field_str(bits, 40, 120))
            } else {
                m
            },
        )
    }
}

/// A position report read from its bits: the type is the first six bits
/// and the MMSI the 30 bits at 8; speed (10 bits), longitude (28 bits,
/// signed), latitude (27 bits, signed) and course (12 bits) sit at bits
/// 50, 61, 89, 116 in class A reports (types 1-3) and at 46, 57, 85, 112
/// in class B reports (type 18). Each is reported unless it holds its
/// "not available" value (speed 1023, course 3600, longitude 181°,
/// latitude 91°).
pub proof fn lemma_position_fields(bits: Seq<bool>)
    requires
        bits.len() >= 38,
        1 <= field_u(bits, 0, 6) <= 3 || field_u(bits, 0, 6) == 18,
    ensures
        ({
            let class_b = field_u(bits, 0, 6) == 18;
            let sog_at: int = if class_b { 46 } else { 50 };
            let lon_at: int = if class_b { 57 } else { 61 };
            let lat_at: int = if class_b { 85 } else { 89 };
            let cog_at: int = if class_b { 112 } else { 116 };
            let m = spec_decode(bits)->0;
            &&& spec_decode(bits) is Some
            &&& m.msg_type == field_u(bits, 0, 6)
            &&& m.mmsi == field_u(bits, 8, 30)
            &&& (field_u(bits, sog_at, 10) != 1023 ==> m.sog == Some(field_u(bits, sog_at, 10) as u32))
            &&& (field_u(bits, sog_at, 10) == 1023 ==> m.sog is None)
            &&& (field_u(bits, cog_at, 12) != 3600 ==> m.cog == Some(field_u(bits, cog_at, 12) as u32))
            &&& (field_u(bits, cog_at, 12) == 3600 ==> m.cog is None)
            &&& (field_i(bits, lon_at, 28) != 0x6791AC0 && field_i(bits, lat_at, 27) != 0x3412140 ==> m.lon
                == Some(field_i(bits, lon_at, 28) as i32) && m.lat == Some(field_i(bits, lat_at, 27) as i32))
            &&& (field_i(bits, lon_at, 28) == 0x6791AC0 || field_i(bits, lat_at, 27) == 0x3412140 ==> m.lon is None
                && m.lat is None)
            &&& m.name is None
        }),
{
    lemma_bits_val_bound(bits.subrange(0, 6));
    assert(pow2(6) == 64) by {
        reveal_with_fuel(pow2, 7);
    }
    let e = if 38 < bits.len() { 38 } else { bits.len() as int };
    lemma_bits_val_bound(bits.subrange(8, e));
    lemma_pow2_32();
    lemma_pow2_mono((e - 8) as nat, 32);
}

fn set_position(bits: &Vec<bool>, m: &mut AisMsg, sog_at: usize, lon_at: usize, lat_at: usize, cog_at: usize)
    requires
        cog_at <= 1000,
        sog_at <= 1000,
        lon_at <= 1000,
        lat_at <= 1000,
    ensures
        final(m)@ == with_position(bits@, old(m)@, sog_at as int, lon_at as int, lat_at as int, cog_at as int),
{
    let sog = take_u(bits, sog_at, 10);
    let lon = take_i(bits, lon_at, 28);
    let lat = take_i(bits, lat_at, 27);
    let cog = take_u(bits, cog_at, 12);
    m.sog = if sog != 1023 {
        Some(sog)
    } else {
        None
    };
    if lon != 0x6791AC0 && lat != 0x3412140 {
        m.lon = Some(lon);
        m.lat = Some(lat);
    } else {
        m.lon = None;
        m.lat = None;
    }
    m.cog = if cog != 3600 {
        Some(cog)
    } else {
        None
    };
}

fn set_name(m: &mut AisMsg, name: Vec<char>)
    ensures
        final(m)@ == with_name(old(m)@, name@),
{
    if name.len() > 0 {
        m.name = Some(string_of(&name));
    }
}

fn decode_payload(bits: &Vec<bool>) -> (r: Option<AisMsg>)
    ensures
        r matches Some(m) ==> spec_decode(bits@) == Some(m@),
        r is None ==> spec_decode(bits@) is None,
{
    if bits.len() < 38 {
        return None;
    }
    proof {
        lemma_pow2_32();
        assert(pow2(6) == 64) by {
            reveal_with_fuel(pow2, 7);
        }
    }
    let t = take_u(bits, 0, 6) as u8;
    let mmsi = take_u(bits, 8, 30);
    let mut m = AisMsg { mmsi, msg_type: t, lat: None, lon: None, sog: None, cog: None, name: None };
    if 1 <= t && t <= 3 {
        set_position(bits, &mut m, 50, 61, 89, 116);
    } else if t == 18 {
        set_position(bits, &mut m, 46, 57, 85, 112);
    } else if t == 5 {
        if bits.len() >= 232 {
            let name = take_str(bits, 112, 120);
            set_name(&mut m, name);
        }
    } else if t == 24 && take_u(bits, 38, 2) == 0 && bits.len() >= 160 {
        let name = take_str(bits, 40, 120);
        set_name(&mut m, name);
    }
    Some(m)
}


// --------------------------------------------------------------- sentences

/// Index of the last `c` in `s`, or -1.
pub open spec fn last_char(s: Seq<char>, c: char) -> int
    decreases s.len(),
{
    if s.len() == 0 {
        -1
    } else if s.last() == c {
        s.len() - 1
    } else {
        last_char(s.drop_last(), c)
    }
}

proof fn lemma_last_char(s: Seq<char>, c: char)
    ensures
        -1 <= last_char(s, c) < s.len(),
        last_char(s, c) >= 0 ==> s[last_char(s, c)] == c,
    decreases s.len(),
{
    if s.len() > 0 && s.last() != c {
        lemma_last_char(s.drop_last(), c);
    }
}

fn last_char_of(s: &Vec<char>, c: char) -> (r: Option<usize>)
    ensures
        r matches Some(k) ==> last_char(s@, c) == k && k < s@.len(),
        r is None ==> last_char(s@, c) == -1,
{
    let mut j: usize = s.len();
    assert(s@.take(j as int) == s@);
    while j > 0
        invariant
            j <= s@.len(),
            last_char(s@, c) == last_char(s@.take(j as int), c),
        decreases j,
    {
        if s[j - 1] == c {
            return Some(j - 1);
        }
        assert(s@.take(j as int).drop_last() == s@.take(j - 1));
        j -= 1;
    }
    None
}

/// XOR of all bytes.
pub open spec fn xor_all(b: Seq<u8>) -> u8
    decreases b.len(),
{
    if b.len() == 0 {
        0
    } else {
        xor_all(b.drop_last()) ^ b.last()
    }
}

/// `u8::from_str_radix(s, 16)`.
pub open spec fn parse_hex8(s: Seq<char>) -> Option<u8> {
    match parse_hex16(s) {
        Some(v) => if v <= 0xFF {
            Some(v as u8)
        } else {
            None
        },
        None => None,
    }
}

/// `!<data>*<hh>`: the hex checksum after the last `*` is the XOR of the
/// data bytes (an unreadable checksum counts as 0xFF).
pub open spec fn spec_checksum_ok(l: Seq<char>) -> bool {
    let body = l.skip(1);
    let k = last_char(body, '*');
    let want: u8 = match parse_hex8(trim(body.skip(k + 1))) {
        Some(v) => v,
        None => 0xFF,
    };
    l.len() > 0 && l[0] == '!' && k >= 0 && want == xor_all(utf8(body.take(k)))
}

fn xor_of(b: &Vec<u8>) -> (r: u8)
    ensures
        r == xor_all(b@),
{
    let mut x: u8 = 0;
    let mut i: usize = 0;
    while i < b.len()
        invariant
            i <= b@.len(),
            x == xor_all(b@.take(i as int)),
        decreases b.len() - i,
    {
        assert(b@.take(i + 1).drop_last() == b@.take(i as int));
        x = x ^ b[i];
        i += 1;
    }
    assert(b@.take(b@.len() as int) == b@);
    x
}

pub fn checksum_ok(line: &str) -> (b: bool)
    ensures
        b == spec_checksum_ok(line@),
{
    let l = chars_of(line);
    checksum_ok_chars(&l)
}

fn checksum_ok_chars(l: &Vec<char>) -> (b: bool)
    ensures
        b == spec_checksum_ok(l@),
{
    if l.len() == 0 || l[0] != '!' {
        return false;
    }
    let body = slice(l, 1, l.len());
    assert(body@ == l@.skip(1));
    match last_char_of(&body, '*') {
        None => false,
        Some(k) => {
            let sum = slice(&body, k + 1, body.len());
            assert(sum@ == body@.skip(k + 1));
            let want: u8 = match parse_hex_u16(&trim_of(&sum)) {
                Some(v) => if v <= 0xFF {
                    v as u8
                } else {
                    0xFF
                },
                None => 0xFF,
            };
            let data = slice(&body, 0, k);
            assert(data@ == body@.take(k as int));
            want == xor_of(&utf8_bytes(&data))
        },
    }
}

// ------------------------------------------------------------ reassembly

pub type FragKey = (Seq<char>, Seq<char>);

pub type FragsView = Seq<(FragKey, Seq<Option<Seq<char>>>)>;

pub open spec fn opt_view(o: Option<String>) -> Option<Seq<char>> {
    match o {
        Some(s) => Some(s@),
        None => None,
    }
}

pub open spec fn slots_view(v: Seq<Option<String>>) -> Seq<Option<Seq<char>>> {
    v.map_values(|o: Option<String>| opt_view(o))
}

pub open spec fn frags_view(v: Seq<((String, String), Vec<Option<String>>)>) -> FragsView {
    v.map_values(|e: ((String, String), Vec<Option<String>>)| ((e.0.0@, e.0.1@), slots_view(e.1@)))
}

/// First index `>= i` whose key is `k` (or the length).
pub open spec fn entry_pos(st: FragsView, k: FragKey, i: int) -> int
    decreases st.len() - i,
{
    if i < 0 || i >= st.len() {
        st.len() as int
    } else if st[i].0 == k {
        i
    } else {
        entry_pos(st, k, i + 1)
    }
}

pub open spec fn all_some(s: Seq<Option<Seq<char>>>) -> bool {
    forall|i: int| 0 <= i < s.len() ==> (#[trigger] s[i]) is Some
}

/// The fragments' payloads in order.
pub open spec fn joined(s: Seq<Option<Seq<char>>>) -> Seq<char>
    decreases s.len(),
{
    if s.len() == 0 {
        seq![]
    } else {
        joined(s.drop_last()) + match s.last() {
            Some(p) => p,
            None => seq![],
        }
    }
}

/// Decode an armored payload.
pub open spec fn decode_armored(payload: Seq<char>) -> Option<AisView> {
    spec_decode(payload_bits(utf8(payload)))
}

/// The comma-separated fields between `!` and the checksum of an
/// `!AIVDM`/`!AIVDO` sentence whose checksum is good.
pub open spec fn sentence_fields(line: Seq<char>) -> Option<Seq<Seq<char>>> {
    let l = trim(line);
    if (starts_with(l, "!AIVDM"@) || starts_with(l, "!AIVDO"@)) && spec_checksum_ok(l) {
        Some(split_char(l.subrange(1, last_char(l, '*')), ','))
    } else {
        None
    }
}

/// Part `num` of a `total`-part message keyed `key` arrives: it fills its
/// slot (the slot count fixed by the message's first part), and the
/// message decodes once every slot is filled.
pub open spec fn reassemble(st: FragsView, total: nat, num: nat, key: FragKey, payload: Seq<char>) -> (FragsView, Option<AisView>) {
    let i = entry_pos(st, key, 0);
    let slots0 = if i < st.len() {
        st[i].1
    } else {
        Seq::new(total, |j: int| None::<Seq<char>>)
    };
    let slots = if 1 <= num <= slots0.len() {
        slots0.update(num - 1, Some(payload))
    } else {
        slots0
    };
    if all_some(slots) {
        (if i < st.len() { st.remove(i) } else { st }, decode_armored(joined(slots)))
    } else {
        (if i < st.len() { st.update(i, (key, slots)) } else { st.push((key, slots)) }, None)
    }
}

/// One line through the parser: the pending fragments afterwards and the
/// message completed by this line, if any. Sentences need at least seven
/// fields, with numeric part count and part number; single-part messages
/// decode at once.
pub open spec fn ais_step(st: FragsView, line: Seq<char>) -> (FragsView, Option<AisView>) {
    match sentence_fields(line) {
        None => (st, None),
        Some(f) => if f.len() < 7 {
            (st, None)
        } else {
            match (parse_uint(f[1], usize::MAX as nat), parse_uint(f[2], usize::MAX as nat)) {
                (Some(total), Some(num)) => if total <= 1 {
                    (st, decode_armored(f[5]))
                } else {
                    reassemble(st, total, num, (f[3], f[4]), f[5])
                },
                _ => (st, None),
            }
        },
    }
}

/// Stateful AIVDM sentence parser (handles fragmenting).
pub struct AisParser {
    frags: Vec<((String, String), Vec<Option<String>>)>,
}

impl View for AisParser {
    type V = FragsView;

    closed spec fn view(&self) -> FragsView {
        frags_view(self.frags@)
    }
}

fn entry_pos_of(st: &Vec<((String, String), Vec<Option<String>>)>, k0: &String, k1: &String) -> (r: usize)
    ensures
        r == entry_pos(frags_view(st@), (k0@, k1@), 0),
        r <= st@.len(),
{
    let ghost sv = frags_view(st@);
    let mut i: usize = 0;
    while i < st.len()
        invariant
            i <= st@.len(),
            sv == frags_view(st@),
            entry_pos(sv, (k0@, k1@), 0) == entry_pos(sv, (k0@, k1@), i as int),
        decreases st.len() - i,
    {
        if st[i].0.0 == *k0 && st[i].0.1 == *k1 {
            return i;
        }
        i += 1;
    }
    i
}

fn joined_of(s: &Vec<Option<String>>) -> (r: Vec<char>)
    ensures
        r@ == joined(slots_view(s@)),
{
    let ghost sv = slots_view(s@);
    let mut r: Vec<char> = Vec::new();
    let mut i: usize = 0;
    while i < s.len()
        invariant
            i <= s@.len(),
            sv == slots_view(s@),
            r@ == joined(sv.take(i as int)),
        decreases s.len() - i,
    {
        assert(sv.take(i + 1).drop_last() == sv.take(i as int));
        match &s[i] {
            Some(p) => {
                let pv = chars_of(p.as_str());
                push_all(&mut r, &pv);
            },
            None => {
                assert(r@ + Seq::<char>::empty() == r@);
            },
        }
        i += 1;
    }
    assert(sv.take(s@.len() as int) == sv);
    r
}

fn all_some_of(s: &Vec<Option<String>>) -> (b: bool)
    ensures
        b == all_some(slots_view(s@)),
{
    let mut i: usize = 0;
    while i < s.len()
        invariant
            i <= s@.len(),
            forall|j: int| 0 <= j < i ==> (#[trigger] slots_view(s@)[j]) is Some,
        decreases s.len() - i,
    {
        if s[i].is_none() {
            assert(slots_view(s@)[i as int] is None);
            return false;
        }
        i += 1;
    }
    true
}

fn decode_chars(payload: &Vec<char>) -> (r: Option<AisMsg>)
    ensures
        r matches Some(m) ==> decode_armored(payload@) == Some(m@),
        r is None ==> decode_armored(payload@) is None,
{
    let bytes = utf8_bytes(payload);
    let bits = payload_bits_of(&bytes);
    decode_payload(&bits)
}

fn sentence_fields_of(line: &str) -> (r: Option<Vec<Vec<char>>>)
    ensures
        r matches Some(f) ==> sentence_fields(line@) == Some(views(f@)),
        r is None ==> sentence_fields(line@) is None,
{
    let raw = chars_of(line);
    let l = trim_of(&raw);
    if !((starts_with_str(&l, "!AIVDM") || starts_with_str(&l, "!AIVDO")) && checksum_ok_chars(&l)) {
        return None;
    }
    proof {
        lemma_last_char(l@.skip(1), '*');
        lemma_last_shift(l@, '*');
    }
    let star = match last_char_of(&l, '*') {
        Some(k) => k,
        None => return None,
    };
    let body = slice(&l, 1, star);
    Some(split_on(&body, ','))
}

pub open spec fn msg_view(r: Option<AisMsg>) -> Option<AisView> {
    match r {
        Some(m) => Some(m@),
        None => None,
    }
}

impl AisParser {
    pub fn new() -> (p: Self)
        ensures
            p@ == FragsView::empty(),
    {
        AisParser { frags: Vec::new() }
    }

    fn reassemble_in(&mut self, total: usize, num: usize, k0: String, k1: String, payload: &Vec<char>) -> (r: Option<AisMsg>)
        ensures
            (final(self)@, msg_view(r)) == reassemble(old(self)@, total as nat, num as nat, (k0@, k1@), payload@),
    {
        let ghost st = self@;
        let i = entry_pos_of(&self.frags, &k0, &k1);
        let found = i < self.frags.len();
        let mut slots: Vec<Option<String>> = if found {
            let e = self.frags.remove(i);
            assert(slots_view(e.1@) == st[i as int].1);
            e.1
        } else {
            let mut v: Vec<Option<String>> = Vec::new();
            let mut j: usize = 0;
            while j < total
                invariant
                    j <= total,
                    v@.len() == j,
                    forall|q: int| 0 <= q < j ==> (#[trigger] v@[q]) is None,
                decreases total - j,
            {
                v.push(None);
                j += 1;
            }
            assert(slots_view(v@) == Seq::new(total as nat, |q: int| None::<Seq<char>>));
            v
        };
        let ghost slots0 = slots_view(slots@);
        if 1 <= num && num <= slots.len() {
            slots.set(num - 1, Some(string_of(payload)));
            assert(slots_view(slots@) == slots0.update(num - 1, Some(payload@)));
        }
        if all_some_of(&slots) {
            let joined_payload = joined_of(&slots);
            proof {
                if found {
                    assert(self@ == st.remove(i as int));
                }
            }
            return decode_chars(&joined_payload);
        }
        let ghost entry = ((k0@, k1@), slots_view(slots@));
        if found {
            self.frags.insert(i, ((k0, k1), slots));
            assert(self@ == st.update(i as int, entry));
        } else {
            self.frags.push(((k0, k1), slots));
            assert(self@ == st.push(entry));
        }
        None
    }

    pub fn push(&mut self, line: &str) -> (r: Option<AisMsg>)
        ensures
            (final(self)@, msg_view(r)) == ais_step(old(self)@, line@),
    {
        let f = match sentence_fields_of(line) {
            Some(f) => f,
            None => return None,
        };
        if f.len() < 7 {
            return None;
        }
        assert(f@[1]@ == views(f@)[1] && f@[2]@ == views(f@)[2] && f@[3]@ == views(f@)[3]
            && f@[4]@ == views(f@)[4] && f@[5]@ == views(f@)[5]);
        let total = match parse_uint_str(&f[1], usize::MAX as u64) {
            Some(v) => v as usize,
            None => return None,
        };
        let num = match parse_uint_str(&f[2], usize::MAX as u64) {
            Some(v) => v as usize,
            None => return None,
        };
        if total <= 1 {
            return decode_chars(&f[5]);
        }
        self.reassemble_in(total, num, string_of(&f[3]), string_of(&f[4]), &f[5])
    }
}

proof fn lemma_last_shift(l: Seq<char>, c: char)
    requires
        l.len() > 0,
        l[0] != c,
    ensures
        last_char(l, c) == if last_char(l.skip(1), c) >= 0 { last_char(l.skip(1), c) + 1 } else { -1 },
    decreases l.len(),
{
    let t = l.skip(1);
    if l.len() > 1 {
        assert(t.last() == l.last());
        assert(t.len() == l.len() - 1);
        if l.last() != c {
            assert(l.drop_last().skip(1) == t.drop_last());
            assert(l.drop_last()[0] == l[0]);
            lemma_last_shift(l.drop_last(), c);
            assert(last_char(l, c) == last_char(l.drop_last(), c));
            assert(last_char(t, c) == last_char(t.drop_last(), c));
        } else {
            assert(last_char(l, c) == l.len() - 1);
            assert(last_char(t, c) == t.len() - 1);
        }
    } else {
        assert(l.last() == l[0]);
        assert(last_char(l, c) == last_char(l.drop_last(), c));
        assert(l.drop_last().len() == 0);
        assert(t.len() == 0);
    }
}

} // verus!
