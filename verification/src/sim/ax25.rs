//! AX.25 UI frames + HDLC bit layer (stuffing, NRZI) for AFSK1200/APRS.

use vstd::prelude::*;
use vstd::string::StringSliceAdditionalSpecFns;
use crate::text::{chars_of, find_char_from, parse_uint, upper};

verus! {

// ------------------------------------------------------------------ CRC

/// One bit of the reflected CRC-16/X-25 register (poly 0x8408).
pub open spec fn crc_bit(c: u16) -> u16 {
    if c & 1 != 0 {
        (c >> 1u16) ^ 0x8408
    } else {
        c >> 1u16
    }
}

pub open spec fn crc_bits(c: u16, n: nat) -> u16
    decreases n,
{
    if n == 0 {
        c
    } else {
        crc_bit(crc_bits(c, (n - 1) as nat))
    }
}

/// Register after feeding one byte.
pub open spec fn crc_byte(c: u16, b: u8) -> u16 {
    crc_bits(c ^ (b as u16), 8)
}

/// Register after feeding all bytes, starting from 0xFFFF.
pub open spec fn crc_reg(bytes: Seq<u8>) -> u16
    decreases bytes.len(),
{
    if bytes.len() == 0 {
        0xFFFF
    } else {
        crc_byte(crc_reg(bytes.drop_last()), bytes.last())
    }
}

/// CRC-16/X-25 (the AX.25 FCS): init/xorout 0xFFFF.
pub open spec fn spec_crc_x25(bytes: Seq<u8>) -> u16 {
    crc_reg(bytes) ^ 0xFFFF
}

/// CRC-16/X-25 (the AX.25 FCS): poly 0x8408 reflected, init/xorout 0xFFFF.
pub fn crc_x25(bytes: &[u8]) -> (r: u16)
    ensures
        r == spec_crc_x25(bytes@),
{
    let mut crc: u16 = 0xFFFF;
    let mut i: usize = 0;
    while i < bytes.len()
        invariant
            i <= bytes@.len(),
            crc == crc_reg(bytes@.take(i as int)),
        decreases bytes.len() - i,
    {
        let b = bytes[i];
        let ghost start = crc ^ (b as u16);
        crc ^= b as u16;
        let mut k: u32 = 0;
        while k < 8
            invariant
                k <= 8,
                crc == crc_bits(start, k as nat),
            decreases 8 - k,
        {
            crc = if crc & 1 != 0 {
                (crc >> 1) ^ 0x8408
            } else {
                crc >> 1
            };
            k += 1;
        }
        assert(bytes@.take(i + 1).drop_last() == bytes@.take(i as int));
        i += 1;
    }
    assert(bytes@.take(bytes@.len() as int) == bytes@);
    crc ^ 0xFFFF
}

// ------------------------------------------------------------- addresses

/// The SSID of a `CALL-N` string (0 when absent or unparsable).
pub open spec fn call_ssid(call: Seq<char>) -> u8 {
    let k = find_char_from(call, '-', 0);
    if k < call.len() {
        match parse_uint(call.skip(k + 1), 255) {
            Some(v) => v as u8,
            None => 0,
        }
    } else {
        0
    }
}

/// The callsign part of a `CALL-N` string.
pub open spec fn call_base(call: Seq<char>) -> Seq<char> {
    call.take(find_char_from(call, '-', 0))
}

/// AX.25 address field: six shifted upper-case chars (space padded) and
/// the SSID byte with the end-of-address and command/response bits.
pub open spec fn call_bytes(call: Seq<char>, last: bool, cbit: bool) -> Seq<u8> {
    let base = call_base(call);
    let ssid = call_ssid(call);
    Seq::new(
        6,
        |i: int| ((upper(if i < base.len() { base[i] } else { ' ' }) as u8) << 1u8) as u8,
    ).push(
        (0x60u8 | ((ssid & 0x0F) << 1u8) | (if last { 1u8 } else { 0u8 }) | (if cbit {
            0x80u8
        } else {
            0u8
        })) as u8,
    )
}

fn push_call(out: &mut Vec<u8>, call: &str, last: bool, cbit: bool)
    ensures
        final(out)@ == old(out)@ + call_bytes(call@, last, cbit),
{
    let cs = chars_of(call);
    let k = crate::text::find_char(&cs, '-', 0);
    proof {
        crate::text::lemma_find_char_from(cs@, '-', 0);
    }
    let ssid: u8 = if k < cs.len() {
        assert(cs@.subrange(k + 1, cs@.len() as int) == cs@.skip(k + 1));
        match crate::text::parse_uint_at(&cs, k + 1, cs.len(), 255) {
            Some(v) => v as u8,
            None => 0,
        }
    } else {
        0
    };
    let ghost start = out@;
    let mut i: usize = 0;
    while i < 6
        invariant
            i <= 6,
            k <= cs@.len(),
            out@ == start + Seq::new(
                i as nat,
                |j: int| ((upper(if j < k { cs@[j] } else { ' ' }) as u8) << 1u8) as u8,
            ),
        decreases 6 - i,
    {
        let c = if i < k {
            cs[i]
        } else {
            ' '
        };
        let u = crate::text::to_upper(c) as u8;
        out.push(u << 1);
        i += 1;
    }
    let mut b: u8 = 0x60 | ((ssid & 0x0F) << 1);
    if last {
        b |= 0x01;
    }
    if cbit {
        b |= 0x80;
    }
    proof {
        let base = call_base(call@);
        assert(base.len() == k);
        assert(forall|j: int| 0 <= j < k ==> base[j] == cs@[j]);
        assert(b == (0x60u8 | ((ssid & 0x0F) << 1u8) | (if last { 1u8 } else { 0u8 }) | (if cbit {
            0x80u8
        } else {
            0u8
        }))) by (bit_vector)
            requires
                b == (if cbit { (if last { (0x60u8 | ((ssid & 0x0F) << 1u8)) | 0x01u8 } else { 0x60u8 | ((ssid & 0x0F) << 1u8) }) | 0x80u8 } else { (if last { (0x60u8 | ((ssid & 0x0F) << 1u8)) | 0x01u8 } else { 0x60u8 | ((ssid & 0x0F) << 1u8) }) }),
        ;
    }
    out.push(b);
    assert(out@ == start + call_bytes(call@, last, cbit));
}

/// Address bytes of the digipeater path, the last one flagged.
pub open spec fn path_bytes(path: Seq<&str>) -> Seq<u8>
    decreases path.len(),
{
    if path.len() == 0 {
        seq![]
    } else {
        path_bytes(path.drop_last()) + call_bytes(path.last()@, false, false)
    }
}

/// Same as [`path_bytes`] but with the end-of-address bit on the final entry.
pub open spec fn path_field(path: Seq<&str>) -> Seq<u8> {
    if path.len() == 0 {
        seq![]
    } else {
        path_bytes(path.drop_last()) + call_bytes(path.last()@, true, false)
    }
}

/// Frame body before the FCS: DEST SRC [PATH…] 0x03 0xF0 INFO.
pub open spec fn frame_body(src: Seq<char>, dest: Seq<char>, path: Seq<&str>, info: &str) -> Seq<
    u8,
> {
    call_bytes(dest, false, true) + call_bytes(src, path.len() == 0, false) + path_field(path)
        + seq![0x03u8, 0xF0u8] + info.spec_bytes()
}

pub open spec fn spec_frame(src: Seq<char>, dest: Seq<char>, path: Seq<&str>, info: &str) -> Seq<
    u8,
> {
    let body = frame_body(src, dest, path, info);
    let fcs = spec_crc_x25(body);
    body + seq![(fcs & 0xFF) as u8, (fcs >> 8u16) as u8]
}

proof fn lemma_call_bytes(call: Seq<char>, last: bool, cbit: bool)
    ensures
        call_bytes(call, last, cbit).len() == 7,
        call_bytes(call, last, cbit)[6] & 1 == (if last { 1u8 } else { 0u8 }),
{
    let ssid = call_ssid(call);
    let l: u8 = if last { 1u8 } else { 0u8 };
    let c: u8 = if cbit { 0x80u8 } else { 0u8 };
    assert((0x60u8 | ((ssid & 0x0F) << 1u8) | l | c) & 1 == l) by (bit_vector)
        requires
            l == 0 || l == 1,
            c == 0 || c == 0x80,
    ;
}

proof fn lemma_path_bytes(path: Seq<&str>)
    ensures
        path_bytes(path).len() == 7 * path.len(),
        forall|k: int| 0 <= k < path.len() ==> #[trigger] path_bytes(path)[7 * k + 6] & 1 == 0,
    decreases path.len(),
{
    if path.len() > 0 {
        let d = path.drop_last();
        lemma_path_bytes(d);
        lemma_call_bytes(path.last()@, false, false);
        let pb = path_bytes(path);
        let cb = call_bytes(path.last()@, false, false);
        assert(pb == path_bytes(d) + cb);
        assert forall|k: int| 0 <= k < path.len() implies #[trigger] path_bytes(path)[7 * k + 6] & 1 == 0 by {
            if k < d.len() {
                assert(path_bytes(d)[7 * k + 6] & 1 == 0);
                assert(path_bytes(path)[7 * k + 6] == path_bytes(d)[7 * k + 6]);
            } else {
                assert(k == d.len());
                assert(7 * k + 6 - path_bytes(d).len() == 6);
                assert(pb[7 * k + 6] == cb[6]);
            }
        }
    }
}

/// The layout of an AX.25 UI frame from [`frame_bytes`]: `2 + n` address
/// fields of 7 bytes (n = path length), of which only the last has the
/// end-of-address bit set; then control 0x03 and PID 0xF0, the info bytes,
/// and the FCS (low byte first), which is the CRC of everything before it.
pub proof fn lemma_frame_layout(src: Seq<char>, dest: Seq<char>, path: Seq<&str>, info: &str)
    ensures
        ({
            let f = spec_frame(src, dest, path, info);
            let n = path.len();
            let h: int = 7 * (2 + n) as int;
            let l = f.len();
            &&& l == h + 4 + info.spec_bytes().len()
            &&& f[h] == 0x03 && f[h + 1] == 0xF0
            &&& f.subrange(h + 2, l - 2) == info.spec_bytes()
            &&& (f[l - 2] as u16 | ((f[l - 1] as u16) << 8u16)) == spec_crc_x25(f.take(l - 2))
            &&& forall|k: int| 0 <= k < 2 + n ==> ((#[trigger] f[7 * k + 6] & 1 == 1) <==> k == 1 + n)
        }),
{
    let f = spec_frame(src, dest, path, info);
    let n = path.len();
    let h: int = 7 * (2 + n) as int;
    let body = frame_body(src, dest, path, info);
    let pf = path_field(path);
    lemma_call_bytes(dest, false, true);
    lemma_call_bytes(src, n == 0, false);
    if n > 0 {
        lemma_path_bytes(path.drop_last());
        lemma_call_bytes(path.last()@, true, false);
    }
    assert(pf.len() == 7 * n);
    let ib = info.spec_bytes();
    assert(body.len() == h + 2 + ib.len());
    assert(f.take(f.len() - 2) == body);
    assert(f[h] == 0x03 && f[h + 1] == 0xF0);
    assert(f.subrange(h + 2, f.len() - 2) == ib);
    let fcs = spec_crc_x25(body);
    assert(((((fcs & 0xFF) as u8) as u16) | ((((fcs >> 8u16) as u8) as u16) << 8u16)) == fcs) by (bit_vector);
    assert forall|k: int| 0 <= k < 2 + n implies ((#[trigger] f[7 * k + 6] & 1 == 1) <==> k == 1 + n) by {
        if k == 0 {
            assert(f[6] == call_bytes(dest, false, true)[6]);
        } else if k == 1 {
            assert(f[13] == call_bytes(src, n == 0, false)[6]);
        } else if k < 1 + n {
            assert(f[7 * k + 6] == pf[7 * (k - 2) + 6]);
            assert(pf[7 * (k - 2) + 6] == path_bytes(path.drop_last())[7 * (k - 2) + 6]);
        } else {
            assert(f[7 * k + 6] == pf[7 * (k - 2) + 6]);
            assert(pf[7 * (k - 2) + 6] == call_bytes(path.last()@, true, false)[6]);
        }
    }
}

/// Frame bytes: DEST SRC [PATH…] 0x03 0xF0 INFO FCS(lo,hi).
pub fn frame_bytes(src: &str, dest: &str, path: &[&str], info: &str) -> (f: Vec<u8>)
    ensures
        f@ == spec_frame(src@, dest@, path@, info),
{
    let mut f: Vec<u8> = Vec::new();
    push_call(&mut f, dest, false, true);
    push_call(&mut f, src, path.len() == 0, false);
    let ghost head = f@;
    let mut i: usize = 0;
    while i < path.len()
        invariant
            i <= path@.len(),
            f@ == head + (if i == path@.len() && i > 0 {
                path_field(path@)
            } else {
                path_bytes(path@.take(i as int))
            }),
        decreases path.len() - i,
    {
        assert(path@.take(i + 1).drop_last() == path@.take(i as int));
        assert(path@.take(i + 1).last() == path@[i as int]);
        push_call(&mut f, path[i], i + 1 == path.len(), false);
        if i + 1 == path.len() {
            assert(path@.take(i + 1) == path@);
        }
        i += 1;
    }
    if path.len() == 0 {
        assert(path_bytes(path@.take(0)) == Seq::<u8>::empty());
    }
    assert(f@ == head + path_field(path@));
    f.push(0x03);
    f.push(0xF0);
    let bs = info.as_bytes();
    let mut j: usize = 0;
    let ghost mid = f@;
    while j < bs.len()
        invariant
            j <= bs@.len(),
            f@ == mid + bs@.take(j as int),
        decreases bs.len() - j,
    {
        f.push(bs[j]);
        j += 1;
    }
    assert(bs@.take(bs@.len() as int) == bs@);
    assert(f@ == frame_body(src@, dest@, path@, info));
    let fcs = crc_x25(f.as_slice());
    f.push((fcs & 0xFF) as u8);
    f.push((fcs >> 8) as u8);
    f
}

// ------------------------------------------------------------------- HDLC

/// The HDLC flag 01111110 (sent LSB first as written).
pub open spec fn flag_bits() -> Seq<bool> {
    seq![false, true, true, true, true, true, true, false]
}

pub open spec fn flags(n: nat) -> Seq<bool>
    decreases n,
{
    if n == 0 {
        seq![]
    } else {
        flags((n - 1) as nat) + flag_bits()
    }
}

/// Frame bytes as bits, each byte LSB first.
pub open spec fn byte_bits(bytes: Seq<u8>) -> Seq<bool>
    decreases bytes.len(),
{
    if bytes.len() == 0 {
        seq![]
    } else {
        byte_bits(bytes.drop_last()) + Seq::new(8, |i: int| (bytes.last() >> (i as u8)) & 1 == 1)
    }
}

/// Bit stuffing as a left fold: output so far and the current run of 1s.
pub open spec fn stuff(bits: Seq<bool>) -> (Seq<bool>, nat)
    decreases bits.len(),
{
    if bits.len() == 0 {
        (seq![], 0)
    } else {
        let (o, n) = stuff(bits.drop_last());
        if bits.last() {
            if n + 1 == 5 {
                (o + seq![true, false], 0)
            } else {
                (o.push(true), n + 1)
            }
        } else {
            (o.push(false), 0)
        }
    }
}

/// No six consecutive 1s anywhere in `o`.
pub open spec fn no_run6(o: Seq<bool>) -> bool {
    forall|i: int|
        5 <= i < o.len() ==> !(o[i - 5] && o[i - 4] && o[i - 3] && o[i - 2] && o[i - 1] && #[trigger] o[i])
}

/// Shape of the stuffer's output: the trailing run of 1s is exactly the
/// counter, it is below five, and no run of six exists.
pub open spec fn stuff_inv(o: Seq<bool>, n: nat) -> bool {
    &&& n < 5
    &&& n <= o.len()
    &&& forall|j: int| o.len() - n <= j < o.len() ==> #[trigger] o[j]
    &&& o.len() > n ==> !o[o.len() - n - 1]
    &&& no_run6(o)
}

/// The stuffed body of a frame never holds six consecutive 1s.
pub proof fn lemma_stuff_no_run6(bits: Seq<bool>)
    ensures
        stuff_inv(stuff(bits).0, stuff(bits).1),
        no_run6(stuff(bits).0),
    decreases bits.len(),
{
    if bits.len() > 0 {
        lemma_stuff_no_run6(bits.drop_last());
        let (o, n) = stuff(bits.drop_last());
        let (o2, n2) = stuff(bits);
        if bits.last() {
            if n + 1 == 5 {
                let o1 = o.push(true);
                assert(o2 == o1.push(false));
                assert forall|i: int| 5 <= i < o2.len() implies !(o2[i - 5] && o2[i - 4] && o2[i
                    - 3] && o2[i - 2] && o2[i - 1] && #[trigger] o2[i]) by {
                    if i == o2.len() - 1 {
                        assert(!o2[i]);
                    } else if i == o2.len() - 2 {
                        assert(o.len() >= 4);
                        if o.len() > 4 {
                            assert(!o[o.len() - 5]);
                            assert(o2[i - 5] == o[o.len() - 5]);
                        }
                    } else {
                        assert(o2[i] == o[i]);
                        assert(o2[i - 5] == o[i - 5]);
                        assert(o2[i - 4] == o[i - 4]);
                        assert(o2[i - 3] == o[i - 3]);
                        assert(o2[i - 2] == o[i - 2]);
                        assert(o2[i - 1] == o[i - 1]);
                    }
                }
            } else {
                assert forall|i: int| 5 <= i < o2.len() implies !(o2[i - 5] && o2[i - 4] && o2[i
                    - 3] && o2[i - 2] && o2[i - 1] && #[trigger] o2[i]) by {
                    if i == o2.len() - 1 {
                        if o.len() > n {
                            assert(!o[o.len() - n - 1]);
                            assert(o2[o.len() - n - 1] == o[o.len() - n - 1]);
                        }
                    } else {
                        assert(o2[i] == o[i]);
                        assert(o2[i - 5] == o[i - 5]);
                        assert(o2[i - 4] == o[i - 4]);
                        assert(o2[i - 3] == o[i - 3]);
                        assert(o2[i - 2] == o[i - 2]);
                        assert(o2[i - 1] == o[i - 1]);
                    }
                }
                assert forall|j: int| o2.len() - n2 <= j < o2.len() implies #[trigger] o2[j] by {
                    if j < o.len() {
                        assert(o2[j] == o[j]);
                    }
                }
                if o2.len() > n2 {
                    assert(o2[o2.len() - n2 - 1] == o[o.len() - n - 1]);
                }
            }
        } else {
            assert forall|i: int| 5 <= i < o2.len() implies !(o2[i - 5] && o2[i - 4] && o2[i - 3]
                && o2[i - 2] && o2[i - 1] && #[trigger] o2[i]) by {
                if i < o2.len() - 1 {
                    assert(o2[i] == o[i]);
                    assert(o2[i - 5] == o[i - 5]);
                    assert(o2[i - 4] == o[i - 4]);
                    assert(o2[i - 3] == o[i - 3]);
                    assert(o2[i - 2] == o[i - 2]);
                    assert(o2[i - 1] == o[i - 1]);
                }
            }
        }
    }
}

/// The receiving side of bit stuffing, as a left fold: a 0 that follows
/// five 1s is dropped. Gives the bits and the current run of 1s.
pub open spec fn destuff(o: Seq<bool>) -> (Seq<bool>, nat)
    decreases o.len(),
{
    if o.len() == 0 {
        (seq![], 0)
    } else {
        let (b, n) = destuff(o.drop_last());
        if n == 5 && !o.last() {
            (b, 0)
        } else if o.last() {
            (b.push(true), n + 1)
        } else {
            (b.push(false), 0)
        }
    }
}

/// Destuffing gives back exactly the bits that were stuffed (so a
/// receiver recovers a frame's bits between the flags).
pub proof fn lemma_destuff_stuff(bits: Seq<bool>)
    ensures
        destuff(stuff(bits).0) == (bits, stuff(bits).1),
    decreases bits.len(),
{
    if bits.len() > 0 {
        let d = bits.drop_last();
        lemma_destuff_stuff(d);
        lemma_stuff_no_run6(d);
        let (o, n) = stuff(d);
        if bits.last() && n + 1 == 5 {
            let o1 = o.push(true);
            let o2 = o1.push(false);
            assert(o + seq![true, false] =~= o2);
            assert(o2.drop_last() =~= o1);
            assert(o1.drop_last() =~= o);
            assert(destuff(o1) == (d.push(true), 5nat));
            assert(destuff(o2) == (d.push(true), 0nat));
        } else if bits.last() {
            assert(o.push(true).drop_last() =~= o);
        } else {
            assert(o.push(false).drop_last() =~= o);
        }
        assert(d.push(bits.last()) =~= bits);
    }
}

pub open spec fn spec_hdlc(frame: Seq<u8>, lead: nat, tail: nat) -> Seq<bool> {
    flags(lead) + stuff(byte_bits(frame)).0 + flags(tail)
}

/// Eight bits, LSB first, packed back into a byte.
pub open spec fn bits_to_byte(s: Seq<bool>) -> u8 {
    (if s[0] { 1u8 } else { 0u8 }) | (if s[1] { 2u8 } else { 0u8 }) | (if s[2] { 4u8 } else { 0u8 })
        | (if s[3] { 8u8 } else { 0u8 }) | (if s[4] { 16u8 } else { 0u8 }) | (if s[5] { 32u8 } else {
        0u8
    }) | (if s[6] { 64u8 } else { 0u8 }) | (if s[7] { 128u8 } else { 0u8 })
}

/// Bits packed 8 per byte, LSB first (a trailing partial byte is dropped).
pub open spec fn pack_bits(bits: Seq<bool>) -> Seq<u8>
    decreases bits.len(),
{
    if bits.len() < 8 {
        seq![]
    } else {
        pack_bits(bits.subrange(0, bits.len() - 8)).push(bits_to_byte(bits.subrange(bits.len() - 8, bits.len() as int)))
    }
}

proof fn lemma_byte_bits_len(bytes: Seq<u8>)
    ensures
        byte_bits(bytes).len() == 8 * bytes.len(),
    decreases bytes.len(),
{
    if bytes.len() > 0 {
        lemma_byte_bits_len(bytes.drop_last());
    }
}

proof fn lemma_flags_len(n: nat)
    ensures
        flags(n).len() == 8 * n,
    decreases n,
{
    if n > 0 {
        lemma_flags_len((n - 1) as nat);
    }
}

proof fn lemma_byte_roundtrip(x: u8)
    ensures
        bits_to_byte(Seq::new(8, |i: int| (x >> (i as u8)) & 1 == 1)) == x,
{
    let s = Seq::new(8, |i: int| (x >> (i as u8)) & 1 == 1);
    assert(s[0] == ((x >> 0u8) & 1 == 1));
    assert(s[1] == ((x >> 1u8) & 1 == 1));
    assert(s[2] == ((x >> 2u8) & 1 == 1));
    assert(s[3] == ((x >> 3u8) & 1 == 1));
    assert(s[4] == ((x >> 4u8) & 1 == 1));
    assert(s[5] == ((x >> 5u8) & 1 == 1));
    assert(s[6] == ((x >> 6u8) & 1 == 1));
    assert(s[7] == ((x >> 7u8) & 1 == 1));
    assert(((if (x >> 0u8) & 1 == 1 { 1u8 } else { 0u8 }) | (if (x >> 1u8) & 1 == 1 { 2u8 } else {
        0u8
    }) | (if (x >> 2u8) & 1 == 1 { 4u8 } else { 0u8 }) | (if (x >> 3u8) & 1 == 1 { 8u8 } else {
        0u8
    }) | (if (x >> 4u8) & 1 == 1 { 16u8 } else { 0u8 }) | (if (x >> 5u8) & 1 == 1 { 32u8 } else {
        0u8
    }) | (if (x >> 6u8) & 1 == 1 { 64u8 } else { 0u8 }) | (if (x >> 7u8) & 1 == 1 { 128u8 } else {
        0u8
    })) == x) by (bit_vector);
}

/// Packing a frame's bits (LSB first) gives the frame back.
pub proof fn lemma_pack_byte_bits(bytes: Seq<u8>)
    ensures
        pack_bits(byte_bits(bytes)) == bytes,
    decreases bytes.len(),
{
    if bytes.len() > 0 {
        let d = bytes.drop_last();
        let b = byte_bits(bytes);
        lemma_byte_bits_len(d);
        lemma_pack_byte_bits(d);
        let last = Seq::new(8, |i: int| (bytes.last() >> (i as u8)) & 1 == 1);
        assert(b == byte_bits(d) + last);
        assert(b.subrange(0, b.len() - 8) == byte_bits(d));
        assert(b.subrange(b.len() - 8, b.len() as int) == last);
        lemma_byte_roundtrip(bytes.last());
        assert(d.push(bytes.last()) == bytes);
    } else {
        assert(byte_bits(bytes) == Seq::<bool>::empty());
    }
}

/// What a receiver sees of [`hdlc_bits`]: `lead` flags, then the stuffed
/// frame, which has no run of six 1s and destuffs and packs (LSB first)
/// back to the frame, then `tail` flags.
pub proof fn lemma_hdlc_layout(frame: Seq<u8>, lead: nat, tail: nat)
    ensures
        ({
            let b = spec_hdlc(frame, lead, tail);
            let inner = b.subrange(8 * lead as int, b.len() - 8 * tail);
            &&& b.len() >= 8 * lead + 8 * tail
            &&& b.take(8 * lead as int) == flags(lead)
            &&& b.skip(b.len() - 8 * tail) == flags(tail)
            &&& no_run6(inner)
            &&& pack_bits(destuff(inner).0) == frame
        }),
{
    let b = spec_hdlc(frame, lead, tail);
    let st = stuff(byte_bits(frame)).0;
    lemma_flags_len(lead);
    lemma_flags_len(tail);
    assert(b == flags(lead) + st + flags(tail));
    assert(b.take(8 * lead as int) == flags(lead));
    assert(b.skip(b.len() - 8 * tail) == flags(tail));
    assert(b.subrange(8 * lead as int, b.len() - 8 * tail) == st);
    lemma_stuff_no_run6(byte_bits(frame));
    lemma_destuff_stuff(byte_bits(frame));
    lemma_pack_byte_bits(frame);
}

fn push_flags(bits: &mut Vec<bool>, n: usize)
    ensures
        final(bits)@ == old(bits)@ + flags(n as nat),
{
    let mut i: usize = 0;
    while i < n
        invariant
            i <= n,
            bits@ == old(bits)@ + flags(i as nat),
        decreases n - i,
    {
        bits.push(false);
        bits.push(true);
        bits.push(true);
        bits.push(true);
        bits.push(true);
        bits.push(true);
        bits.push(true);
        bits.push(false);
        i += 1;
    }
}

/// HDLC air bits: lead-in flags, stuffed frame (bytes LSB-first), tail flags.
pub fn hdlc_bits(frame: &[u8], lead_flags: usize, tail_flags: usize) -> (bits: Vec<bool>)
    ensures
        bits@ == spec_hdlc(frame@, lead_flags as nat, tail_flags as nat),
        no_run6(stuff(byte_bits(frame@)).0),
{
    proof {
        lemma_stuff_no_run6(byte_bits(frame@));
    }
    let mut bits: Vec<bool> = Vec::new();
    push_flags(&mut bits, lead_flags);
    let ghost head = bits@;
    let mut ones: u32 = 0;
    let mut i: usize = 0;
    while i < frame.len()
        invariant
            i <= frame@.len(),
            bits@ == head + stuff(byte_bits(frame@.take(i as int))).0,
            ones as nat == stuff(byte_bits(frame@.take(i as int))).1,
            ones < 5,
        decreases frame.len() - i,
    {
        let byte = frame[i];
        let ghost before = byte_bits(frame@.take(i as int));
        let mut k: u8 = 0;
        while k < 8
            invariant
                k <= 8,
                bits@ == head + stuff(before + Seq::new(k as nat, |j: int| (byte >> (j as u8)) & 1 == 1)).0,
                ones as nat == stuff(before + Seq::new(k as nat, |j: int| (byte >> (j as u8)) & 1 == 1)).1,
                ones < 5,
            decreases 8 - k,
        {
            let b = byte >> k & 1 == 1;
            let ghost cur = before + Seq::new(k as nat, |j: int| (byte >> (j as u8)) & 1 == 1);
            let ghost nxt = before + Seq::new((k + 1) as nat, |j: int| (byte >> (j as u8)) & 1 == 1);
            assert(nxt.drop_last() == cur);
            assert(nxt.last() == b);
            bits.push(b);
            if b {
                ones += 1;
                if ones == 5 {
                    bits.push(false);
                    ones = 0;
                }
            } else {
                ones = 0;
            }
            k += 1;
        }
        assert(frame@.take(i + 1).drop_last() == frame@.take(i as int));
        assert(before + Seq::new(8, |j: int| (byte >> (j as u8)) & 1 == 1) == byte_bits(frame@.take(i + 1)));
        i += 1;
    }
    assert(frame@.take(frame@.len() as int) == frame@);
    push_flags(&mut bits, tail_flags);
    bits
}

/// NRZI levels: a 0 toggles the tone, a 1 holds it (the line starts on mark).
pub open spec fn spec_nrzi(bits: Seq<bool>) -> Seq<bool>
    decreases bits.len(),
{
    if bits.len() == 0 {
        seq![]
    } else {
        let o = spec_nrzi(bits.drop_last());
        let prev = if o.len() == 0 { true } else { o.last() };
        o.push(if bits.last() { prev } else { !prev })
    }
}

/// NRZI encode: 0 = toggle, 1 = hold. Returns tone levels (true = mark).
pub fn nrzi(bits: &[bool]) -> (out: Vec<bool>)
    ensures
        out@ == spec_nrzi(bits@),
        out@.len() == bits@.len(),
        forall|i: int|
            0 <= i < bits@.len() ==> (#[trigger] bits@[i] <==> out@[i] == (if i == 0 {
                true
            } else {
                out@[i - 1]
            })),
{
    let mut level = true;
    let mut out: Vec<bool> = Vec::new();
    let mut i: usize = 0;
    while i < bits.len()
        invariant
            i <= bits@.len(),
            out@ == spec_nrzi(bits@.take(i as int)),
            out@.len() == i,
            level == (if i == 0 { true } else { out@[i - 1] }),
            forall|j: int|
                0 <= j < i ==> (#[trigger] bits@[j] <==> out@[j] == (if j == 0 {
                    true
                } else {
                    out@[j - 1]
                })),
        decreases bits.len() - i,
    {
        assert(bits@.take(i + 1).drop_last() == bits@.take(i as int));
        if !bits[i] {
            level = !level;
        }
        out.push(level);
        i += 1;
    }
    assert(bits@.take(bits@.len() as int) == bits@);
    out
}

} // verus!
