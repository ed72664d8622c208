//! Recording helpers that need no file: human-readable sizes, and the
//! bytes of a mono 16-bit WAV file (header, RIFF INFO comment) written and
//! read back.

use vstd::prelude::*;
use crate::text::{chars_of, dec_chars, dec_str, digit_char, digit_of, push_str, string_of, strip_end, strip_end_of, trim, trim_of};
use vstd::utf8::{decode_utf8, encode_utf8, valid_utf8};
use crate::freq::{fmt_mhz, spec_fmt_mhz};
use crate::modes::{mode_def, spec_mode_def, ModeId};

verus! {

/// `n / d` rounded to the nearest integer, ties to even.
pub open spec fn round_half_even(n: nat, d: nat) -> nat {
    let q = n / d;
    let r = n % d;
    if 2 * r > d {
        q + 1
    } else if 2 * r < d {
        q
    } else if q % 2 == 0 {
        q
    } else {
        q + 1
    }
}

/// Tenths written with one decimal.
pub open spec fn one_decimal(t: nat) -> Seq<char> {
    dec_str(t / 10) + seq!['.', digit_char(t % 10)]
}

/// Human-readable byte size: GB and MB with one decimal, kB whole, else
/// bytes; binary units, halves rounded to even.
pub open spec fn spec_fmt_size(bytes: u64) -> Seq<char> {
    if bytes >= 0x4000_0000 {
        one_decimal(round_half_even((bytes * 10) as nat, 0x4000_0000)) + " GB"@
    } else if bytes >= 0x10_0000 {
        one_decimal(round_half_even((bytes * 10) as nat, 0x10_0000)) + " MB"@
    } else if bytes >= 0x400 {
        dec_str(round_half_even(bytes as nat, 0x400)) + " kB"@
    } else {
        dec_str(bytes as nat) + " B"@
    }
}

fn round_half_even_of(n: u128, d: u128) -> (r: u128)
    requires
        0 < d < 0x1_0000_0000,
        n < 0x1_0000_0000_0000_0000_0000,
    ensures
        r == round_half_even(n as nat, d as nat),
{
    let q = n / d;
    let r = n % d;
    if 2 * r > d {
        q + 1
    } else if 2 * r < d {
        q
    } else if q % 2 == 0 {
        q
    } else {
        q + 1
    }
}

pub fn fmt_size(bytes: u64) -> (s: String)
    ensures
        s@ == spec_fmt_size(bytes),
{
    let mut out: Vec<char>;
    if bytes >= 0x4000_0000 || bytes >= 0x10_0000 {
        let d: u128 = if bytes >= 0x4000_0000 {
            0x4000_0000
        } else {
            0x10_0000
        };
        let t = round_half_even_of(bytes as u128 * 10, d);
        assert(t <= bytes * 10 + 1) by (nonlinear_arith)
            requires
                t == round_half_even((bytes * 10) as nat, d as nat),
                d >= 1,
        ;
        out = dec_chars((t / 10) as u64);
        out.push('.');
        out.push(digit_of((t % 10) as u64));
        push_str(&mut out, if bytes >= 0x4000_0000 {
            " GB"
        } else {
            " MB"
        });
    } else if bytes >= 0x400 {
        let t = round_half_even_of(bytes as u128, 0x400);
        assert(t <= bytes as int + 1) by (nonlinear_arith)
            requires
                t == round_half_even(bytes as nat, 0x400),
        ;
        out = dec_chars(t as u64);
        push_str(&mut out, " kB");
    } else {
        out = dec_chars(bytes);
        push_str(&mut out, " B");
    }
    string_of(&out)
}


// ----------------------------------------------------------- file names

/// The name a new recording gets, `stamp` being the local time as
/// `YYYYmmdd-HHMMSS`: `deck_{mode key}_{MHz}_{stamp}.wav` for audio; raw IQ
/// captures of the waterfall are `deck_iq_{MHz}_{stamp}`, the receiver
/// adding the sample format's extension.
pub open spec fn spec_recording_name(mode: ModeId, freq_hz: u64, stamp: Seq<char>) -> Seq<char> {
    if mode == ModeId::Waterfall {
        "deck_iq_"@ + spec_fmt_mhz(freq_hz) + "_"@ + stamp
    } else {
        "deck_"@ + spec_mode_def(mode).key@ + "_"@ + spec_fmt_mhz(freq_hz) + "_"@ + stamp + ".wav"@
    }
}

pub fn recording_name(mode: ModeId, freq_hz: u64, stamp: &str) -> (r: String)
    ensures
        r@ == spec_recording_name(mode, freq_hz, stamp@),
{
    let mut out: Vec<char> = Vec::new();
    let mhz = fmt_mhz(freq_hz);
    if mode == ModeId::Waterfall {
        push_str(&mut out, "deck_iq_");
        push_str(&mut out, mhz.as_str());
        push_str(&mut out, "_");
        push_str(&mut out, stamp);
    } else {
        push_str(&mut out, "deck_");
        push_str(&mut out, mode_def(mode).key);
        push_str(&mut out, "_");
        push_str(&mut out, mhz.as_str());
        push_str(&mut out, "_");
        push_str(&mut out, stamp);
        push_str(&mut out, ".wav");
    }
    string_of(&out)
}

// ------------------------------------------------------------ WAV bytes

/// `x` as four little-endian bytes.
pub open spec fn le32(x: u32) -> Seq<u8> {
    seq![(x % 256) as u8, ((x / 256) % 256) as u8, ((x / 65536) % 256) as u8, (x / 16777216) as u8]
}

/// `x` as two little-endian bytes.
pub open spec fn le16(x: u16) -> Seq<u8> {
    seq![(x % 256) as u8, (x / 256) as u8]
}

/// The little-endian 32-bit number at byte `i` of `d`.
pub open spec fn read_le32(d: Seq<u8>, i: int) -> int {
    d[i] + 256 * d[i + 1] + 65536 * d[i + 2] + 16777216 * d[i + 3]
}

pub open spec fn riff_tag() -> Seq<u8> {
    seq![0x52u8, 0x49, 0x46, 0x46]
}

pub open spec fn wave_tag() -> Seq<u8> {
    seq![0x57u8, 0x41, 0x56, 0x45]
}

pub open spec fn fmt_tag() -> Seq<u8> {
    seq![0x66u8, 0x6d, 0x74, 0x20]
}

pub open spec fn data_tag() -> Seq<u8> {
    seq![0x64u8, 0x61, 0x74, 0x61]
}

pub open spec fn list_tag() -> Seq<u8> {
    seq![0x4cu8, 0x49, 0x53, 0x54]
}

pub open spec fn info_tag() -> Seq<u8> {
    seq![0x49u8, 0x4e, 0x46, 0x4f]
}

pub open spec fn icmt_tag() -> Seq<u8> {
    seq![0x49u8, 0x43, 0x4d, 0x54]
}

/// The 44-byte header of a PCM, mono, 16-bit WAV at `rate` samples per
/// second, with RIFF size `riff` and `data` bytes of samples.
pub open spec fn spec_wav_header(rate: u32, riff: u32, data: u32) -> Seq<u8> {
    riff_tag() + le32(riff) + wave_tag() + fmt_tag() + le32(16) + le16(1) + le16(1) + le32(rate)
        + le32((rate * 2) as u32) + le16(2) + le16(16) + data_tag() + le32(data)
}

/// Comment text as stored: NUL-terminated, padded to an even length.
pub open spec fn stored_text(c: Seq<u8>) -> Seq<u8> {
    let t = c.push(0u8);
    if t.len() % 2 == 1 {
        t.push(0u8)
    } else {
        t
    }
}

/// A `LIST`/`INFO` chunk holding the comment as `ICMT`; nothing for an
/// empty comment.
pub open spec fn spec_info_chunk(c: Seq<u8>) -> Seq<u8> {
    if c.len() == 0 {
        seq![]
    } else {
        let t = stored_text(c);
        list_tag() + le32((12 + t.len()) as u32) + info_tag() + icmt_tag() + le32(t.len() as u32) + t
    }
}

fn push_le32(out: &mut Vec<u8>, x: u32)
    ensures
        final(out)@ == old(out)@ + le32(x),
{
    out.push((x % 256) as u8);
    out.push(((x / 256) % 256) as u8);
    out.push(((x / 65536) % 256) as u8);
    out.push((x / 16777216) as u8);
    assert(out@ =~= old(out)@ + le32(x));
}

fn push_le16(out: &mut Vec<u8>, x: u16)
    ensures
        final(out)@ == old(out)@ + le16(x),
{
    out.push((x % 256) as u8);
    out.push((x / 256) as u8);
    assert(out@ =~= old(out)@ + le16(x));
}

fn push_tag(out: &mut Vec<u8>, a: u8, b: u8, c: u8, d: u8)
    ensures
        final(out)@ == old(out)@ + seq![a, b, c, d],
{
    out.push(a);
    out.push(b);
    out.push(c);
    out.push(d);
    assert(out@ =~= old(out)@ + seq![a, b, c, d]);
}

/// The WAV header for `rate` with the given RIFF and data sizes (both
/// zero while recording, filled in when the file is finished).
pub fn wav_header(rate: u32, riff: u32, data: u32) -> (h: Vec<u8>)
    requires
        rate <= 0x7fff_ffff,
    ensures
        h@ == spec_wav_header(rate, riff, data),
        h@.len() == 44,
{
    let mut h: Vec<u8> = Vec::new();
    push_tag(&mut h, 0x52, 0x49, 0x46, 0x46);
    push_le32(&mut h, riff);
    push_tag(&mut h, 0x57, 0x41, 0x56, 0x45);
    push_tag(&mut h, 0x66, 0x6d, 0x74, 0x20);
    push_le32(&mut h, 16);
    push_le16(&mut h, 1);
    push_le16(&mut h, 1);
    push_le32(&mut h, rate);
    push_le32(&mut h, rate * 2);
    push_le16(&mut h, 2);
    push_le16(&mut h, 16);
    push_tag(&mut h, 0x64, 0x61, 0x74, 0x61);
    push_le32(&mut h, data);
    h
}

/// The header of a finished file: `data_bytes` of samples followed by a
/// trailer of `trailer_len` bytes.
pub fn finished_header(rate: u32, data_bytes: u32, trailer_len: u32) -> (h: Vec<u8>)
    requires
        rate <= 0x7fff_ffff,
        36 + data_bytes + trailer_len <= u32::MAX,
    ensures
        h@ == spec_wav_header(rate, (36 + data_bytes + trailer_len) as u32, data_bytes),
{
    wav_header(rate, 36 + data_bytes + trailer_len, data_bytes)
}

/// The `LIST`/`INFO`/`ICMT` chunk that tags a recording with `comment`
/// (empty when there is no comment).
pub fn info_chunk(comment: &str) -> (r: Vec<u8>)
    requires
        encode_utf8(comment@).len() + 14 <= u32::MAX,
    ensures
        r@ == spec_info_chunk(encode_utf8(comment@)),
{
    let b = comment.as_bytes();
    let mut r: Vec<u8> = Vec::new();
    if b.len() == 0 {
        return r;
    }
    let mut text: Vec<u8> = Vec::new();
    let mut i: usize = 0;
    while i < b.len()
        invariant
            i <= b@.len(),
            text@ == b@.take(i as int),
        decreases b.len() - i,
    {
        text.push(b[i]);
        i += 1;
    }
    assert(b@.take(b@.len() as int) == b@);
    text.push(0);
    if text.len() % 2 == 1 {
        text.push(0);
    }
    let n = text.len() as u32;
    push_tag(&mut r, 0x4c, 0x49, 0x53, 0x54);
    push_le32(&mut r, 12 + n);
    push_tag(&mut r, 0x49, 0x4e, 0x46, 0x4f);
    push_tag(&mut r, 0x49, 0x43, 0x4d, 0x54);
    push_le32(&mut r, n);
    let ghost before = r@;
    let mut k: usize = 0;
    while k < text.len()
        invariant
            k <= text@.len(),
            r@ == before + text@.take(k as int),
        decreases text.len() - k,
    {
        r.push(text[k]);
        k += 1;
    }
    assert(text@.take(text@.len() as int) == text@);
    r
}

/// `n - i` when `i` is short of `n`, else zero.
pub open spec fn span(n: int, i: int) -> nat {
    if i < n {
        (n - i) as nat
    } else {
        0
    }
}

pub open spec fn min_int(a: int, b: int) -> int {
    if a <= b {
        a
    } else {
        b
    }
}

/// The body of the first `ICMT` sub-chunk among those from byte `j` up to
/// `end` (cut short at the end of `d`).
pub open spec fn find_icmt(d: Seq<u8>, j: int, end: int) -> Option<Seq<u8>>
    decreases span(end, j),
{
    if j < 0 || j + 8 > end || end > d.len() {
        None
    } else {
        let sz = read_le32(d, j + 4);
        if d.subrange(j, j + 4) == icmt_tag() {
            Some(d.subrange(j + 8, min_int(j + 8 + sz, d.len() as int)))
        } else {
            find_icmt(d, j + 8 + sz + sz % 2, end)
        }
    }
}

/// Walking the chunks from byte `i`: the body of the first `ICMT` inside
/// a `LIST` chunk of type `INFO`.
pub open spec fn find_info(d: Seq<u8>, i: int) -> Option<Seq<u8>>
    decreases span(d.len() as int, i),
{
    if i < 0 || i + 8 > d.len() {
        None
    } else {
        let sz = read_le32(d, i + 4);
        let body = i + 8;
        let here = if d.subrange(i, i + 4) == list_tag() && body + 4 <= d.len() && d.subrange(
            body,
            body + 4,
        ) == info_tag() {
            find_icmt(d, body + 4, min_int(body + sz, d.len() as int))
        } else {
            None
        };
        if here is Some {
            here
        } else {
            find_info(d, body + sz + sz % 2)
        }
    }
}

/// The stored comment bytes of a RIFF/WAVE file, if it has one.
pub open spec fn icmt_body(d: Seq<u8>) -> Option<Seq<u8>> {
    if d.len() >= 12 && d.subrange(0, 4) == riff_tag() && d.subrange(8, 12) == wave_tag() {
        find_info(d, 12)
    } else {
        None
    }
}

/// A stored comment as shown: trailing NULs dropped, whitespace trimmed.
pub open spec fn comment_text(cs: Seq<char>) -> Seq<char> {
    trim(strip_end(cs, '\0'))
}

fn read32(d: &[u8], i: usize) -> (r: u32)
    requires
        i + 4 <= d@.len(),
    ensures
        r == read_le32(d@, i as int),
{
    d[i] as u32 + (d[i + 1] as u32) * 256 + (d[i + 2] as u32) * 65536 + (d[i + 3] as u32) * 16777216
}

fn tag_at(d: &[u8], i: usize, a: u8, b: u8, c: u8, e: u8) -> (r: bool)
    requires
        i + 4 <= d@.len(),
    ensures
        r == (d@.subrange(i as int, i + 4) == seq![a, b, c, e]),
{
    let r = d[i] == a && d[i + 1] == b && d[i + 2] == c && d[i + 3] == e;
    proof {
        let t = d@.subrange(i as int, i + 4);
        let w = seq![a, b, c, e];
        assert(t[0] == d@[i as int] && t[1] == d@[i + 1] && t[2] == d@[i + 2] && t[3] == d@[i + 3]);
        assert(w[0] == a && w[1] == b && w[2] == c && w[3] == e);
        if r {
            assert(t =~= w);
        }
    }
    r
}

fn find_icmt_at(d: &[u8], j0: usize, end: usize) -> (r: Option<(usize, usize)>)
    requires
        end <= d@.len(),
    ensures
        match r {
            None => find_icmt(d@, j0 as int, end as int) is None,
            Some((a, b)) => a <= b <= d@.len() && find_icmt(d@, j0 as int, end as int) == Some(
                d@.subrange(a as int, b as int),
            ),
        },
{
    let mut j = j0;
    while j <= end && end - j >= 8
        invariant
            end <= d@.len(),
            find_icmt(d@, j as int, end as int) == find_icmt(d@, j0 as int, end as int),
        decreases end - j,
    {
        let sz = read32(d, j + 4);
        if tag_at(d, j, 0x49, 0x43, 0x4d, 0x54) {
            let a = j + 8;
            let b = if sz as u64 >= (d.len() - a) as u64 {
                d.len()
            } else {
                a + sz as usize
            };
            return Some((a, b));
        }
        let step: u64 = 8 + sz as u64 + (sz % 2) as u64;
        if step > (end - j) as u64 {
            assert(find_icmt(d@, j + step, end as int) is None);
            return None;
        }
        j = j + step as usize;
    }
    None
}

fn find_info_at(d: &[u8]) -> (r: Option<(usize, usize)>)
    requires
        d@.len() >= 12,
    ensures
        match r {
            None => find_info(d@, 12) is None,
            Some((a, b)) => a <= b <= d@.len() && find_info(d@, 12) == Some(
                d@.subrange(a as int, b as int),
            ),
        },
{
    let n = d.len();
    let mut i: usize = 12;
    while i <= n && n - i >= 8
        invariant
            n == d@.len(),
            find_info(d@, i as int) == find_info(d@, 12),
        decreases n - i,
    {
        let sz = read32(d, i + 4);
        let body = i + 8;
        if tag_at(d, i, 0x4c, 0x49, 0x53, 0x54) && n - body >= 4 && tag_at(d, body, 0x49, 0x4e, 0x46, 0x4f) {
            let end = if sz as u64 >= (n - body) as u64 {
                n
            } else {
                body + sz as usize
            };
            match find_icmt_at(d, body + 4, end) {
                Some(x) => {
                    return Some(x);
                },
                None => {},
            }
        }
        let step: u64 = 8 + sz as u64 + (sz % 2) as u64;
        if step > (n - i) as u64 {
            assert(find_info(d@, i + step) is None);
            return None;
        }
        i = i + step as usize;
    }
    None
}

/// What `String::from_utf8_lossy` makes of some bytes: a function of the
/// bytes alone (each invalid sequence becomes U+FFFD).
pub uninterp spec fn lossy_text(b: Seq<u8>) -> Seq<char>;

/// `String::from_utf8_lossy(..).into_owned()`: the result is `lossy_text`
/// of the bytes, and bytes that are valid UTF-8 come back as the
/// characters they encode. How invalid bytes are replaced is named, not
/// spelled out.
#[verifier::external_body]
fn utf8_lossy(b: &Vec<u8>) -> (s: String)
    ensures
        s@ == lossy_text(b@),
        valid_utf8(b@) ==> s@ == decode_utf8(b@),
{
    String::from_utf8_lossy(b).into_owned()
}

/// The RIFF INFO comment (`ICMT`) of a WAV file's bytes: the first one in
/// a `LIST`/`INFO` chunk, trailing NULs and surrounding whitespace
/// removed; `None` when there is none or it is blank. The bytes are
/// decoded as `String::from_utf8_lossy` does.
pub fn wav_comment(d: &[u8]) -> (r: Option<String>)
    ensures
        match icmt_body(d@) {
            None => r is None,
            Some(b) => {
                &&& match r {
                    Some(s) => s@ == comment_text(lossy_text(b)),
                    None => comment_text(lossy_text(b)).len() == 0,
                }
                &&& valid_utf8(b) ==> lossy_text(b) == decode_utf8(b)
            },
        },
        r matches Some(s) ==> s@.len() > 0,
{
    if d.len() < 12 || !tag_at(d, 0, 0x52, 0x49, 0x46, 0x46) || !tag_at(d, 8, 0x57, 0x41, 0x56, 0x45) {
        return None;
    }
    match find_info_at(d) {
        None => None,
        Some((a, b)) => {
            let mut bytes: Vec<u8> = Vec::new();
            let mut k = a;
            while k < b
                invariant
                    a <= k <= b <= d@.len(),
                    bytes@ == d@.subrange(a as int, k as int),
                decreases b - k,
            {
                bytes.push(d[k]);
                k += 1;
            }
            let s = utf8_lossy(&bytes);
            comment_from_text(s.as_str())
        },
    }
}

/// A decoded comment as shown: trailing NULs dropped, whitespace trimmed,
/// `None` when nothing is left.
pub fn comment_from_text(s: &str) -> (r: Option<String>)
    ensures
        match r {
            Some(t) => t@ == comment_text(s@) && t@.len() > 0,
            None => comment_text(s@).len() == 0,
        },
{
    let mut cs = chars_of(s);
    strip_end_of(&mut cs, '\0');
    let t = trim_of(&cs);
    if t.len() == 0 {
        None
    } else {
        Some(string_of(&t))
    }
}

/// Sample rate and data size from a WAV header; `None` when there are
/// fewer than 44 bytes or they do not start with `RIFF`.
pub fn wav_fields(h: &[u8]) -> (r: Option<(u32, u32)>)
    ensures
        r == (if h@.len() >= 44 && h@.subrange(0, 4) == riff_tag() {
            Some((read_le32(h@, 24) as u32, read_le32(h@, 40) as u32))
        } else {
            None
        }),
{
    if h.len() < 44 || !tag_at(h, 0, 0x52, 0x49, 0x46, 0x46) {
        None
    } else {
        Some((read32(h, 24), read32(h, 40)))
    }
}

/// The bytes of a finished recording: header, sample bytes, then the
/// comment chunk.
pub open spec fn spec_wav_file(rate: u32, samples: Seq<u8>, comment: Seq<char>) -> Seq<u8> {
    let t = spec_info_chunk(encode_utf8(comment));
    spec_wav_header(rate, (36 + samples.len() + t.len()) as u32, samples.len() as u32) + samples + t
}

proof fn lemma_le32(x: u32)
    ensures
        le32(x).len() == 4,
        read_le32(le32(x), 0) == x,
{
    let b = le32(x);
    assert(b[0] == x % 256 && b[1] == (x / 256) % 256 && b[2] == (x / 65536) % 256 && b[3] == x
        / 16777216);
}

proof fn lemma_read_sub(d: Seq<u8>, k: int)
    requires
        0 <= k,
        k + 4 <= d.len(),
    ensures
        read_le32(d, k) == read_le32(d.subrange(k, k + 4), 0),
{
}

#[verifier::rlimit(40)]
#[verifier::spinoff_prover]
proof fn lemma_header_parts(rate: u32, riff: u32, data: u32)
    ensures
        ({
            let h = spec_wav_header(rate, riff, data);
            &&& h.len() == 44
            &&& h.subrange(0, 4) == riff_tag()
            &&& h.subrange(4, 8) == le32(riff)
            &&& h.subrange(8, 12) == wave_tag()
            &&& h.subrange(12, 16) == fmt_tag()
            &&& h.subrange(16, 20) == le32(16)
            &&& h.subrange(24, 28) == le32(rate)
            &&& h.subrange(36, 40) == data_tag()
            &&& h.subrange(40, 44) == le32(data)
        }),
{
    let h = spec_wav_header(rate, riff, data);
    assert(h.subrange(0, 4) =~= riff_tag());
    assert(h.subrange(4, 8) =~= le32(riff));
    assert(h.subrange(8, 12) =~= wave_tag());
    assert(h.subrange(12, 16) =~= fmt_tag());
    assert(h.subrange(16, 20) =~= le32(16));
    assert(h.subrange(24, 28) =~= le32(rate));
    assert(h.subrange(36, 40) =~= data_tag());
    assert(h.subrange(40, 44) =~= le32(data));
}

proof fn lemma_encode_concat(a: Seq<char>, b: Seq<char>)
    ensures
        encode_utf8(a + b) == encode_utf8(a) + encode_utf8(b),
    decreases a.len(),
{
    if a.len() == 0 {
        assert(a + b =~= b);
        assert(encode_utf8(a) == Seq::<u8>::empty());
        assert(encode_utf8(a) + encode_utf8(b) =~= encode_utf8(b));
    } else {
        assert((a + b).drop_first() =~= a.drop_first() + b);
        assert((a + b)[0] == a[0]);
        lemma_encode_concat(a.drop_first(), b);
        assert(encode_utf8(a + b) =~= encode_utf8(a) + encode_utf8(b));
    }
}

proof fn lemma_encode_nul()
    ensures
        encode_utf8(seq!['\0']) == seq![0u8],
{
    let z: u32 = 0;
    assert(z & 0x7F == 0) by (bit_vector)
        requires
            z == 0,
    ;
    assert(encode_utf8(Seq::<char>::empty()) == Seq::<u8>::empty());
    assert(seq!['\0'].drop_first() =~= Seq::<char>::empty());
    assert(encode_utf8(seq!['\0']) =~= seq![0u8]);
}

/// The stored text of a comment is the UTF-8 of the comment with one or
/// two NULs after it.
proof fn lemma_stored_text(c: Seq<char>)
    ensures
        ({
            let t = stored_text(encode_utf8(c));
            ||| t == encode_utf8(c + seq!['\0'])
            ||| t == encode_utf8(c + seq!['\0', '\0'])
        }),
{
    lemma_encode_nul();
    lemma_encode_concat(c, seq!['\0']);
    lemma_encode_concat(c + seq!['\0'], seq!['\0']);
    assert(c + seq!['\0'] + seq!['\0'] =~= c + seq!['\0', '\0']);
    let e = encode_utf8(c);
    assert(e.push(0u8) =~= e + seq![0u8]);
    assert(e.push(0u8).push(0u8) =~= e + seq![0u8] + seq![0u8]);
}

/// Past the header's `fmt ` and `data` chunks, the walk goes on right
/// after the sample bytes.
/// The walk steps over a chunk that is not a `LIST`.
proof fn lemma_skip_chunk(f: Seq<u8>, i: int, tag: Seq<u8>, sz: nat)
    requires
        0 <= i,
        i + 8 <= f.len(),
        f.subrange(i, i + 4) == tag,
        tag.len() == 4,
        tag[0] != list_tag()[0],
        read_le32(f, i + 4) == sz,
    ensures
        find_info(f, i) == find_info(f, i + 8 + sz + sz % 2),
{
    assert(f.subrange(i, i + 4)[0] == tag[0]);
}

#[verifier::rlimit(40)]
#[verifier::spinoff_prover]
proof fn lemma_walk_header(f: Seq<u8>, rate: u32, riff: u32, n: nat)
    requires
        rate <= 0x7fff_ffff,
        n % 2 == 0,
        n <= u32::MAX,
        f.len() >= 44 + n,
        f.subrange(0, 44) == spec_wav_header(rate, riff, n as u32),
    ensures
        find_info(f, 12) == find_info(f, 44 + n as int),
{
    let h = spec_wav_header(rate, riff, n as u32);
    lemma_header_parts(rate, riff, n as u32);
    lemma_le32(16);
    lemma_le32(n as u32);
    assert(f.subrange(12, 16) =~= h.subrange(12, 16));
    assert(f.subrange(16, 20) =~= h.subrange(16, 20));
    lemma_read_sub(f, 16);
    lemma_skip_chunk(f, 12, fmt_tag(), 16);
    assert(f.subrange(36, 40) =~= h.subrange(36, 40));
    assert(f.subrange(40, 44) =~= h.subrange(40, 44));
    lemma_read_sub(f, 40);
    lemma_skip_chunk(f, 36, data_tag(), n);
}

/// A comment chunk that ends the file is found, and its text is what the
/// walk gives back.
#[verifier::rlimit(40)]
#[verifier::spinoff_prover]
proof fn lemma_walk_comment(f: Seq<u8>, p: int, x: Seq<u8>)
    requires
        0 <= p <= f.len(),
        x.len() + 12 <= u32::MAX,
        f.subrange(p, f.len() as int) == list_tag() + le32((12 + x.len()) as u32) + info_tag()
            + icmt_tag() + le32(x.len() as u32) + x,
    ensures
        find_info(f, p) == Some(x),
{
    let t = f.subrange(p, f.len() as int);
    lemma_le32((12 + x.len()) as u32);
    lemma_le32(x.len() as u32);
    assert(f.len() == p + 20 + x.len()) by {
        assert(t.len() == 20 + x.len());
    }
    assert(f.subrange(p, p + 4) =~= t.subrange(0, 4));
    assert(t.subrange(0, 4) =~= list_tag());
    assert(f.subrange(p + 4, p + 8) =~= t.subrange(4, 8));
    assert(t.subrange(4, 8) =~= le32((12 + x.len()) as u32));
    lemma_read_sub(f, p + 4);
    assert(read_le32(f, p + 4) == 12 + x.len());
    assert(f.subrange(p + 8, p + 12) =~= t.subrange(8, 12));
    assert(t.subrange(8, 12) =~= info_tag());
    assert(f.subrange(p + 12, p + 16) =~= t.subrange(12, 16));
    assert(t.subrange(12, 16) =~= icmt_tag());
    assert(f.subrange(p + 16, p + 20) =~= t.subrange(16, 20));
    assert(t.subrange(16, 20) =~= le32(x.len() as u32));
    lemma_read_sub(f, p + 16);
    assert(read_le32(f, p + 16) == x.len());
    assert(f.subrange(p + 20, f.len() as int) =~= t.subrange(20, t.len() as int));
    assert(t.subrange(20, t.len() as int) =~= x);
    assert(find_icmt(f, p + 12, f.len() as int) == Some(x));
}

proof fn lemma_strip_nuls(c: Seq<char>, k: nat)
    requires
        c.len() > 0,
        c.last() != '\0',
    ensures
        strip_end(c + Seq::new(k, |i: int| '\0'), '\0') == c,
    decreases k,
{
    let s = c + Seq::new(k, |i: int| '\0');
    if k == 0 {
        assert(s =~= c);
    } else {
        assert(s.drop_last() =~= c + Seq::new((k - 1) as nat, |i: int| '\0'));
        lemma_strip_nuls(c, (k - 1) as nat);
    }
}

#[verifier::rlimit(40)]
#[verifier::spinoff_prover]
proof fn lemma_header_reads(f: Seq<u8>, rate: u32, riff: u32, data: u32)
    requires
        f.len() >= 44,
        f.subrange(0, 44) == spec_wav_header(rate, riff, data),
    ensures
        f.subrange(0, 4) == riff_tag(),
        f.subrange(8, 12) == wave_tag(),
        read_le32(f, 4) == riff,
        read_le32(f, 24) == rate,
        read_le32(f, 40) == data,
{
    let h = spec_wav_header(rate, riff, data);
    lemma_header_parts(rate, riff, data);
    lemma_le32(riff);
    lemma_le32(rate);
    lemma_le32(data);
    assert(f.subrange(0, 4) =~= h.subrange(0, 4));
    assert(f.subrange(8, 12) =~= h.subrange(8, 12));
    assert(f.subrange(4, 8) =~= h.subrange(4, 8));
    lemma_read_sub(f, 4);
    assert(f.subrange(24, 28) =~= h.subrange(24, 28));
    lemma_read_sub(f, 24);
    assert(f.subrange(40, 44) =~= h.subrange(40, 44));
    lemma_read_sub(f, 40);
}

proof fn lemma_encode_nonempty(c: Seq<char>)
    requires
        c.len() > 0,
    ensures
        encode_utf8(c).len() > 0,
{
    lemma_encode_concat(seq![c[0]], c.drop_first());
    assert(seq![c[0]] + c.drop_first() =~= c);
    assert(seq![c[0]].drop_first() =~= Seq::<char>::empty());
    assert(encode_utf8(Seq::<char>::empty()) == Seq::<u8>::empty());
}

/// A comment's stored text decodes and trims back to the comment.
proof fn lemma_comment_roundtrip(comment: Seq<char>)
    requires
        comment.len() > 0,
        comment.last() != '\0',
        trim(comment) == comment,
    ensures
        valid_utf8(stored_text(encode_utf8(comment))),
        comment_text(decode_utf8(stored_text(encode_utf8(comment)))) == comment,
{
    let x = stored_text(encode_utf8(comment));
    lemma_stored_text(comment);
    let k: nat = if x == encode_utf8(comment + seq!['\0']) {
        1
    } else {
        2
    };
    let z = comment + Seq::new(k, |i: int| '\0');
    assert(comment + seq!['\0'] =~= comment + Seq::new(1, |i: int| '\0'));
    assert(comment + seq!['\0', '\0'] =~= comment + Seq::new(2, |i: int| '\0'));
    assert(x == encode_utf8(z));
    vstd::utf8::encode_utf8_valid_utf8(z);
    vstd::utf8::encode_utf8_decode_utf8(z);
    lemma_strip_nuls(comment, k);
}

/// A finished recording reads back as written: the RIFF size is the file
/// length less eight, the rate and the data size are those written, and
/// a comment with no trailing NUL and no surrounding whitespace comes back
/// unchanged (a file written without one has none).
#[verifier::rlimit(40)]
#[verifier::spinoff_prover]
pub proof fn lemma_wav_reads_back(rate: u32, samples: Seq<u8>, comment: Seq<char>)
    requires
        rate <= 0x7fff_ffff,
        samples.len() % 2 == 0,
        36 + samples.len() + spec_info_chunk(encode_utf8(comment)).len() <= u32::MAX,
        comment.len() > 0 ==> comment.last() != '\0' && trim(comment) == comment,
    ensures
        ({
            let f = spec_wav_file(rate, samples, comment);
            &&& f.subrange(0, 4) == riff_tag()
            &&& read_le32(f, 4) == f.len() - 8
            &&& read_le32(f, 24) == rate
            &&& read_le32(f, 40) == samples.len()
            &&& comment.len() == 0 ==> icmt_body(f) is None
            &&& comment.len() > 0 ==> (icmt_body(f) matches Some(b) && valid_utf8(b)
                && comment_text(decode_utf8(b)) == comment)
        }),
{
    let e = encode_utf8(comment);
    let t = spec_info_chunk(e);
    let riff = (36 + samples.len() + t.len()) as u32;
    let h = spec_wav_header(rate, riff, samples.len() as u32);
    let f = h + samples + t;
    let p = 44 + samples.len() as int;
    lemma_header_parts(rate, riff, samples.len() as u32);
    assert(f.subrange(0, 44) =~= h);
    lemma_header_reads(f, rate, riff, samples.len() as u32);
    lemma_walk_header(f, rate, riff, samples.len());
    if comment.len() == 0 {
        assert(f.len() == p);
        assert(find_info(f, p) is None);
    } else {
        lemma_encode_nonempty(comment);
        let x = stored_text(e);
        assert(f.subrange(p, f.len() as int) =~= t);
        lemma_walk_comment(f, p, x);
        lemma_comment_roundtrip(comment);
    }
}

} // verus!
