//! FT8 decoder output: the fields of a decoded line and the callsign of
//! interest in a message.
//!
//! Lines from WSJT-X `jt9` and from `ft8_lib` share the shape
//! `[HHMMSS] SNR DT FREQ [~] MESSAGE`.

use vstd::prelude::*;
use crate::text::{
    all_digits, chars_of, clamp64, dec_scaled, digit, join, parse_int, parse_int_str, parse_scaled, parse_uint,
    parse_uint_str,
    seq_eq, split_ws, string_of, tokens, views, push_all,
};

verus! {

/// The callsign of interest: the one after `CQ DX` or `CQ`, else the
/// second word (the sender of a reply).
pub open spec fn spec_callers(t: Seq<Seq<char>>) -> Option<Seq<char>> {
    if t.len() >= 3 && t[0] == "CQ"@ && t[1] == "DX"@ {
        Some(t[2])
    } else if t.len() >= 2 {
        Some(t[1])
    } else {
        None
    }
}

/// Pull the callsign of interest for quick display (best-effort).
pub fn callers(msg: &str) -> (r: Option<String>)
    ensures
        r matches Some(c) ==> spec_callers(tokens(msg@)) == Some(c@),
        r is None ==> spec_callers(tokens(msg@)) is None,
{
    let v = chars_of(msg);
    let t = split_ws(&v);
    assert(views(t@) == tokens(msg@));
    let cq = chars_of("CQ");
    let dx = chars_of("DX");
    if t.len() >= 3 && seq_eq(&t[0], &cq) && seq_eq(&t[1], &dx) {
        assert(t@[2]@ == views(t@)[2]);
        Some(string_of(&t[2]))
    } else if t.len() >= 2 {
        assert(t@[1]@ == views(t@)[1]);
        Some(string_of(&t[1]))
    } else {
        None
    }
}

/// One decoded line.
#[derive(Clone, Debug, PartialEq)]
pub struct Spot {
    pub snr: i32,
    /// time offset, milliseconds (the decimal seconds printed, truncated
    /// toward zero)
    pub dt: i64,
    /// audio offset frequency (Hz)
    pub freq: u32,
    pub msg: String,
}

pub struct SpotView {
    pub snr: i32,
    pub dt: i64,
    pub freq: u32,
    pub msg: Seq<char>,
}

impl View for Spot {
    type V = SpotView;

    open spec fn view(&self) -> SpotView {
        SpotView { snr: self.snr, dt: self.dt, freq: self.freq, msg: self.msg@ }
    }
}

/// A leading six-digit `HHMMSS` word is a timestamp.
pub open spec fn is_stamp(w: Seq<char>) -> bool {
    w.len() == 6 && all_digits(w)
}

/// `SNR DT FREQ [~] MESSAGE` after an optional timestamp: SNR an integer
/// within -30..=50 dB, DT a decimal number of seconds, FREQ at most
/// 6000 Hz, the message the remaining words joined by single spaces and
/// not empty.
pub open spec fn spec_parse_spot(line: Seq<char>) -> Option<SpotView> {
    let t0 = tokens(line);
    let t = if t0.len() > 0 && is_stamp(t0[0]) { t0.skip(1) } else { t0 };
    if t0.len() == 0 || t.len() < 4 {
        None
    } else {
        match (parse_int(t[0], -0x8000_0000, 0x7fff_ffff), dec_scaled(t[1], 3), parse_uint(t[2], 0xffff_ffff)) {
            (Some(snr), Some(dt), Some(freq)) => {
                let rest = if t[3] == "~"@ { t.skip(4) } else { t.skip(3) };
                let msg = join(rest, " "@);
                if -30 <= snr <= 50 && freq <= 6000 && msg.len() > 0 {
                    Some(SpotView { snr: snr as i32, dt: clamp64(dt), freq: freq as u32, msg })
                } else {
                    None
                }
            },
            _ => None,
        }
    }
}

fn is_stamp_of(w: &Vec<char>) -> (b: bool)
    ensures
        b == is_stamp(w@),
{
    if w.len() != 6 {
        return false;
    }
    let mut i: usize = 0;
    while i < 6
        invariant
            i <= 6,
            w@.len() == 6,
            forall|j: int| 0 <= j < i ==> crate::text::is_digit(#[trigger] w@[j]),
        decreases 6 - i,
    {
        if !digit(w[i]) {
            return false;
        }
        i += 1;
    }
    true
}

/// The fields of one decoder line.
pub fn parse_spot(line: &str) -> (r: Option<Spot>)
    ensures
        r matches Some(s) ==> spec_parse_spot(line@) == Some(s@),
        r is None ==> spec_parse_spot(line@) is None,
{
    let v = chars_of(line);
    let t0 = split_ws(&v);
    let ghost tv0 = views(t0@);
    assert(tv0 == tokens(line@));
    if t0.len() == 0 {
        return None;
    }
    let skip: usize = if is_stamp_of(&t0[0]) {
        1
    } else {
        0
    };
    let ghost tv = tv0.skip(skip as int);
    assert(skip == 1 ==> tv == (if tv0.len() > 0 && is_stamp(tv0[0]) { tv0.skip(1) } else { tv0 }));
    assert(skip == 0 ==> tv0.skip(0) == tv0);
    if t0.len() - skip < 4 {
        return None;
    }
    assert(t0@[skip as int]@ == tv[0] && t0@[skip + 1]@ == tv[1] && t0@[skip + 2]@ == tv[2]
        && t0@[skip + 3]@ == tv[3]);
    let snr = parse_int_str(&t0[skip], 0x7fff_ffff);
    let dt = parse_scaled(&t0[skip + 1], 3);
    let freq = parse_uint_str(&t0[skip + 2], 0xffff_ffff);
    match (snr, dt, freq) {
        (Some(s), Some(d), Some(f)) => {
            let tilde = chars_of("~");
            let from: usize = if seq_eq(&t0[skip + 3], &tilde) {
                skip + 4
            } else {
                skip + 3
            };
            let ghost rest = tv0.skip(from as int);
            assert(rest == (if tv[3] == "~"@ { tv.skip(4) } else { tv.skip(3) }));
            let mut msg: Vec<char> = Vec::new();
            let mut k: usize = from;
            while k < t0.len()
                invariant
                    from <= k <= t0@.len(),
                    tv0 == views(t0@),
                    rest == tv0.skip(from as int),
                    msg@ == join(rest.take(k - from), " "@),
                decreases t0.len() - k,
            {
                assert(rest.take(k - from + 1).drop_last() == rest.take(k - from));
                assert(rest.take(k - from + 1).last() == t0@[k as int]@);
                if k > from {
                    msg.push(' ');
                }
                push_all(&mut msg, &t0[k]);
                proof {
                    reveal_strlit(" ");
                }
                k += 1;
            }
            assert(rest.take(t0@.len() - from) == rest);
            if -30 <= s && s <= 50 && f <= 6000 && msg.len() > 0 {
                Some(
                    Spot {
                        snr: s as i32,
                        dt: d,
                        freq: f as u32,
                        msg: string_of(&msg),
                    },
                )
            } else {
                None
            }
        },
        _ => None,
    }
}

} // verus!
