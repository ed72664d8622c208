//! Decoded-line feeds for the data modes: what multimon-ng and minimodem
//! would print, so the parsers and tables run without a decoder.

use vstd::prelude::*;
use crate::dsp::Rng;
use crate::sim::voice::draw;
use crate::text::{chars_of, dec_chars, dec_str, pad_left, pad_left_of, push_all, push_str, string_of};

verus! {

/// A number right-aligned in seven columns (`{:7}`).
pub open spec fn col7(n: nat) -> Seq<char> {
    pad_left(dec_str(n), 7, ' ')
}

/// Line `n` of the POCSAG feed, and the generator state after it: every
/// fourth page a numeric one with a drawn phone number, else an alpha one
/// from one of five neighbouring addresses.
pub open spec fn spec_pocsag_line(n: u32, address: u32, message: Seq<char>, st: u64) -> (Seq<char>, u64) {
    if n % 4 == 3 {
        (
            "POCSAG512: Address: "@ + col7((address % 2_097_152) as nat) + "  Function: 3  Numeric: 06"@
                + dec_str((10_000_000 + draw(st).0 % 89_999_999) as nat),
            draw(st).1,
        )
    } else {
        (
            "POCSAG1200: Address: "@ + col7(((address + n % 5) % 0x1_0000_0000) as nat) + "  Function: 0  Alpha:   "@
                + message + " #"@ + dec_str(n as nat),
            st,
        )
    }
}

pub fn pocsag_line(n: u32, address: u32, message: &str, rng: &mut Rng) -> (s: String)
    ensures
        (s@, final(rng)@) == spec_pocsag_line(n, address, message@, old(rng)@),
{
    if n % 4 == 3 {
        let mut v = chars_of("POCSAG512: Address: ");
        push_all(&mut v, &pad_left_of(&dec_chars((address % 2_097_152) as u64), 7, ' '));
        push_str(&mut v, "  Function: 3  Numeric: 06");
        let d = rng.next_u64() % 89_999_999;
        push_all(&mut v, &dec_chars(10_000_000 + d));
        string_of(&v)
    } else {
        let mut v = chars_of("POCSAG1200: Address: ");
        let a = address.wrapping_add(n % 5);
        assert(a == (address + n % 5) % 0x1_0000_0000);
        push_all(&mut v, &pad_left_of(&dec_chars(a as u64), 7, ' '));
        push_str(&mut v, "  Function: 0  Alpha:   ");
        push_str(&mut v, message);
        push_str(&mut v, " #");
        push_all(&mut v, &dec_chars(n as u64));
        string_of(&v)
    }
}

/// The AFSK1200 header line for packets from `callsign`.
pub open spec fn spec_aprs_header(callsign: Seq<char>) -> Seq<char> {
    "AFSK1200: fm "@ + callsign + " to APDECK-0 via WIDE1-1,WIDE2-2 UI pid=F0"@
}

pub fn aprs_header(callsign: &str) -> (s: String)
    ensures
        s@ == spec_aprs_header(callsign@),
{
    let mut v = chars_of("AFSK1200: fm ");
    push_str(&mut v, callsign);
    push_str(&mut v, " to APDECK-0 via WIDE1-1,WIDE2-2 UI pid=F0");
    string_of(&v)
}

/// Packet `n`'s information field: a status, a position or telemetry,
/// in turn.
pub open spec fn spec_aprs_info(n: u32, message: Seq<char>) -> Seq<char> {
    if n % 3 == 0 {
        ">"@ + message + " #"@ + dec_str(n as nat)
    } else if n % 3 == 1 {
        "!4447.40N/02027.60E>073/036 deck mobile"@
    } else {
        "T#"@ + pad_left(dec_str((n % 1000) as nat), 3, '0') + ",123,045,678,010,090,00000000"@
    }
}

pub fn aprs_info(n: u32, message: &str) -> (s: String)
    ensures
        s@ == spec_aprs_info(n, message@),
{
    if n % 3 == 0 {
        let mut v = chars_of(">");
        push_str(&mut v, message);
        push_str(&mut v, " #");
        push_all(&mut v, &dec_chars(n as u64));
        string_of(&v)
    } else if n % 3 == 1 {
        String::from_str("!4447.40N/02027.60E>073/036 deck mobile")
    } else {
        let mut v = chars_of("T#");
        push_all(&mut v, &pad_left_of(&dec_chars((n % 1000) as u64), 3, '0'));
        push_str(&mut v, ",123,045,678,010,090,00000000");
        string_of(&v)
    }
}

/// Line `n` of the RTTY feed.
pub open spec fn spec_rtty_line(message: Seq<char>, n: u32) -> Seq<char> {
    "RYRYRY DE DECK "@ + message + " NR "@ + dec_str(n as nat)
}

pub fn rtty_line(message: &str, n: u32) -> (s: String)
    ensures
        s@ == spec_rtty_line(message@, n),
{
    let mut v = chars_of("RYRYRY DE DECK ");
    push_str(&mut v, message);
    push_str(&mut v, " NR ");
    push_all(&mut v, &dec_chars(n as u64));
    string_of(&v)
}

} // verus!
